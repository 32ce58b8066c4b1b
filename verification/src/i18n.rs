//! User interface texts in English, Chinese and Japanese.

use vstd::prelude::*;

verus! {
/// A user interface language.
#[derive(Clone, Copy, PartialEq, Eq, Debug, Structural)]
pub enum Language {
    /// English
    En,
    /// Chinese
    Zh,
    /// Japanese
    Ja,
}
/// The user interface texts of one language.
pub struct Translation {
    /// Text `menu_file`
    pub menu_file: &'static str,
    /// Text `menu_edit`
    pub menu_edit: &'static str,
    /// Text `menu_help`
    pub menu_help: &'static str,
    /// Text `action_new`
    pub action_new: &'static str,
    /// Text `action_open`
    pub action_open: &'static str,
    /// Text `action_save_as`
    pub action_save_as: &'static str,
    /// Text `action_export`
    pub action_export: &'static str,
    /// Text `action_close_all`
    pub action_close_all: &'static str,
    /// Text `action_settings`
    pub action_settings: &'static str,
    /// Text `action_about`
    pub action_about: &'static str,
    /// Text `dialog_unsaved_title`
    pub dialog_unsaved_title: &'static str,
    /// Text `dialog_unsaved_body`
    pub dialog_unsaved_body: &'static str,
    /// Text `dialog_clear_title`
    pub dialog_clear_title: &'static str,
    /// Text `dialog_clear_body`
    pub dialog_clear_body: &'static str,
    /// Text `btn_clear_confirm`
    pub btn_clear_confirm: &'static str,
    /// Text `btn_create`
    pub btn_create: &'static str,
    /// Text `btn_cancel`
    pub btn_cancel: &'static str,
    /// Text `btn_save`
    pub btn_save: &'static str,
    /// Text `btn_save_all`
    pub btn_save_all: &'static str,
    /// Text `btn_discard_all`
    pub btn_discard_all: &'static str,
    /// Text `btn_dont_save`
    pub btn_dont_save: &'static str,
    /// Text `btn_ok`
    pub btn_ok: &'static str,
    /// Text `btn_clear_all`
    pub btn_clear_all: &'static str,
    /// Text `btn_player_open`
    pub btn_player_open: &'static str,
    /// Text `btn_player_close`
    pub btn_player_close: &'static str,
    /// Text `btn_curve_tool`
    pub btn_curve_tool: &'static str,
    /// Text `label_name`
    pub label_name: &'static str,
    /// Text `label_layers`
    pub label_layers: &'static str,
    /// Text `label_fps`
    pub label_fps: &'static str,
    /// Text `label_f_per_page`
    pub label_f_per_page: &'static str,
    /// Text `label_duration`
    pub label_duration: &'static str,
    /// Text `label_total`
    pub label_total: &'static str,
    /// Text `label_pages`
    pub label_pages: &'static str,
    /// Text `info_layer`
    pub info_layer: &'static str,
    /// Text `info_frame`
    pub info_frame: &'static str,
    /// Text `info_page`
    pub info_page: &'static str,
    /// Text `ctx_copy`
    pub ctx_copy: &'static str,
    /// Text `ctx_cut`
    pub ctx_cut: &'static str,
    /// Text `ctx_paste`
    pub ctx_paste: &'static str,
    /// Text `ctx_undo`
    pub ctx_undo: &'static str,
    /// Text `ctx_repeat`
    pub ctx_repeat: &'static str,
    /// Text `ctx_reverse`
    pub ctx_reverse: &'static str,
    /// Text `ctx_smart_fill`
    pub ctx_smart_fill: &'static str,
    /// Text `ctx_sequence_fill`
    pub ctx_sequence_fill: &'static str,
    /// Text `ctx_copy_ae`
    pub ctx_copy_ae: &'static str,
    /// Text `ctx_insert_col_l`
    pub ctx_insert_col_l: &'static str,
    /// Text `ctx_insert_col_r`
    pub ctx_insert_col_r: &'static str,
    /// Text `ctx_del_col`
    pub ctx_del_col: &'static str,
    /// Text `dialog_repeat_count`
    pub dialog_repeat_count: &'static str,
    /// Text `dialog_repeat_until_end`
    pub dialog_repeat_until_end: &'static str,
    /// Text `dialog_seq_start`
    pub dialog_seq_start: &'static str,
    /// Text `dialog_seq_end`
    pub dialog_seq_end: &'static str,
    /// Text `dialog_seq_hold`
    pub dialog_seq_hold: &'static str,
    /// Text `settings_title`
    pub settings_title: &'static str,
    /// Text `settings_csv`
    pub settings_csv: &'static str,
    /// Text `settings_general`
    pub settings_general: &'static str,
    /// Text `settings_autosave`
    pub settings_autosave: &'static str,
    /// Text `settings_appearance`
    pub settings_appearance: &'static str,
    /// Text `settings_language`
    pub settings_language: &'static str,
    /// Text `settings_theme`
    pub settings_theme: &'static str,
    /// Text `curve_title`
    pub curve_title: &'static str,
    /// Text `curve_section_selection`
    pub curve_section_selection: &'static str,
    /// Text `curve_target_layer`
    pub curve_target_layer: &'static str,
    /// Text `curve_frame_range`
    pub curve_frame_range: &'static str,
    /// Text `curve_no_selection`
    pub curve_no_selection: &'static str,
    /// Text `curve_no_selection_tip`
    pub curve_no_selection_tip: &'static str,
    /// Text `curve_btn_linear`
    pub curve_btn_linear: &'static str,
    /// Text `curve_btn_ease_in`
    pub curve_btn_ease_in: &'static str,
    /// Text `curve_btn_ease_out`
    pub curve_btn_ease_out: &'static str,
    /// Text `curve_btn_ease_in_out`
    pub curve_btn_ease_in_out: &'static str,
    /// Text `curve_label_start`
    pub curve_label_start: &'static str,
    /// Text `curve_label_duration`
    pub curve_label_duration: &'static str,
    /// Text `curve_label_drawings`
    pub curve_label_drawings: &'static str,
    /// Text `curve_info_ratio`
    pub curve_info_ratio: &'static str,
    /// Text `curve_btn_apply`
    pub curve_btn_apply: &'static str,
    /// Text `player_title`
    pub player_title: &'static str,
    /// Text `player_play`
    pub player_play: &'static str,
    /// Text `player_pause`
    pub player_pause: &'static str,
    /// Text `player_stop`
    pub player_stop: &'static str,
    /// Text `player_loop`
    pub player_loop: &'static str,
    /// Text `player_source`
    pub player_source: &'static str,
    /// Text `player_ref_video`
    pub player_ref_video: &'static str,
    /// Text `player_bind_folder`
    pub player_bind_folder: &'static str,
    /// Text `player_timeline`
    pub player_timeline: &'static str,
    /// Text `player_bake`
    pub player_bake: &'static str,
    /// Text `theme_customize`
    pub theme_customize: &'static str,
    /// Text `theme_base_mode`
    pub theme_base_mode: &'static str,
    /// Text `theme_dark_mode`
    pub theme_dark_mode: &'static str,
    /// Text `theme_save_as`
    pub theme_save_as: &'static str,
    /// Text `theme_save_btn`
    pub theme_save_btn: &'static str,
    /// Text `hover_export`
    pub hover_export: &'static str,
    /// Text `hover_clear`
    pub hover_clear: &'static str,
    /// Text `hover_bake`
    pub hover_bake: &'static str,
    /// Text `msg_saved`
    pub msg_saved: &'static str,
    /// Text `msg_cleared`
    pub msg_cleared: &'static str,
}
/// The English texts.
pub fn en_us() -> (t: Translation)
    ensures
        t.menu_file@ == "File"@,
        t.menu_edit@ == "Edit"@,
        t.menu_help@ == "Help"@,
        t.action_new@ == "New Document"@,
        t.action_open@ == "Open..."@,
        t.action_save_as@ == "Save As..."@,
        t.action_export@ == "Export CSV..."@,
        t.action_close_all@ == "Close All"@,
        t.action_settings@ == "Settings"@,
        t.action_about@ == "About"@,
        t.dialog_unsaved_title@ == "Unsaved Changes"@,
        t.dialog_unsaved_body@ == "The following documents have unsaved changes:"@,
        t.dialog_clear_title@ == "Clear All Data?"@,
        t.dialog_clear_body@ == "This will erase ALL data in the current sheet.\nThis action can be undone."@,
        t.btn_clear_confirm@ == "Yes, Clear All"@,
        t.btn_create@ == "Create"@,
        t.btn_cancel@ == "Cancel"@,
        t.btn_save@ == "Save"@,
        t.btn_save_all@ == "Save All"@,
        t.btn_discard_all@ == "Discard All"@,
        t.btn_dont_save@ == "Don't Save"@,
        t.btn_ok@ == "OK"@,
        t.btn_clear_all@ == "Clear All"@,
        t.btn_player_open@ == "Open Preview"@,
        t.btn_player_close@ == "Close Preview"@,
        t.btn_curve_tool@ == "Curve Tool"@,
        t.label_name@ == "Name:"@,
        t.label_layers@ == "Layers:"@,
        t.label_fps@ == "FPS:"@,
        t.label_f_per_page@ == "F/Page:"@,
        t.label_duration@ == "Duration:"@,
        t.label_total@ == "Total"@,
        t.label_pages@ == "Pages"@,
        t.info_layer@ == "Layer"@,
        t.info_frame@ == "Frame"@,
        t.info_page@ == "Page"@,
        t.ctx_copy@ == "Copy"@,
        t.ctx_cut@ == "Cut"@,
        t.ctx_paste@ == "Paste"@,
        t.ctx_undo@ == "Undo"@,
        t.ctx_repeat@ == "Repeat..."@,
        t.ctx_reverse@ == "Reverse"@,
        t.ctx_smart_fill@ == "Smart Fill"@,
        t.ctx_sequence_fill@ == "Sequence Fill..."@,
        t.ctx_copy_ae@ == "Copy AE Data"@,
        t.ctx_insert_col_l@ == "Insert Col Left"@,
        t.ctx_insert_col_r@ == "Insert Col Right"@,
        t.ctx_del_col@ == "Delete Column"@,
        t.dialog_repeat_count@ == "Count:"@,
        t.dialog_repeat_until_end@ == "Until End"@,
        t.dialog_seq_start@ == "Start:"@,
        t.dialog_seq_end@ == "End:"@,
        t.dialog_seq_hold@ == "Hold:"@,
        t.settings_title@ == "Preferences"@,
        t.settings_csv@ == "CSV Export"@,
        t.settings_general@ == "General"@,
        t.settings_autosave@ == "Auto-save on modify"@,
        t.settings_appearance@ == "Appearance"@,
        t.settings_language@ == "Language"@,
        t.settings_theme@ == "Theme"@,
        t.curve_title@ == "Curve Editor"@,
        t.curve_section_selection@ == "Active Selection"@,
        t.curve_target_layer@ == "Target Layer:"@,
        t.curve_frame_range@ == "Frame Range:"@,
        t.curve_no_selection@ == "⚠ No Selection"@,
        t.curve_no_selection_tip@ == "Please select a cell or range."@,
        t.curve_btn_linear@ == "Linear"@,
        t.curve_btn_ease_in@ == "Ease In"@,
        t.curve_btn_ease_out@ == "Ease Out"@,
        t.curve_btn_ease_in_out@ == "Ease InOut"@,
        t.curve_label_start@ == "Start No.:"@,
        t.curve_label_duration@ == "Duration:"@,
        t.curve_label_drawings@ == "Drawings:"@,
        t.curve_info_ratio@ == "Avg: 1 drawing per {:.1} frames"@,
        t.curve_btn_apply@ == "Apply Curve"@,
        t.player_title@ == "Preview Player"@,
        t.player_play@ == "⏵ Play"@,
        t.player_pause@ == "⏸ Pause"@,
        t.player_stop@ == "⏹ Stop"@,
        t.player_loop@ == "Loop"@,
        t.player_source@ == "Source:"@,
        t.player_ref_video@ == "Ref Video"@,
        t.player_bind_folder@ == "📂 Bind Folder"@,
        t.player_timeline@ == "Timeline"@,
        t.player_bake@ == "Bake"@,
        t.theme_customize@ == "Customize Theme Colors"@,
        t.theme_base_mode@ == "Base Mode:"@,
        t.theme_dark_mode@ == "Dark UI Base"@,
        t.theme_save_as@ == "Save As:"@,
        t.theme_save_btn@ == "Save JSON"@,
        t.hover_export@ == "Export Timesheet to CSV format"@,
        t.hover_clear@ == "Clear all cells in this sheet"@,
        t.hover_bake@ == "Bake this layer to a sequence folder"@,
        t.msg_saved@ == "Document saved successfully."@,
        t.msg_cleared@ == "Sheet cleared."@,
{
    Translation {
        menu_file: "File",
        menu_edit: "Edit",
        menu_help: "Help",
        action_new: "New Document",
        action_open: "Open...",
        action_save_as: "Save As...",
        action_export: "Export CSV...",
        action_close_all: "Close All",
        action_settings: "Settings",
        action_about: "About",
        dialog_unsaved_title: "Unsaved Changes",
        dialog_unsaved_body: "The following documents have unsaved changes:",
        dialog_clear_title: "Clear All Data?",
        dialog_clear_body: "This will erase ALL data in the current sheet.\nThis action can be undone.",
        btn_clear_confirm: "Yes, Clear All",
        btn_create: "Create",
        btn_cancel: "Cancel",
        btn_save: "Save",
        btn_save_all: "Save All",
        btn_discard_all: "Discard All",
        btn_dont_save: "Don't Save",
        btn_ok: "OK",
        btn_clear_all: "Clear All",
        btn_player_open: "Open Preview",
        btn_player_close: "Close Preview",
        btn_curve_tool: "Curve Tool",
        label_name: "Name:",
        label_layers: "Layers:",
        label_fps: "FPS:",
        label_f_per_page: "F/Page:",
        label_duration: "Duration:",
        label_total: "Total",
        label_pages: "Pages",
        info_layer: "Layer",
        info_frame: "Frame",
        info_page: "Page",
        ctx_copy: "Copy",
        ctx_cut: "Cut",
        ctx_paste: "Paste",
        ctx_undo: "Undo",
        ctx_repeat: "Repeat...",
        ctx_reverse: "Reverse",
        ctx_smart_fill: "Smart Fill",
        ctx_sequence_fill: "Sequence Fill...",
        ctx_copy_ae: "Copy AE Data",
        ctx_insert_col_l: "Insert Col Left",
        ctx_insert_col_r: "Insert Col Right",
        ctx_del_col: "Delete Column",
        dialog_repeat_count: "Count:",
        dialog_repeat_until_end: "Until End",
        dialog_seq_start: "Start:",
        dialog_seq_end: "End:",
        dialog_seq_hold: "Hold:",
        settings_title: "Preferences",
        settings_csv: "CSV Export",
        settings_general: "General",
        settings_autosave: "Auto-save on modify",
        settings_appearance: "Appearance",
        settings_language: "Language",
        settings_theme: "Theme",
        curve_title: "Curve Editor",
        curve_section_selection: "Active Selection",
        curve_target_layer: "Target Layer:",
        curve_frame_range: "Frame Range:",
        curve_no_selection: "⚠ No Selection",
        curve_no_selection_tip: "Please select a cell or range.",
        curve_btn_linear: "Linear",
        curve_btn_ease_in: "Ease In",
        curve_btn_ease_out: "Ease Out",
        curve_btn_ease_in_out: "Ease InOut",
        curve_label_start: "Start No.:",
        curve_label_duration: "Duration:",
        curve_label_drawings: "Drawings:",
        curve_info_ratio: "Avg: 1 drawing per {:.1} frames",
        curve_btn_apply: "Apply Curve",
        player_title: "Preview Player",
        player_play: "⏵ Play",
        player_pause: "⏸ Pause",
        player_stop: "⏹ Stop",
        player_loop: "Loop",
        player_source: "Source:",
        player_ref_video: "Ref Video",
        player_bind_folder: "📂 Bind Folder",
        player_timeline: "Timeline",
        player_bake: "Bake",
        theme_customize: "Customize Theme Colors",
        theme_base_mode: "Base Mode:",
        theme_dark_mode: "Dark UI Base",
        theme_save_as: "Save As:",
        theme_save_btn: "Save JSON",
        hover_export: "Export Timesheet to CSV format",
        hover_clear: "Clear all cells in this sheet",
        hover_bake: "Bake this layer to a sequence folder",
        msg_saved: "Document saved successfully.",
        msg_cleared: "Sheet cleared.",
    }
}

/// The Chinese texts.
pub fn zh_cn() -> (t: Translation)
    ensures
        t.menu_file@ == "文件"@,
        t.menu_edit@ == "编辑"@,
        t.menu_help@ == "帮助"@,
        t.action_new@ == "新建文档"@,
        t.action_open@ == "打开..."@,
        t.action_save_as@ == "另存为..."@,
        t.action_export@ == "导出 CSV..."@,
        t.action_close_all@ == "关闭所有"@,
        t.action_settings@ == "设置"@,
        t.action_about@ == "关于"@,
        t.dialog_unsaved_title@ == "未保存的更改"@,
        t.dialog_unsaved_body@ == "以下文档有未保存的更改:"@,
        t.dialog_clear_title@ == "清空所有数据？"@,
        t.dialog_clear_body@ == "这将清除当前表单的所有数据。\n此操作可以撤销。"@,
        t.btn_clear_confirm@ == "确认清空"@,
        t.btn_create@ == "创建"@,
        t.btn_cancel@ == "取消"@,
        t.btn_save@ == "保存"@,
        t.btn_save_all@ == "保存所有"@,
        t.btn_discard_all@ == "放弃更改"@,
        t.btn_dont_save@ == "不保存"@,
        t.btn_ok@ == "确定"@,
        t.btn_clear_all@ == "清空"@,
        t.btn_player_open@ == "开启预览"@,
        t.btn_player_close@ == "关闭预览"@,
        t.btn_curve_tool@ == "曲线工具"@,
        t.label_name@ == "名称:"@,
        t.label_layers@ == "层数:"@,
        t.label_fps@ == "帧率:"@,
        t.label_f_per_page@ == "一页帧数:"@,
        t.label_duration@ == "时长:"@,
        t.label_total@ == "总计"@,
        t.label_pages@ == "页数"@,
        t.info_layer@ == "层"@,
        t.info_frame@ == "帧"@,
        t.info_page@ == "页"@,
        t.ctx_copy@ == "复制"@,
        t.ctx_cut@ == "剪切"@,
        t.ctx_paste@ == "粘贴"@,
        t.ctx_undo@ == "撤销"@,
        t.ctx_repeat@ == "重复..."@,
        t.ctx_reverse@ == "倒序"@,
        t.ctx_smart_fill@ == "智能填充"@,
        t.ctx_sequence_fill@ == "序列填充..."@,
        t.ctx_copy_ae@ == "复制 AE 数据"@,
        t.ctx_insert_col_l@ == "左侧插入列"@,
        t.ctx_insert_col_r@ == "右侧插入列"@,
        t.ctx_del_col@ == "删除当前列"@,
        t.dialog_repeat_count@ == "次数:"@,
        t.dialog_repeat_until_end@ == "直到结束"@,
        t.dialog_seq_start@ == "开始值:"@,
        t.dialog_seq_end@ == "结束值:"@,
        t.dialog_seq_hold@ == "保持帧:"@,
        t.settings_title@ == "首选项"@,
        t.settings_csv@ == "CSV 导出设置"@,
        t.settings_general@ == "常规"@,
        t.settings_autosave@ == "修改时自动保存"@,
        t.settings_appearance@ == "外观"@,
        t.settings_language@ == "语言"@,
        t.settings_theme@ == "主题"@,
        t.curve_title@ == "曲线工具"@,
        t.curve_section_selection@ == "当前指向"@,
        t.curve_target_layer@ == "目标图层:"@,
        t.curve_frame_range@ == "帧范围:"@,
        t.curve_no_selection@ == "⚠ 无选区"@,
        t.curve_no_selection_tip@ == "请在表中选择单元格或范围。"@,
        t.curve_btn_linear@ == "线性"@,
        t.curve_btn_ease_in@ == "缓入"@,
        t.curve_btn_ease_out@ == "缓出"@,
        t.curve_btn_ease_in_out@ == "缓入缓出"@,
        t.curve_label_start@ == "起始号:"@,
        t.curve_label_duration@ == "持续帧:"@,
        t.curve_label_drawings@ == "张数:"@,
        t.curve_info_ratio@ == "平均: 每 {:.1} 帧 1 张"@,
        t.curve_btn_apply@ == "应用曲线"@,
        t.player_title@ == "预览器 (Preview Player)"@,
        t.player_play@ == "⏵ 播放"@,
        t.player_pause@ == "⏸ 暂停"@,
        t.player_stop@ == "⏹ 停止"@,
        t.player_loop@ == "循环"@,
        t.player_source@ == "源:"@,
        t.player_ref_video@ == "参考视频"@,
        t.player_bind_folder@ == "📂 绑定序列文件夹"@,
        t.player_timeline@ == "时间轴"@,
        t.player_bake@ == " 烘焙 "@,
        t.theme_customize@ == "自定义主题颜色 (Customize Colors)"@,
        t.theme_base_mode@ == "基础模式:"@,
        t.theme_dark_mode@ == "深色 UI 底色 (Dark Mode)"@,
        t.theme_save_as@ == "另存为:"@,
        t.theme_save_btn@ == "保存主题 (JSON)"@,
        t.hover_export@ == "将摄影表导出为 CSV 格式"@,
        t.hover_clear@ == "清空当前表的所有数据"@,
        t.hover_bake@ == "将该层原画渲染为物理序列帧"@,
        t.msg_saved@ == "文档保存成功。"@,
        t.msg_cleared@ == "表单已清空。"@,
{
    Translation {
        menu_file: "文件",
        menu_edit: "编辑",
        menu_help: "帮助",
        action_new: "新建文档",
        action_open: "打开...",
        action_save_as: "另存为...",
        action_export: "导出 CSV...",
        action_close_all: "关闭所有",
        action_settings: "设置",
        action_about: "关于",
        dialog_unsaved_title: "未保存的更改",
        dialog_unsaved_body: "以下文档有未保存的更改:",
        dialog_clear_title: "清空所有数据？",
        dialog_clear_body: "这将清除当前表单的所有数据。\n此操作可以撤销。",
        btn_clear_confirm: "确认清空",
        btn_create: "创建",
        btn_cancel: "取消",
        btn_save: "保存",
        btn_save_all: "保存所有",
        btn_discard_all: "放弃更改",
        btn_dont_save: "不保存",
        btn_ok: "确定",
        btn_clear_all: "清空",
        btn_player_open: "开启预览",
        btn_player_close: "关闭预览",
        btn_curve_tool: "曲线工具",
        label_name: "名称:",
        label_layers: "层数:",
        label_fps: "帧率:",
        label_f_per_page: "一页帧数:",
        label_duration: "时长:",
        label_total: "总计",
        label_pages: "页数",
        info_layer: "层",
        info_frame: "帧",
        info_page: "页",
        ctx_copy: "复制",
        ctx_cut: "剪切",
        ctx_paste: "粘贴",
        ctx_undo: "撤销",
        ctx_repeat: "重复...",
        ctx_reverse: "倒序",
        ctx_smart_fill: "智能填充",
        ctx_sequence_fill: "序列填充...",
        ctx_copy_ae: "复制 AE 数据",
        ctx_insert_col_l: "左侧插入列",
        ctx_insert_col_r: "右侧插入列",
        ctx_del_col: "删除当前列",
        dialog_repeat_count: "次数:",
        dialog_repeat_until_end: "直到结束",
        dialog_seq_start: "开始值:",
        dialog_seq_end: "结束值:",
        dialog_seq_hold: "保持帧:",
        settings_title: "首选项",
        settings_csv: "CSV 导出设置",
        settings_general: "常规",
        settings_autosave: "修改时自动保存",
        settings_appearance: "外观",
        settings_language: "语言",
        settings_theme: "主题",
        curve_title: "曲线工具",
        curve_section_selection: "当前指向",
        curve_target_layer: "目标图层:",
        curve_frame_range: "帧范围:",
        curve_no_selection: "⚠ 无选区",
        curve_no_selection_tip: "请在表中选择单元格或范围。",
        curve_btn_linear: "线性",
        curve_btn_ease_in: "缓入",
        curve_btn_ease_out: "缓出",
        curve_btn_ease_in_out: "缓入缓出",
        curve_label_start: "起始号:",
        curve_label_duration: "持续帧:",
        curve_label_drawings: "张数:",
        curve_info_ratio: "平均: 每 {:.1} 帧 1 张",
        curve_btn_apply: "应用曲线",
        player_title: "预览器 (Preview Player)",
        player_play: "⏵ 播放",
        player_pause: "⏸ 暂停",
        player_stop: "⏹ 停止",
        player_loop: "循环",
        player_source: "源:",
        player_ref_video: "参考视频",
        player_bind_folder: "📂 绑定序列文件夹",
        player_timeline: "时间轴",
        player_bake: " 烘焙 ",
        theme_customize: "自定义主题颜色 (Customize Colors)",
        theme_base_mode: "基础模式:",
        theme_dark_mode: "深色 UI 底色 (Dark Mode)",
        theme_save_as: "另存为:",
        theme_save_btn: "保存主题 (JSON)",
        hover_export: "将摄影表导出为 CSV 格式",
        hover_clear: "清空当前表的所有数据",
        hover_bake: "将该层原画渲染为物理序列帧",
        msg_saved: "文档保存成功。",
        msg_cleared: "表单已清空。",
    }
}

/// The Japanese texts.
pub fn ja_jp() -> (t: Translation)
    ensures
        t.menu_file@ == "ファイル"@,
        t.menu_edit@ == "編集"@,
        t.menu_help@ == "ヘルプ"@,
        t.action_new@ == "新規作成"@,
        t.action_open@ == "開く..."@,
        t.action_save_as@ == "名前を付けて保存..."@,
        t.action_export@ == "CSVエクスポート..."@,
        t.action_close_all@ == "すべて閉じる"@,
        t.action_settings@ == "設定"@,
        t.action_about@ == "バージョン情報"@,
        t.dialog_unsaved_title@ == "未保存の変更"@,
        t.dialog_unsaved_body@ == "以下のドキュメントは保存されていません:"@,
        t.dialog_clear_title@ == "全データをクリア？"@,
        t.dialog_clear_body@ == "現在のシートの全データが消去されます。\nこの操作は取り消せます。"@,
        t.btn_clear_confirm@ == "はい、クリア"@,
        t.btn_create@ == "作成"@,
        t.btn_cancel@ == "キャンセル"@,
        t.btn_save@ == "保存"@,
        t.btn_save_all@ == "すべて保存"@,
        t.btn_discard_all@ == "変更を破棄"@,
        t.btn_dont_save@ == "保存しない"@,
        t.btn_ok@ == "OK"@,
        t.btn_clear_all@ == "クリア"@,
        t.btn_player_open@ == "プレビュー開始"@,
        t.btn_player_close@ == "プレビュー終了"@,
        t.btn_curve_tool@ == "カーブツール"@,
        t.label_name@ == "名前:"@,
        t.label_layers@ == "レイヤー数:"@,
        t.label_fps@ == "FPS:"@,
        t.label_f_per_page@ == "1Pのコマ数:"@,
        t.label_duration@ == "長さ:"@,
        t.label_total@ == "合計"@,
        t.label_pages@ == "ページ数"@,
        t.info_layer@ == "レイヤー"@,
        t.info_frame@ == "フレーム"@,
        t.info_page@ == "ページ"@,
        t.ctx_copy@ == "コピー"@,
        t.ctx_cut@ == "切り取り"@,
        t.ctx_paste@ == "貼り付け"@,
        t.ctx_undo@ == "元に戻す"@,
        t.ctx_repeat@ == "繰り返し..."@,
        t.ctx_reverse@ == "反転"@,
        t.ctx_smart_fill@ == "スマートフィル"@,
        t.ctx_sequence_fill@ == "連番フィル..."@,
        t.ctx_copy_ae@ == "AEデータをコピー"@,
        t.ctx_insert_col_l@ == "左に列を挿入"@,
        t.ctx_insert_col_r@ == "右に列を挿入"@,
        t.ctx_del_col@ == "列を削除"@,
        t.dialog_repeat_count@ == "回数:"@,
        t.dialog_repeat_until_end@ == "最後まで"@,
        t.dialog_seq_start@ == "開始値:"@,
        t.dialog_seq_end@ == "終了値:"@,
        t.dialog_seq_hold@ == "コマ打ち:"@,
        t.settings_title@ == "設定"@,
        t.settings_csv@ == "CSVエクスポート"@,
        t.settings_general@ == "一般"@,
        t.settings_autosave@ == "変更時に自動保存"@,
        t.settings_appearance@ == "外観"@,
        t.settings_language@ == "言語"@,
        t.settings_theme@ == "テーマ"@,
        t.curve_title@ == "カーブエディタ"@,
        t.curve_section_selection@ == "現在の選択"@,
        t.curve_target_layer@ == "対象レイヤー:"@,
        t.curve_frame_range@ == "フレーム範囲:"@,
        t.curve_no_selection@ == "⚠ 選択なし"@,
        t.curve_no_selection_tip@ == "セルまたは範囲を選択してください。"@,
        t.curve_btn_linear@ == "リニア"@,
        t.curve_btn_ease_in@ == "イーズイン"@,
        t.curve_btn_ease_out@ == "イーズアウト"@,
        t.curve_btn_ease_in_out@ == "イーズイン/アウト"@,
        t.curve_label_start@ == "開始番号:"@,
        t.curve_label_duration@ == "長さ:"@,
        t.curve_label_drawings@ == "枚数:"@,
        t.curve_info_ratio@ == "平均: {:.1} フレームに1枚"@,
        t.curve_btn_apply@ == "適用"@,
        t.player_title@ == "プレビューア (Preview Player)"@,
        t.player_play@ == "⏵ 再生"@,
        t.player_pause@ == "⏸ 一時停止"@,
        t.player_stop@ == "⏹ 停止"@,
        t.player_loop@ == "ループ"@,
        t.player_source@ == "ソース:"@,
        t.player_ref_video@ == "参考動画"@,
        t.player_bind_folder@ == "📂 フォルダをリンク"@,
        t.player_timeline@ == "タイムライン"@,
        t.player_bake@ == "ベイク"@,
        t.theme_customize@ == "テーマカラーのカスタマイズ"@,
        t.theme_base_mode@ == "ベースモード:"@,
        t.theme_dark_mode@ == "ダークモード UI"@,
        t.theme_save_as@ == "名前を付けて保存:"@,
        t.theme_save_btn@ == "保存する (JSON)"@,
        t.hover_export@ == "タイムシートをCSV形式でエクスポート"@,
        t.hover_clear@ == "このシートのすべてのセルをクリア"@,
        t.hover_bake@ == "このレイヤーを連番画像としてベイク"@,
        t.msg_saved@ == "ドキュメントを保存しました。"@,
        t.msg_cleared@ == "シートをクリアしました。"@,
{
    Translation {
        menu_file: "ファイル",
        menu_edit: "編集",
        menu_help: "ヘルプ",
        action_new: "新規作成",
        action_open: "開く...",
        action_save_as: "名前を付けて保存...",
        action_export: "CSVエクスポート...",
        action_close_all: "すべて閉じる",
        action_settings: "設定",
        action_about: "バージョン情報",
        dialog_unsaved_title: "未保存の変更",
        dialog_unsaved_body: "以下のドキュメントは保存されていません:",
        dialog_clear_title: "全データをクリア？",
        dialog_clear_body: "現在のシートの全データが消去されます。\nこの操作は取り消せます。",
        btn_clear_confirm: "はい、クリア",
        btn_create: "作成",
        btn_cancel: "キャンセル",
        btn_save: "保存",
        btn_save_all: "すべて保存",
        btn_discard_all: "変更を破棄",
        btn_dont_save: "保存しない",
        btn_ok: "OK",
        btn_clear_all: "クリア",
        btn_player_open: "プレビュー開始",
        btn_player_close: "プレビュー終了",
        btn_curve_tool: "カーブツール",
        label_name: "名前:",
        label_layers: "レイヤー数:",
        label_fps: "FPS:",
        label_f_per_page: "1Pのコマ数:",
        label_duration: "長さ:",
        label_total: "合計",
        label_pages: "ページ数",
        info_layer: "レイヤー",
        info_frame: "フレーム",
        info_page: "ページ",
        ctx_copy: "コピー",
        ctx_cut: "切り取り",
        ctx_paste: "貼り付け",
        ctx_undo: "元に戻す",
        ctx_repeat: "繰り返し...",
        ctx_reverse: "反転",
        ctx_smart_fill: "スマートフィル",
        ctx_sequence_fill: "連番フィル...",
        ctx_copy_ae: "AEデータをコピー",
        ctx_insert_col_l: "左に列を挿入",
        ctx_insert_col_r: "右に列を挿入",
        ctx_del_col: "列を削除",
        dialog_repeat_count: "回数:",
        dialog_repeat_until_end: "最後まで",
        dialog_seq_start: "開始値:",
        dialog_seq_end: "終了値:",
        dialog_seq_hold: "コマ打ち:",
        settings_title: "設定",
        settings_csv: "CSVエクスポート",
        settings_general: "一般",
        settings_autosave: "変更時に自動保存",
        settings_appearance: "外観",
        settings_language: "言語",
        settings_theme: "テーマ",
        curve_title: "カーブエディタ",
        curve_section_selection: "現在の選択",
        curve_target_layer: "対象レイヤー:",
        curve_frame_range: "フレーム範囲:",
        curve_no_selection: "⚠ 選択なし",
        curve_no_selection_tip: "セルまたは範囲を選択してください。",
        curve_btn_linear: "リニア",
        curve_btn_ease_in: "イーズイン",
        curve_btn_ease_out: "イーズアウト",
        curve_btn_ease_in_out: "イーズイン/アウト",
        curve_label_start: "開始番号:",
        curve_label_duration: "長さ:",
        curve_label_drawings: "枚数:",
        curve_info_ratio: "平均: {:.1} フレームに1枚",
        curve_btn_apply: "適用",
        player_title: "プレビューア (Preview Player)",
        player_play: "⏵ 再生",
        player_pause: "⏸ 一時停止",
        player_stop: "⏹ 停止",
        player_loop: "ループ",
        player_source: "ソース:",
        player_ref_video: "参考動画",
        player_bind_folder: "📂 フォルダをリンク",
        player_timeline: "タイムライン",
        player_bake: "ベイク",
        theme_customize: "テーマカラーのカスタマイズ",
        theme_base_mode: "ベースモード:",
        theme_dark_mode: "ダークモード UI",
        theme_save_as: "名前を付けて保存:",
        theme_save_btn: "保存する (JSON)",
        hover_export: "タイムシートをCSV形式でエクスポート",
        hover_clear: "このシートのすべてのセルをクリア",
        hover_bake: "このレイヤーを連番画像としてベイク",
        msg_saved: "ドキュメントを保存しました。",
        msg_cleared: "シートをクリアしました。",
    }
}

/// The texts of a language.
pub fn translation(lang: Language) -> (t: Translation)
    ensures
        t.menu_file@ == (match lang { Language::En => "File"@, Language::Zh => "文件"@, Language::Ja => "ファイル"@ }),
        t.menu_edit@ == (match lang { Language::En => "Edit"@, Language::Zh => "编辑"@, Language::Ja => "編集"@ }),
        t.menu_help@ == (match lang { Language::En => "Help"@, Language::Zh => "帮助"@, Language::Ja => "ヘルプ"@ }),
        t.action_new@ == (match lang { Language::En => "New Document"@, Language::Zh => "新建文档"@, Language::Ja => "新規作成"@ }),
        t.action_open@ == (match lang { Language::En => "Open..."@, Language::Zh => "打开..."@, Language::Ja => "開く..."@ }),
        t.action_save_as@ == (match lang { Language::En => "Save As..."@, Language::Zh => "另存为..."@, Language::Ja => "名前を付けて保存..."@ }),
        t.action_export@ == (match lang { Language::En => "Export CSV..."@, Language::Zh => "导出 CSV..."@, Language::Ja => "CSVエクスポート..."@ }),
        t.action_close_all@ == (match lang { Language::En => "Close All"@, Language::Zh => "关闭所有"@, Language::Ja => "すべて閉じる"@ }),
        t.action_settings@ == (match lang { Language::En => "Settings"@, Language::Zh => "设置"@, Language::Ja => "設定"@ }),
        t.action_about@ == (match lang { Language::En => "About"@, Language::Zh => "关于"@, Language::Ja => "バージョン情報"@ }),
        t.dialog_unsaved_title@ == (match lang { Language::En => "Unsaved Changes"@, Language::Zh => "未保存的更改"@, Language::Ja => "未保存の変更"@ }),
        t.dialog_unsaved_body@ == (match lang { Language::En => "The following documents have unsaved changes:"@, Language::Zh => "以下文档有未保存的更改:"@, Language::Ja => "以下のドキュメントは保存されていません:"@ }),
        t.dialog_clear_title@ == (match lang { Language::En => "Clear All Data?"@, Language::Zh => "清空所有数据？"@, Language::Ja => "全データをクリア？"@ }),
        t.dialog_clear_body@ == (match lang { Language::En => "This will erase ALL data in the current sheet.\nThis action can be undone."@, Language::Zh => "这将清除当前表单的所有数据。\n此操作可以撤销。"@, Language::Ja => "現在のシートの全データが消去されます。\nこの操作は取り消せます。"@ }),
        t.btn_clear_confirm@ == (match lang { Language::En => "Yes, Clear All"@, Language::Zh => "确认清空"@, Language::Ja => "はい、クリア"@ }),
        t.btn_create@ == (match lang { Language::En => "Create"@, Language::Zh => "创建"@, Language::Ja => "作成"@ }),
        t.btn_cancel@ == (match lang { Language::En => "Cancel"@, Language::Zh => "取消"@, Language::Ja => "キャンセル"@ }),
        t.btn_save@ == (match lang { Language::En => "Save"@, Language::Zh => "保存"@, Language::Ja => "保存"@ }),
        t.btn_save_all@ == (match lang { Language::En => "Save All"@, Language::Zh => "保存所有"@, Language::Ja => "すべて保存"@ }),
        t.btn_discard_all@ == (match lang { Language::En => "Discard All"@, Language::Zh => "放弃更改"@, Language::Ja => "変更を破棄"@ }),
        t.btn_dont_save@ == (match lang { Language::En => "Don't Save"@, Language::Zh => "不保存"@, Language::Ja => "保存しない"@ }),
        t.btn_ok@ == (match lang { Language::En => "OK"@, Language::Zh => "确定"@, Language::Ja => "OK"@ }),
        t.btn_clear_all@ == (match lang { Language::En => "Clear All"@, Language::Zh => "清空"@, Language::Ja => "クリア"@ }),
        t.btn_player_open@ == (match lang { Language::En => "Open Preview"@, Language::Zh => "开启预览"@, Language::Ja => "プレビュー開始"@ }),
        t.btn_player_close@ == (match lang { Language::En => "Close Preview"@, Language::Zh => "关闭预览"@, Language::Ja => "プレビュー終了"@ }),
        t.btn_curve_tool@ == (match lang { Language::En => "Curve Tool"@, Language::Zh => "曲线工具"@, Language::Ja => "カーブツール"@ }),
        t.label_name@ == (match lang { Language::En => "Name:"@, Language::Zh => "名称:"@, Language::Ja => "名前:"@ }),
        t.label_layers@ == (match lang { Language::En => "Layers:"@, Language::Zh => "层数:"@, Language::Ja => "レイヤー数:"@ }),
        t.label_fps@ == (match lang { Language::En => "FPS:"@, Language::Zh => "帧率:"@, Language::Ja => "FPS:"@ }),
        t.label_f_per_page@ == (match lang { Language::En => "F/Page:"@, Language::Zh => "一页帧数:"@, Language::Ja => "1Pのコマ数:"@ }),
        t.label_duration@ == (match lang { Language::En => "Duration:"@, Language::Zh => "时长:"@, Language::Ja => "長さ:"@ }),
        t.label_total@ == (match lang { Language::En => "Total"@, Language::Zh => "总计"@, Language::Ja => "合計"@ }),
        t.label_pages@ == (match lang { Language::En => "Pages"@, Language::Zh => "页数"@, Language::Ja => "ページ数"@ }),
        t.info_layer@ == (match lang { Language::En => "Layer"@, Language::Zh => "层"@, Language::Ja => "レイヤー"@ }),
        t.info_frame@ == (match lang { Language::En => "Frame"@, Language::Zh => "帧"@, Language::Ja => "フレーム"@ }),
        t.info_page@ == (match lang { Language::En => "Page"@, Language::Zh => "页"@, Language::Ja => "ページ"@ }),
        t.ctx_copy@ == (match lang { Language::En => "Copy"@, Language::Zh => "复制"@, Language::Ja => "コピー"@ }),
        t.ctx_cut@ == (match lang { Language::En => "Cut"@, Language::Zh => "剪切"@, Language::Ja => "切り取り"@ }),
        t.ctx_paste@ == (match lang { Language::En => "Paste"@, Language::Zh => "粘贴"@, Language::Ja => "貼り付け"@ }),
        t.ctx_undo@ == (match lang { Language::En => "Undo"@, Language::Zh => "撤销"@, Language::Ja => "元に戻す"@ }),
        t.ctx_repeat@ == (match lang { Language::En => "Repeat..."@, Language::Zh => "重复..."@, Language::Ja => "繰り返し..."@ }),
        t.ctx_reverse@ == (match lang { Language::En => "Reverse"@, Language::Zh => "倒序"@, Language::Ja => "反転"@ }),
        t.ctx_smart_fill@ == (match lang { Language::En => "Smart Fill"@, Language::Zh => "智能填充"@, Language::Ja => "スマートフィル"@ }),
        t.ctx_sequence_fill@ == (match lang { Language::En => "Sequence Fill..."@, Language::Zh => "序列填充..."@, Language::Ja => "連番フィル..."@ }),
        t.ctx_copy_ae@ == (match lang { Language::En => "Copy AE Data"@, Language::Zh => "复制 AE 数据"@, Language::Ja => "AEデータをコピー"@ }),
        t.ctx_insert_col_l@ == (match lang { Language::En => "Insert Col Left"@, Language::Zh => "左侧插入列"@, Language::Ja => "左に列を挿入"@ }),
        t.ctx_insert_col_r@ == (match lang { Language::En => "Insert Col Right"@, Language::Zh => "右侧插入列"@, Language::Ja => "右に列を挿入"@ }),
        t.ctx_del_col@ == (match lang { Language::En => "Delete Column"@, Language::Zh => "删除当前列"@, Language::Ja => "列を削除"@ }),
        t.dialog_repeat_count@ == (match lang { Language::En => "Count:"@, Language::Zh => "次数:"@, Language::Ja => "回数:"@ }),
        t.dialog_repeat_until_end@ == (match lang { Language::En => "Until End"@, Language::Zh => "直到结束"@, Language::Ja => "最後まで"@ }),
        t.dialog_seq_start@ == (match lang { Language::En => "Start:"@, Language::Zh => "开始值:"@, Language::Ja => "開始値:"@ }),
        t.dialog_seq_end@ == (match lang { Language::En => "End:"@, Language::Zh => "结束值:"@, Language::Ja => "終了値:"@ }),
        t.dialog_seq_hold@ == (match lang { Language::En => "Hold:"@, Language::Zh => "保持帧:"@, Language::Ja => "コマ打ち:"@ }),
        t.settings_title@ == (match lang { Language::En => "Preferences"@, Language::Zh => "首选项"@, Language::Ja => "設定"@ }),
        t.settings_csv@ == (match lang { Language::En => "CSV Export"@, Language::Zh => "CSV 导出设置"@, Language::Ja => "CSVエクスポート"@ }),
        t.settings_general@ == (match lang { Language::En => "General"@, Language::Zh => "常规"@, Language::Ja => "一般"@ }),
        t.settings_autosave@ == (match lang { Language::En => "Auto-save on modify"@, Language::Zh => "修改时自动保存"@, Language::Ja => "変更時に自動保存"@ }),
        t.settings_appearance@ == (match lang { Language::En => "Appearance"@, Language::Zh => "外观"@, Language::Ja => "外観"@ }),
        t.settings_language@ == (match lang { Language::En => "Language"@, Language::Zh => "语言"@, Language::Ja => "言語"@ }),
        t.settings_theme@ == (match lang { Language::En => "Theme"@, Language::Zh => "主题"@, Language::Ja => "テーマ"@ }),
        t.curve_title@ == (match lang { Language::En => "Curve Editor"@, Language::Zh => "曲线工具"@, Language::Ja => "カーブエディタ"@ }),
        t.curve_section_selection@ == (match lang { Language::En => "Active Selection"@, Language::Zh => "当前指向"@, Language::Ja => "現在の選択"@ }),
        t.curve_target_layer@ == (match lang { Language::En => "Target Layer:"@, Language::Zh => "目标图层:"@, Language::Ja => "対象レイヤー:"@ }),
        t.curve_frame_range@ == (match lang { Language::En => "Frame Range:"@, Language::Zh => "帧范围:"@, Language::Ja => "フレーム範囲:"@ }),
        t.curve_no_selection@ == (match lang { Language::En => "⚠ No Selection"@, Language::Zh => "⚠ 无选区"@, Language::Ja => "⚠ 選択なし"@ }),
        t.curve_no_selection_tip@ == (match lang { Language::En => "Please select a cell or range."@, Language::Zh => "请在表中选择单元格或范围。"@, Language::Ja => "セルまたは範囲を選択してください。"@ }),
        t.curve_btn_linear@ == (match lang { Language::En => "Linear"@, Language::Zh => "线性"@, Language::Ja => "リニア"@ }),
        t.curve_btn_ease_in@ == (match lang { Language::En => "Ease In"@, Language::Zh => "缓入"@, Language::Ja => "イーズイン"@ }),
        t.curve_btn_ease_out@ == (match lang { Language::En => "Ease Out"@, Language::Zh => "缓出"@, Language::Ja => "イーズアウト"@ }),
        t.curve_btn_ease_in_out@ == (match lang { Language::En => "Ease InOut"@, Language::Zh => "缓入缓出"@, Language::Ja => "イーズイン/アウト"@ }),
        t.curve_label_start@ == (match lang { Language::En => "Start No.:"@, Language::Zh => "起始号:"@, Language::Ja => "開始番号:"@ }),
        t.curve_label_duration@ == (match lang { Language::En => "Duration:"@, Language::Zh => "持续帧:"@, Language::Ja => "長さ:"@ }),
        t.curve_label_drawings@ == (match lang { Language::En => "Drawings:"@, Language::Zh => "张数:"@, Language::Ja => "枚数:"@ }),
        t.curve_info_ratio@ == (match lang { Language::En => "Avg: 1 drawing per {:.1} frames"@, Language::Zh => "平均: 每 {:.1} 帧 1 张"@, Language::Ja => "平均: {:.1} フレームに1枚"@ }),
        t.curve_btn_apply@ == (match lang { Language::En => "Apply Curve"@, Language::Zh => "应用曲线"@, Language::Ja => "適用"@ }),
        t.player_title@ == (match lang { Language::En => "Preview Player"@, Language::Zh => "预览器 (Preview Player)"@, Language::Ja => "プレビューア (Preview Player)"@ }),
        t.player_play@ == (match lang { Language::En => "⏵ Play"@, Language::Zh => "⏵ 播放"@, Language::Ja => "⏵ 再生"@ }),
        t.player_pause@ == (match lang { Language::En => "⏸ Pause"@, Language::Zh => "⏸ 暂停"@, Language::Ja => "⏸ 一時停止"@ }),
        t.player_stop@ == (match lang { Language::En => "⏹ Stop"@, Language::Zh => "⏹ 停止"@, Language::Ja => "⏹ 停止"@ }),
        t.player_loop@ == (match lang { Language::En => "Loop"@, Language::Zh => "循环"@, Language::Ja => "ループ"@ }),
        t.player_source@ == (match lang { Language::En => "Source:"@, Language::Zh => "源:"@, Language::Ja => "ソース:"@ }),
        t.player_ref_video@ == (match lang { Language::En => "Ref Video"@, Language::Zh => "参考视频"@, Language::Ja => "参考動画"@ }),
        t.player_bind_folder@ == (match lang { Language::En => "📂 Bind Folder"@, Language::Zh => "📂 绑定序列文件夹"@, Language::Ja => "📂 フォルダをリンク"@ }),
        t.player_timeline@ == (match lang { Language::En => "Timeline"@, Language::Zh => "时间轴"@, Language::Ja => "タイムライン"@ }),
        t.player_bake@ == (match lang { Language::En => "Bake"@, Language::Zh => " 烘焙 "@, Language::Ja => "ベイク"@ }),
        t.theme_customize@ == (match lang { Language::En => "Customize Theme Colors"@, Language::Zh => "自定义主题颜色 (Customize Colors)"@, Language::Ja => "テーマカラーのカスタマイズ"@ }),
        t.theme_base_mode@ == (match lang { Language::En => "Base Mode:"@, Language::Zh => "基础模式:"@, Language::Ja => "ベースモード:"@ }),
        t.theme_dark_mode@ == (match lang { Language::En => "Dark UI Base"@, Language::Zh => "深色 UI 底色 (Dark Mode)"@, Language::Ja => "ダークモード UI"@ }),
        t.theme_save_as@ == (match lang { Language::En => "Save As:"@, Language::Zh => "另存为:"@, Language::Ja => "名前を付けて保存:"@ }),
        t.theme_save_btn@ == (match lang { Language::En => "Save JSON"@, Language::Zh => "保存主题 (JSON)"@, Language::Ja => "保存する (JSON)"@ }),
        t.hover_export@ == (match lang { Language::En => "Export Timesheet to CSV format"@, Language::Zh => "将摄影表导出为 CSV 格式"@, Language::Ja => "タイムシートをCSV形式でエクスポート"@ }),
        t.hover_clear@ == (match lang { Language::En => "Clear all cells in this sheet"@, Language::Zh => "清空当前表的所有数据"@, Language::Ja => "このシートのすべてのセルをクリア"@ }),
        t.hover_bake@ == (match lang { Language::En => "Bake this layer to a sequence folder"@, Language::Zh => "将该层原画渲染为物理序列帧"@, Language::Ja => "このレイヤーを連番画像としてベイク"@ }),
        t.msg_saved@ == (match lang { Language::En => "Document saved successfully."@, Language::Zh => "文档保存成功。"@, Language::Ja => "ドキュメントを保存しました。"@ }),
        t.msg_cleared@ == (match lang { Language::En => "Sheet cleared."@, Language::Zh => "表单已清空。"@, Language::Ja => "シートをクリアしました。"@ }),
{
    match lang {
        Language::En => en_us(),
        Language::Zh => zh_cn(),
        Language::Ja => ja_jp(),
    }
}

} // verus!
