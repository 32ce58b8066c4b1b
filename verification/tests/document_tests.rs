use sts_rust::document::{generate_smart_sequence, Document, EditInput, GridKey, LayerType, SmartFillPlan, UndoAction, MAX_UNDO_ACTIONS};
use sts_rust::timesheet::{CellValue, TimeSheet};

fn n(v: u32) -> Option<CellValue> {
    Some(CellValue::Number(v))
}

fn sheet(layers: usize, frames: usize) -> TimeSheet {
    let mut ts = TimeSheet::new("doc".to_string(), 24, layers, 144);
    ts.ensure_frames(frames);
    ts
}

fn doc_with(layers: usize, frames: usize) -> Document {
    Document::new(1, sheet(layers, frames), None)
}

fn column(doc: &Document, l: usize, frames: usize) -> Vec<Option<CellValue>> {
    (0..frames).map(|f| doc.timesheet.get_cell(l, f).copied()).collect()
}

fn select(doc: &mut Document, a: (usize, usize), b: (usize, usize)) {
    doc.selection_state.selection_start = Some(a);
    doc.selection_state.selection_end = Some(b);
}

#[test]
fn smart_sequence_continues_an_arithmetic_run() {
    assert_eq!(generate_smart_sequence(&vec![1, 2, 3], 3), vec![n(4), n(5), n(6)]);
    assert_eq!(generate_smart_sequence(&vec![10, 8], 2), vec![n(6), n(4)]);
}

#[test]
fn smart_sequence_clamps_at_zero() {
    assert_eq!(generate_smart_sequence(&vec![5, 3], 4), vec![n(1), n(0), n(0), n(0)]);
}

#[test]
fn smart_sequence_continues_held_runs() {
    assert_eq!(generate_smart_sequence(&vec![1, 1, 2, 2], 5), vec![n(3), n(3), n(4), n(4), n(5)]);
    assert_eq!(generate_smart_sequence(&vec![1, 1, 2], 3), vec![n(2), n(3), n(3)]);
}

#[test]
fn smart_sequence_repeats_other_patterns() {
    assert_eq!(generate_smart_sequence(&vec![1, 3, 2], 4), vec![n(1), n(3), n(2), n(1)]);
}

#[test]
fn smart_sequence_small_inputs() {
    assert_eq!(generate_smart_sequence(&vec![], 2), vec![None, None]);
    assert_eq!(generate_smart_sequence(&vec![7], 3), vec![n(7), n(7), n(7)]);
    assert_eq!(generate_smart_sequence(&vec![1, 2], 0), vec![]);
}

#[test]
fn new_document_defaults() {
    let doc = doc_with(2, 2);
    assert!(!doc.is_modified);
    assert!(doc.is_open);
    assert_eq!(doc.selection_state.selected_cell, Some((0, 0)));
    assert_eq!(doc.jump_step, 1);
    assert!(doc.undo_stack.is_empty());
    assert_eq!(doc.title(), "doc");
}

#[test]
fn title_shows_path_and_modified_mark() {
    let mut doc = Document::new(1, sheet(1, 1), Some("/tmp/a.sts".to_string()));
    doc.is_modified = true;
    assert_eq!(doc.title(), "doc - /tmp/a.sts*");
}

#[test]
fn pan_layers_show_letters() {
    let mut doc = doc_with(2, 3);
    doc.layer_types.insert(1, LayerType::Pan);
    assert_eq!(doc.format_cell_value(1, 1), "A");
    assert_eq!(doc.format_cell_value(1, 26), "Z");
    assert_eq!(doc.format_cell_value(1, 27), "27");
    assert_eq!(doc.format_cell_value(0, 3), "3");
    doc.timesheet.set_cell(1, 0, n(2));
    doc.timesheet.set_cell(1, 1, Some(CellValue::Same));
    assert_eq!(doc.get_cell_display_string(1, 0), "B");
    assert_eq!(doc.get_cell_display_string(1, 1), "-");
    assert_eq!(doc.get_cell_display_string(1, 2), "");
}

#[test]
fn cell_input_reading() {
    assert_eq!(Document::parse_cell_input("  12 ", LayerType::Cel), Some(12));
    assert_eq!(Document::parse_cell_input("c", LayerType::Pan), Some(3));
    assert_eq!(Document::parse_cell_input("C", LayerType::Cel), None);
    assert_eq!(Document::parse_cell_input("", LayerType::Cel), None);
    assert_eq!(Document::parse_cell_input("+4", LayerType::Cel), Some(4));
    assert_eq!(Document::parse_cell_input("4294967296", LayerType::Cel), None);
}

#[test]
fn clipboard_text_reading() {
    let rows = Document::parse_clipboard_text("1\t-\t\r\na\t%\n").unwrap();
    assert_eq!(rows, vec![vec![n(1), Some(CellValue::Same), None], vec![n(1), None]]);
    assert_eq!(Document::parse_clipboard_text(""), None);
}

#[test]
fn delete_selection_then_undo_restores_cells() {
    let mut doc = doc_with(2, 3);
    doc.timesheet.set_cell(0, 0, n(1));
    doc.timesheet.set_cell(1, 2, n(5));
    select(&mut doc, (1, 2), (0, 0));
    let before0 = column(&doc, 0, 3);
    let before1 = column(&doc, 1, 3);
    doc.delete_selection();
    assert_eq!(column(&doc, 0, 3), vec![None, None, None]);
    assert_eq!(column(&doc, 1, 3), vec![None, None, None]);
    assert!(doc.is_modified);
    assert_eq!(doc.undo_stack.len(), 1);
    doc.undo();
    assert_eq!(column(&doc, 0, 3), before0);
    assert_eq!(column(&doc, 1, 3), before1);
    assert!(doc.undo_stack.is_empty());
}

#[test]
fn delete_current_cell_records_single_change() {
    let mut doc = doc_with(1, 2);
    doc.timesheet.set_cell(0, 0, n(4));
    doc.delete_selection();
    assert_eq!(doc.timesheet.get_cell(0, 0), None);
    match doc.undo_stack.back() {
        Some(UndoAction::SetCell { layer, frame, old_value }) => {
            assert_eq!((*layer, *frame, *old_value), (0, 0, n(4)));
        }
        _ => panic!("expected a single-cell undo entry"),
    }
    doc.undo();
    assert_eq!(doc.timesheet.get_cell(0, 0), Some(&CellValue::Number(4)));
}

#[test]
fn single_cell_undo_history_is_capped() {
    let mut doc = doc_with(1, 1);
    for i in 0..(MAX_UNDO_ACTIONS + 5) {
        doc.push_undo_set_cell(0, i, None);
    }
    assert_eq!(doc.undo_stack.len(), MAX_UNDO_ACTIONS);
    match doc.undo_stack.front() {
        Some(UndoAction::SetCell { frame, .. }) => assert_eq!(*frame, 5),
        _ => panic!("expected a single-cell undo entry"),
    }
}

#[test]
fn clear_all_cells_then_undo() {
    let mut doc = doc_with(2, 2);
    doc.timesheet.set_cell(0, 1, n(3));
    doc.timesheet.set_cell(1, 0, Some(CellValue::Same));
    doc.clear_all_cells();
    assert_eq!(column(&doc, 0, 2), vec![None, None]);
    assert_eq!(column(&doc, 1, 2), vec![None, None]);
    doc.undo();
    assert_eq!(column(&doc, 0, 2), vec![None, n(3)]);
    assert_eq!(column(&doc, 1, 2), vec![Some(CellValue::Same), None]);
}

#[test]
fn copy_then_paste_writes_the_copied_block() {
    let mut doc = doc_with(3, 4);
    doc.layer_types.insert(1, LayerType::Pan);
    doc.timesheet.set_cell(0, 0, n(1));
    doc.timesheet.set_cell(0, 1, Some(CellValue::Same));
    doc.timesheet.set_cell(1, 0, n(2));
    select(&mut doc, (0, 0), (1, 1));
    let text = doc.copy_selection();
    assert_eq!(text, Some("1\t-\nB\t".to_string()));
    doc.selection_state.selected_cell = Some((1, 2));
    doc.paste_clipboard();
    assert_eq!(doc.timesheet.get_cell(1, 2), Some(&CellValue::Number(1)));
    assert_eq!(doc.timesheet.get_cell(1, 3), Some(&CellValue::Same));
    assert_eq!(doc.timesheet.get_cell(2, 2), Some(&CellValue::Number(2)));
    assert_eq!(doc.timesheet.get_cell(2, 3), None);
    doc.undo();
    assert_eq!(column(&doc, 1, 4), vec![n(2), None, None, None]);
    assert_eq!(column(&doc, 2, 4), vec![None, None, None, None]);
}

#[test]
fn cut_copies_and_empties() {
    let mut doc = doc_with(1, 2);
    doc.timesheet.set_cell(0, 0, n(8));
    select(&mut doc, (0, 0), (0, 1));
    assert_eq!(doc.cut_selection(), Some("8\t".to_string()));
    assert_eq!(column(&doc, 0, 2), vec![None, None]);
}

#[test]
fn paste_from_text_writes_at_current_cell() {
    let mut doc = doc_with(2, 3);
    doc.selection_state.selected_cell = Some((0, 1));
    assert!(doc.paste_from_text("4\t5\n6"));
    assert_eq!(column(&doc, 0, 3), vec![None, n(4), n(5)]);
    assert_eq!(column(&doc, 1, 3), vec![None, n(6), None]);
    assert!(!doc.paste_from_text(""));
}

#[test]
fn insert_layer_moves_layer_settings_and_undo_restores_them() {
    let mut doc = doc_with(2, 2);
    doc.layer_types.insert(1, LayerType::Pan);
    doc.layer_folders.insert(0, "f0".to_string());
    doc.selection_state.selected_cell = Some((1, 1));
    doc.insert_layer(1);
    assert_eq!(doc.timesheet.layer_count, 3);
    assert_eq!(doc.layer_types.get(&2), Some(&LayerType::Pan));
    assert_eq!(doc.layer_types.get(&1), None);
    assert_eq!(doc.layer_folders.get(&0), Some(&"f0".to_string()));
    assert_eq!(doc.selection_state.selected_cell, Some((2, 1)));
    doc.undo();
    assert_eq!(doc.timesheet.layer_count, 2);
    assert_eq!(doc.layer_types.get(&1), Some(&LayerType::Pan));
    assert_eq!(doc.layer_types.len(), 1);
}

#[test]
fn delete_layer_then_undo_restores_it() {
    let mut doc = doc_with(3, 2);
    doc.timesheet.set_cell(1, 1, n(6));
    doc.timesheet.layer_names[1] = "mid".to_string();
    doc.layer_types.insert(1, LayerType::Opacity);
    doc.layer_types.insert(2, LayerType::Pan);
    doc.selection_state.selected_cell = Some((2, 0));
    doc.delete_layer(1);
    assert_eq!(doc.timesheet.layer_count, 2);
    assert_eq!(doc.layer_types.get(&1), Some(&LayerType::Pan));
    assert_eq!(doc.selection_state.selected_cell, None);
    doc.undo();
    assert_eq!(doc.timesheet.layer_count, 3);
    assert_eq!(doc.timesheet.layer_names[1], "mid");
    assert_eq!(doc.timesheet.get_cell(1, 1), Some(&CellValue::Number(6)));
    assert_eq!(doc.layer_types.get(&1), Some(&LayerType::Opacity));
    assert_eq!(doc.layer_types.get(&2), Some(&LayerType::Pan));
}

#[test]
fn repeat_selection_cycles_the_run() {
    let mut doc = doc_with(1, 8);
    doc.timesheet.set_cell(0, 0, n(1));
    doc.timesheet.set_cell(0, 1, n(2));
    select(&mut doc, (0, 0), (0, 1));
    assert_eq!(doc.repeat_selection(2, false), Ok(()));
    assert_eq!(column(&doc, 0, 8), vec![n(1), n(2), n(1), n(2), n(1), n(2), None, None]);
    assert_eq!(doc.repeat_selection(1, true), Ok(()));
    assert_eq!(column(&doc, 0, 8), vec![n(1), n(2), n(1), n(2), n(1), n(2), n(1), n(2)]);
}

#[test]
fn repeat_selection_errors() {
    let mut doc = doc_with(2, 2);
    assert_eq!(doc.repeat_selection(1, false), Err("No sel"));
    select(&mut doc, (0, 0), (1, 0));
    assert_eq!(doc.repeat_selection(1, false), Err("Single col only"));
    select(&mut doc, (0, 0), (0, 1));
    assert_eq!(doc.repeat_selection(1, false), Err("No frames"));
}

#[test]
fn sequence_fill_counts_up_and_down() {
    let mut doc = doc_with(1, 10);
    assert_eq!(doc.sequence_fill(0, 0, 1, 3, 2), Ok(()));
    assert_eq!(column(&doc, 0, 7), vec![n(1), n(1), n(2), n(2), n(3), n(3), None]);
    assert_eq!(doc.sequence_fill(0, 7, 5, 4, 1), Ok(()));
    assert_eq!(column(&doc, 0, 10), vec![n(1), n(1), n(2), n(2), n(3), n(3), None, n(5), n(4), None]);
    assert_eq!(doc.sequence_fill(0, 9, 1, 10, 1), Ok(()));
    assert_eq!(doc.timesheet.get_cell(0, 9), Some(&CellValue::Number(1)));
    assert_eq!(doc.sequence_fill(0, 10, 1, 2, 1), Err("No frames"));
    assert_eq!(doc.sequence_fill(0, 0, 1, 2, 0), Err("No frames"));
}

#[test]
fn reverse_selection_mirrors_into_the_gap() {
    let mut doc = doc_with(1, 6);
    doc.timesheet.set_cell(0, 0, n(1));
    doc.timesheet.set_cell(0, 1, n(2));
    doc.timesheet.set_cell(0, 2, n(3));
    select(&mut doc, (0, 0), (0, 5));
    assert_eq!(doc.reverse_selection(), Ok(()));
    assert_eq!(column(&doc, 0, 6), vec![n(1), n(2), n(3), n(3), n(2), n(1)]);
}

#[test]
fn reverse_selection_in_place_and_from_above() {
    let mut doc = doc_with(1, 5);
    doc.timesheet.set_cell(0, 0, n(1));
    doc.timesheet.set_cell(0, 1, n(2));
    select(&mut doc, (0, 0), (0, 1));
    assert_eq!(doc.reverse_selection(), Ok(()));
    assert_eq!(column(&doc, 0, 2), vec![n(2), n(1)]);
    select(&mut doc, (0, 2), (0, 4));
    assert_eq!(doc.reverse_selection(), Ok(()));
    assert_eq!(column(&doc, 0, 5), vec![n(2), n(1), n(1), n(2), None]);
    let mut empty = doc_with(1, 2);
    select(&mut empty, (0, 0), (0, 1));
    assert_eq!(empty.reverse_selection(), Err("Nothing above to mirror"));
}

#[test]
fn smart_fill_plans() {
    let mut doc = doc_with(1, 6);
    doc.timesheet.set_cell(0, 0, n(1));
    doc.timesheet.set_cell(0, 4, n(5));
    select(&mut doc, (0, 0), (0, 4));
    match doc.plan_smart_fill() {
        Ok(SmartFillPlan::Tween { layer, start_frame, end_frame, keyframes }) => {
            assert_eq!((layer, start_frame, end_frame), (0, 0, 4));
            assert_eq!(keyframes, vec![(0, 1), (4, 5)]);
        }
        _ => panic!("expected a tween"),
    }
    select(&mut doc, (0, 0), (0, 5));
    match doc.plan_smart_fill() {
        Ok(SmartFillPlan::Pattern { layer, start_frame, end_frame }) => assert_eq!((layer, start_frame, end_frame), (0, 0, 5)),
        _ => panic!("expected a pattern fill"),
    }
}

#[test]
fn tween_writes_values_and_holds() {
    let mut doc = doc_with(1, 5);
    doc.timesheet.set_cell(0, 0, n(1));
    doc.timesheet.set_cell(0, 4, n(3));
    doc.timesheet.set_cell(0, 2, n(9));
    doc.apply_tween(0, 0, 4, &vec![(0, 1), (4, 3)], &vec![vec![2, 2, 3]]);
    assert_eq!(column(&doc, 0, 5), vec![n(1), n(2), n(9), n(3), n(3)]);
    doc.undo();
    assert_eq!(column(&doc, 0, 5), vec![n(1), None, n(9), None, n(3)]);
    let mut d2 = doc_with(1, 4);
    d2.timesheet.set_cell(0, 0, n(1));
    d2.timesheet.set_cell(0, 3, n(2));
    d2.apply_tween(0, 0, 3, &vec![(0, 1), (3, 2)], &vec![vec![1, 2]]);
    assert_eq!(column(&d2, 0, 4), vec![n(1), Some(CellValue::Same), n(2), n(2)]);
}

#[test]
fn smart_fill_pattern_continues_after_data() {
    let mut doc = doc_with(1, 6);
    doc.timesheet.set_cell(0, 0, n(1));
    doc.timesheet.set_cell(0, 1, n(2));
    assert_eq!(doc.smart_fill_pattern(0, 0, 4), Ok(()));
    assert_eq!(column(&doc, 0, 6), vec![n(1), n(2), n(3), n(4), n(5), None]);
    assert_eq!(doc.smart_fill_pattern(0, 0, 1), Err("Selection is already full"));
    let mut empty = doc_with(1, 3);
    assert_eq!(empty.smart_fill_pattern(0, 0, 2), Err("No pattern found above or in selection"));
}

#[test]
fn smart_fill_pattern_uses_run_above_an_empty_selection() {
    let mut doc = doc_with(1, 6);
    doc.timesheet.set_cell(0, 0, n(2));
    doc.timesheet.set_cell(0, 1, n(4));
    assert_eq!(doc.smart_fill_pattern(0, 2, 3), Ok(()));
    assert_eq!(column(&doc, 0, 4), vec![n(2), n(4), n(6), n(8)]);
}

#[test]
fn fill_handle_drag_extends_each_layer() {
    let mut doc = doc_with(2, 6);
    doc.timesheet.set_cell(0, 0, n(1));
    doc.timesheet.set_cell(0, 1, n(2));
    doc.timesheet.set_cell(1, 0, n(5));
    doc.timesheet.set_cell(1, 1, n(5));
    doc.selection_state.is_fill_dragging = true;
    doc.selection_state.fill_source_range = Some((0, 0, 1, 1));
    select(&mut doc, (0, 0), (1, 3));
    doc.apply_smart_fill();
    assert_eq!(column(&doc, 0, 4), vec![n(1), n(2), n(3), n(4)]);
    assert_eq!(column(&doc, 1, 4), vec![n(5), n(5), n(5), n(5)]);
    assert!(!doc.selection_state.is_fill_dragging);
    assert_eq!(doc.selection_state.fill_source_range, None);
}

#[test]
fn editing_writes_the_typed_value_and_moves_down() {
    let mut doc = doc_with(1, 5);
    doc.jump_step = 3;
    doc.start_edit(0, 0);
    assert_eq!(doc.edit_state.editing_text, "");
    let input = doc.read_edit_text(0, "7", false, None);
    assert_eq!(input, EditInput::Direct(CellValue::Number(7)));
    doc.finish_edit(true, true, input, |x: u32| x);
    assert_eq!(column(&doc, 0, 4), vec![n(7), Some(CellValue::Same), Some(CellValue::Same), None]);
    assert_eq!(doc.selection_state.selected_cell, Some((0, 3)));
    assert_eq!(doc.edit_state.editing_cell, None);
    assert!(doc.is_modified);
    doc.start_edit(0, 2);
    assert_eq!(doc.edit_state.editing_text, "7");
}

#[test]
fn editing_with_an_operation_and_inheriting() {
    let mut doc = doc_with(1, 3);
    doc.timesheet.set_cell(0, 0, n(4));
    doc.start_edit(0, 0);
    let input = doc.read_edit_text(0, "+2", true, None);
    assert_eq!(input, EditInput::Operation);
    doc.finish_edit(false, true, input, |x: u32| x + 2);
    assert_eq!(doc.timesheet.get_cell(0, 0), Some(&CellValue::Number(6)));
    doc.start_edit(0, 1);
    let input = doc.read_edit_text(0, "  ", false, None);
    assert_eq!(input, EditInput::InheritAbove);
    doc.finish_edit(false, true, input, |x: u32| x);
    assert_eq!(doc.timesheet.get_cell(0, 1), Some(&CellValue::Same));
    doc.undo();
    assert_eq!(doc.timesheet.get_cell(0, 1), None);
}

#[test]
fn batch_edit_writes_the_whole_block() {
    let mut doc = doc_with(2, 3);
    doc.timesheet.set_cell(0, 0, n(1));
    doc.timesheet.set_cell(1, 0, n(2));
    select(&mut doc, (0, 1), (1, 2));
    doc.start_batch_edit(0, 1);
    assert_eq!(doc.edit_state.batch_edit_range, Some((0, 1, 1, 2)));
    doc.finish_edit(false, true, EditInput::InheritAbove, |x: u32| x);
    assert_eq!(column(&doc, 0, 3), vec![n(1), n(1), n(1)]);
    assert_eq!(column(&doc, 1, 3), vec![n(2), n(2), n(2)]);
    assert_eq!(doc.selection_state.selection_start, None);
    doc.undo();
    assert_eq!(column(&doc, 0, 3), vec![n(1), None, None]);
}

#[test]
fn reading_edit_text_on_a_pan_layer() {
    let mut doc = doc_with(1, 1);
    doc.layer_types.insert(0, LayerType::Pan);
    assert_eq!(doc.read_edit_text(0, "b", false, None), EditInput::Direct(CellValue::Number(2)));
    assert_eq!(doc.read_edit_text(0, "zz", false, None), EditInput::Unreadable);
    assert_eq!(doc.read_edit_text(0, "*x", false, None), EditInput::Unreadable);
    assert_eq!(doc.read_edit_text(0, "3+4", false, Some(7)), EditInput::Direct(CellValue::Number(7)));
}

#[test]
fn keyframe_curve_offsets_write_numbers_and_holds() {
    let mut doc = doc_with(1, 5);
    doc.set_keyframe_curve_offsets(0, 1, 10, &vec![0, 0, 1, 2]);
    assert_eq!(column(&doc, 0, 5), vec![None, n(10), Some(CellValue::Same), n(11), n(12)]);
}

#[test]
fn ae_keyframes_for_an_opacity_layer() {
    let mut doc = doc_with(1, 3);
    doc.layer_types.insert(0, LayerType::Opacity);
    doc.timesheet.set_cell(0, 0, n(50));
    doc.timesheet.set_cell(0, 1, Some(CellValue::Same));
    doc.timesheet.set_cell(0, 2, n(100));
    let text = doc.copy_ae_keyframes(0, "9.0", &vec![]).unwrap();
    assert_eq!(
        text,
        "Adobe After Effects 9.0 Keyframe Data\r\n\r\n\tUnits Per Second\t24\r\n\tSource Width\t1000\r\n\tSource Height\t1000\r\n\tSource Pixel Aspect Ratio\t1\r\n\tComp Pixel Aspect Ratio\t1\r\n\r\nTransform\tOpacity\r\n\tFrame\tpercent\t\r\n\t0\t50\t\r\n\t2\t100\t\r\n\r\nEnd of Keyframe Data\r\n"
    );
}

#[test]
fn ae_keyframes_for_a_cel_layer_trim_seconds() {
    let mut doc = doc_with(1, 3);
    doc.timesheet.set_cell(0, 0, n(1));
    doc.timesheet.set_cell(0, 1, n(3));
    let changes = doc.keyframe_changes(0, true);
    assert_eq!(changes, vec![(0, Some(1)), (1, Some(3)), (2, None)]);
    let secs = vec!["0.0000000".to_string(), "0.0833333".to_string(), String::new()];
    let text = doc.copy_ae_keyframes(0, "8.0", &secs).unwrap();
    assert!(text.contains("Time Remap\r\n\tFrame\tseconds\t\r\n\t0\t0\t\r\n\t1\t0.0833333\t\r\n\t2\t\t\r\n"));
}

#[test]
fn selection_helpers() {
    let mut doc = doc_with(3, 3);
    assert_eq!(doc.get_selection_range(), None);
    assert!(!doc.is_cell_in_selection(0, 0));
    select(&mut doc, (2, 0), (1, 2));
    assert_eq!(doc.get_selection_range(), Some((1, 0, 2, 2)));
    assert!(doc.is_cell_in_selection(1, 1));
    assert!(!doc.is_cell_in_selection(0, 1));
    assert!(doc.is_selection_bottom_right(2, 2));
    assert!(!doc.is_selection_bottom_right(1, 0));
    assert_eq!(doc.check_single_column_selection(), Err("Single col only"));
    assert_eq!(doc.estimate_undo_memory(), 0);
}

#[test]
fn scanning_upwards() {
    let mut doc = doc_with(1, 5);
    doc.timesheet.set_cell(0, 1, n(2));
    doc.timesheet.set_cell(0, 2, Some(CellValue::Same));
    doc.timesheet.set_cell(0, 3, n(4));
    assert_eq!(doc.scan_upwards_for_numbers(0, 4), vec![2, 2, 4]);
    assert_eq!(doc.scan_upwards_for_numbers(0, 0), Vec::<u32>::new());
    assert_eq!(doc.resolve_actual_value(0, 2), Some(2));
    assert_eq!(doc.resolve_actual_value(0, 0), None);
}

#[test]
fn jump_step_changes_by_one_and_stays_positive() {
    let mut doc = doc_with(2, 10);
    assert_eq!(doc.jump_step, 1);
    doc.change_jump_step(1);
    doc.change_jump_step(1);
    assert_eq!(doc.jump_step, 3);
    doc.change_jump_step(-1);
    assert_eq!(doc.jump_step, 2);
    doc.change_jump_step(-1);
    doc.change_jump_step(-1);
    assert_eq!(doc.jump_step, 1);
}

#[test]
fn arrow_keys_move_within_the_grid() {
    let mut doc = doc_with(3, 5);
    doc.selection_state.selected_cell = None;
    assert!(!doc.press_grid_key(GridKey::Down));
    doc.selection_state.selected_cell = Some((0, 0));
    assert!(!doc.press_grid_key(GridKey::Up));
    assert!(!doc.press_grid_key(GridKey::Left));
    assert!(doc.press_grid_key(GridKey::Down));
    assert!(doc.press_grid_key(GridKey::Right));
    assert!(doc.press_grid_key(GridKey::Right));
    assert_eq!(doc.selection_state.selected_cell, Some((2, 1)));
    assert!(doc.selection_state.auto_scroll_to_selection);
    assert!(!doc.press_grid_key(GridKey::Right));
    doc.selection_state.selected_cell = Some((2, 4));
    assert!(!doc.press_grid_key(GridKey::Down));
    assert!(doc.press_grid_key(GridKey::Up));
    assert_eq!(doc.selection_state.selected_cell, Some((2, 3)));
}

#[test]
fn enter_starts_editing_the_selected_cell() {
    let mut doc = doc_with(2, 5);
    doc.timesheet.set_cell(1, 1, n(7));
    doc.timesheet.set_cell(1, 2, Some(CellValue::Same));
    doc.selection_state.selected_cell = Some((1, 2));
    assert!(doc.press_grid_key(GridKey::Enter));
    assert_eq!(doc.edit_state.editing_cell, Some((1, 2)));
    assert_eq!(doc.edit_state.editing_text, "7");
    assert_eq!(doc.edit_state.batch_edit_range, None);
}

#[test]
fn enter_with_a_block_edits_the_block() {
    let mut doc = doc_with(2, 5);
    doc.selection_state.selected_cell = Some((0, 1));
    select(&mut doc, (1, 3), (0, 1));
    assert!(doc.press_grid_key(GridKey::Enter));
    assert_eq!(doc.edit_state.batch_edit_range, Some((0, 1, 1, 3)));
}

#[test]
fn typing_printable_text_starts_editing_with_it() {
    let mut doc = doc_with(2, 5);
    doc.selection_state.selected_cell = None;
    assert!(!doc.type_on_selection("5"));
    doc.selection_state.selected_cell = Some((0, 2));
    assert!(!doc.type_on_selection("a b"));
    assert_eq!(doc.edit_state.editing_cell, None);
    assert!(doc.type_on_selection("12"));
    assert_eq!(doc.edit_state.editing_cell, Some((0, 2)));
    assert_eq!(doc.edit_state.editing_text, "12");
}

#[test]
fn empty_edit_below_an_empty_cell_stays_empty() {
    let mut doc = doc_with(1, 3);
    doc.timesheet.set_cell(0, 0, n(5));
    doc.start_edit(0, 2);
    doc.finish_edit(false, true, EditInput::InheritAbove, |x: u32| x);
    assert_eq!(doc.timesheet.get_cell(0, 2), None);
    assert_eq!(doc.timesheet.get_actual_value(0, 2), doc.timesheet.get_actual_value(0, 1));
    doc.start_edit(0, 1);
    doc.finish_edit(false, true, EditInput::InheritAbove, |x: u32| x);
    assert_eq!(doc.timesheet.get_cell(0, 1), Some(&CellValue::Same));
    assert_eq!(doc.timesheet.get_actual_value(0, 1), Some(5));
}

#[test]
fn delete_then_undo_restores_cells_and_history() {
    let mut doc = doc_with(2, 4);
    doc.timesheet.set_cell(0, 1, n(3));
    doc.timesheet.set_cell(1, 2, Some(CellValue::Same));
    let before = doc.timesheet.cells.clone();
    let depth = doc.undo_stack.len();
    select(&mut doc, (0, 0), (1, 3));
    doc.delete_selection();
    assert_eq!(doc.timesheet.get_cell(0, 1), None);
    doc.undo();
    assert_eq!(doc.timesheet.cells, before);
    assert_eq!(doc.undo_stack.len(), depth);
}

#[test]
fn shown_values_read_back() {
    assert_eq!(Document::parse_cell_input("12", LayerType::Cel), Some(12));
    let mut doc = doc_with(1, 1);
    doc.layer_types.insert(0, LayerType::Pan);
    assert_eq!(doc.format_cell_value(0, 3), "C");
    assert_eq!(Document::parse_cell_input(&doc.format_cell_value(0, 3), LayerType::Pan), Some(3));
    assert_eq!(Document::parse_cell_input(&doc.format_cell_value(0, 40), LayerType::Pan), Some(40));
}

#[test]
fn copied_text_pastes_back_the_block() {
    let mut doc = doc_with(2, 3);
    doc.timesheet.set_cell(0, 0, n(4));
    doc.timesheet.set_cell(0, 1, Some(CellValue::Same));
    doc.timesheet.set_cell(1, 2, n(12));
    select(&mut doc, (0, 0), (1, 2));
    let text = doc.copy_selection().unwrap();
    let mut other = doc_with(2, 3);
    other.selection_state.selected_cell = Some((0, 0));
    assert!(other.paste_from_text(&text));
    for l in 0..2 {
        assert_eq!(column(&other, l, 3), column(&doc, l, 3));
    }
}

fn linear(f1: usize, v1: u32, f2: usize, v2: u32, f: usize) -> u32 {
    let span = (f2 - f1) as i64;
    let step = (v2 as i64 - v1 as i64) * (f - f1) as i64;
    (v1 as i64 + (step + span / 2).div_euclid(span)) as u32
}

#[test]
fn smart_fill_interpolates_between_numbered_cells() {
    let mut doc = doc_with(2, 6);
    doc.timesheet.set_cell(0, 0, n(1));
    doc.timesheet.set_cell(0, 3, n(4));
    doc.timesheet.set_cell(0, 5, n(4));
    select(&mut doc, (0, 0), (0, 5));
    let depth = doc.undo_stack.len();
    assert_eq!(doc.smart_fill_auto(linear), Ok(()));
    assert_eq!(column(&doc, 0, 6), vec![n(1), n(2), n(3), n(4), Some(CellValue::Same), n(4)]);
    assert_eq!(doc.undo_stack.len(), depth + 1);
}

#[test]
fn smart_fill_errors_leave_the_document() {
    let mut doc = doc_with(2, 4);
    doc.selection_state.selection_start = None;
    assert_eq!(doc.smart_fill_auto(linear), Err("No sel"));
    select(&mut doc, (0, 0), (1, 1));
    assert_eq!(doc.smart_fill_auto(linear), Err("Single col only"));
    select(&mut doc, (0, 0), (0, 3));
    assert_eq!(doc.smart_fill_auto(linear), Err("No pattern found above or in selection"));
    assert_eq!(column(&doc, 0, 4), vec![None, None, None, None]);
    assert!(doc.undo_stack.is_empty());
}

#[test]
fn smart_fill_continues_a_pattern() {
    let mut doc = doc_with(1, 5);
    doc.timesheet.set_cell(0, 0, n(1));
    doc.timesheet.set_cell(0, 1, n(2));
    select(&mut doc, (0, 0), (0, 4));
    assert_eq!(doc.smart_fill_auto(linear), Ok(()));
    assert_eq!(column(&doc, 0, 5), vec![n(1), n(2), n(3), n(4), n(5)]);
}
