//! A document: a timesheet with its editing state, selection, clipboard and undo history.

use vstd::prelude::*;
use std::collections::{HashMap, VecDeque};
use crate::text::{push_str_chars, push_chars, trimmed, trim_chars, str_chars, string_from_chars, parse_u32, parse_u32_spec, decimal_digits,
    push_decimal, is_ascii_letter, letter_number, letter_value, lines_seq, lines_chars, split_seq, split_chars,
    lemma_trimmed_unchanged, lemma_decimal_digits_read_back, lemma_split_no_sep, lemma_split_append, all_digits, lead_ws};
use crate::timesheet::{CellValue, TimeSheet, grid_cell, grid_with, grid_actual_value, number_above, lemma_read_after_write};

verus! {

/// The most undo steps kept by single-cell edits.
pub const MAX_UNDO_ACTIONS: usize = 100;

/// How a layer's numbers are shown and entered.
#[derive(Clone, Copy, PartialEq, Eq, Debug, Structural)]
pub enum LayerType {
    /// Cel numbers
    Cel,
    /// Pan positions, shown as letters A-Z for 1-26
    Pan,
    /// Opacity percentages
    Opacity,
}

impl Default for LayerType {
    fn default() -> (r: Self)
        ensures
            r == LayerType::Cel,
    {
        LayerType::Cel
    }
}

/// One undoable change.
pub enum UndoAction {
    /// A cell was set; `old_value` was there before
    SetCell { layer: usize, frame: usize, old_value: Option<CellValue> },
    /// A block of cells starting at (`min_layer`, `min_frame`) was set
    SetRange { min_layer: usize, min_frame: usize, old_values: Vec<Vec<Option<CellValue>>> },
    /// A layer was inserted at `index`
    InsertLayer { index: usize },
    /// A layer was deleted at `index`
    DeleteLayer {
        index: usize,
        name: String,
        cells: Vec<Option<CellValue>>,
        layer_type: Option<LayerType>,
        layer_folder: Option<String>,
    },
}

/// In-place editing state.
pub struct EditState {
    /// The cell being edited
    pub editing_cell: Option<(usize, usize)>,
    /// The layer whose name is being edited
    pub editing_layer_name: Option<usize>,
    /// The text typed into the cell
    pub editing_text: String,
    /// The text typed into the layer name
    pub editing_layer_text: String,
    /// The block that an edit applies to (min layer, min frame, max layer, max frame)
    pub batch_edit_range: Option<(usize, usize, usize, usize)>,
    /// Whether the document is being renamed
    pub renaming_document: bool,
    /// The new document name being typed
    pub rename_doc_buffer: String,
}

impl Default for EditState {
    fn default() -> (s: Self)
        ensures
            s.editing_cell is None,
            s.editing_layer_name is None,
            s.editing_text@ == Seq::<char>::empty(),
            s.editing_layer_text@ == Seq::<char>::empty(),
            s.batch_edit_range is None,
            !s.renaming_document,
            s.rename_doc_buffer@ == Seq::<char>::empty(),
    {
        EditState {
            editing_cell: None,
            editing_layer_name: None,
            editing_text: String::new(),
            editing_layer_text: String::new(),
            batch_edit_range: None,
            renaming_document: false,
            rename_doc_buffer: String::new(),
        }
    }
}

/// Selection state.
pub struct SelectionState {
    /// The current cell (layer, frame)
    pub selected_cell: Option<(usize, usize)>,
    /// Where a block selection started
    pub selection_start: Option<(usize, usize)>,
    /// Where a block selection ends
    pub selection_end: Option<(usize, usize)>,
    /// Whether a selection is being dragged
    pub is_dragging: bool,
    /// Whether the view should scroll to the selection
    pub auto_scroll_to_selection: bool,
    /// Whether the fill handle is being dragged
    pub is_fill_dragging: bool,
    /// The block that the fill handle drag started from
    pub fill_source_range: Option<(usize, usize, usize, usize)>,
}

impl Default for SelectionState {
    fn default() -> (s: Self)
        ensures
            s.selected_cell == Some((0usize, 0usize)),
            s.selection_start is None,
            s.selection_end is None,
            !s.is_dragging,
            !s.auto_scroll_to_selection,
            !s.is_fill_dragging,
            s.fill_source_range is None,
    {
        SelectionState {
            selected_cell: Some((0, 0)),
            selection_start: None,
            selection_end: None,
            is_dragging: false,
            auto_scroll_to_selection: false,
            is_fill_dragging: false,
            fill_source_range: None,
        }
    }
}

/// State of the repeat dialog.
pub struct RepeatDialogState {
    /// Whether it is open
    pub open: bool,
    /// Layer
    pub layer: usize,
    /// First frame
    pub start_frame: usize,
    /// Last frame
    pub end_frame: usize,
    /// Repeat count as typed
    pub repeat_count_str: String,
    /// Repeat until the last frame
    pub repeat_until_end: bool,
}

impl Default for RepeatDialogState {
    fn default() -> (s: Self)
        ensures
            !s.open,
            s.layer == 0,
            s.start_frame == 0,
            s.end_frame == 0,
            s.repeat_count_str@ == seq!['1'],
            !s.repeat_until_end,
    {
        RepeatDialogState {
            open: false,
            layer: 0,
            start_frame: 0,
            end_frame: 0,
            repeat_count_str: string_from_chars(&vec!['1']),
            repeat_until_end: false,
        }
    }
}

/// State of the sequence fill dialog.
pub struct SequenceFillDialogState {
    /// Whether it is open
    pub open: bool,
    /// Layer
    pub layer: usize,
    /// First frame
    pub start_frame: usize,
    /// First value as typed
    pub start_value_str: String,
    /// Last value as typed
    pub end_value_str: String,
    /// Frames per value as typed
    pub hold_frames_str: String,
}

impl Default for SequenceFillDialogState {
    fn default() -> (s: Self)
        ensures
            !s.open,
            s.layer == 0,
            s.start_frame == 0,
            s.start_value_str@ == seq!['1'],
            s.end_value_str@ == seq!['2', '4'],
            s.hold_frames_str@ == seq!['1'],
    {
        SequenceFillDialogState {
            open: false,
            layer: 0,
            start_frame: 0,
            start_value_str: string_from_chars(&vec!['1']),
            end_value_str: string_from_chars(&vec!['2', '4']),
            hold_frames_str: string_from_chars(&vec!['1']),
        }
    }
}

/// Copied cells: rows per layer, each a run of frames.
pub type ClipboardData = Vec<Vec<Option<CellValue>>>;

/// A document.
pub struct Document {
    /// Document id
    pub id: usize,
    /// The timesheet
    pub timesheet: TimeSheet,
    /// Where it was loaded from or saved to
    pub file_path: Option<String>,
    /// Whether it has unsaved changes
    pub is_modified: bool,
    /// Whether its tab is open
    pub is_open: bool,
    /// Editing state
    pub edit_state: EditState,
    /// Selection state
    pub selection_state: SelectionState,
    /// Copied cells
    pub clipboard: Option<ClipboardData>,
    /// Undo history (most recent last)
    pub undo_stack: VecDeque<UndoAction>,
    /// Repeat dialog
    pub repeat_dialog: RepeatDialogState,
    /// Sequence fill dialog
    pub sequence_fill_dialog: SequenceFillDialogState,
    /// Reference image folder
    pub reference_image_dir: Option<String>,
    /// Whether the preview player is shown
    pub show_player: bool,
    /// The layer the player shows
    pub player_selected_layer: usize,
    /// Image folder of each layer
    pub layer_folders: HashMap<usize, String>,
    /// Type of each layer (Cel when absent)
    pub layer_types: HashMap<usize, LayerType>,
    /// How many frames Enter moves down
    pub jump_step: usize,
}

/// The resolved value of a cell: its number, or for "-" the value above it (through further
/// "-" cells), and nothing for an empty cell or a "-" with nothing above.
pub open spec fn resolved(g: Seq<Seq<Option<CellValue>>>, l: int, f: int) -> Option<u32>
    decreases f + 1,
{
    if f < 0 {
        None
    } else {
        match grid_cell(g, l, f) {
            Some(CellValue::Number(n)) => Some(n),
            Some(CellValue::Same) => resolved(g, l, f - 1),
            None => None,
        }
    }
}

/// The resolved values of the unbroken run of resolvable cells just above frame `start`,
/// top to bottom.
pub open spec fn upward_run(g: Seq<Seq<Option<CellValue>>>, l: int, start: int) -> Seq<u32>
    decreases start,
{
    if start <= 0 {
        Seq::empty()
    } else {
        match resolved(g, l, start - 1) {
            Some(v) => upward_run(g, l, start - 1).push(v),
            None => Seq::empty(),
        }
    }
}

/// How a number is shown on a layer of type `lt`: a letter for 1-26 on a pan layer,
/// else its decimal digits.
pub open spec fn formatted(lt: LayerType, val: u32) -> Seq<char> {
    if lt == LayerType::Pan && 1 <= val <= 26 {
        seq![(64 + val) as char]
    } else {
        decimal_digits(val as nat)
    }
}

/// What typed text means as a number on a layer of type `lt` (trimmed; a single letter
/// on a pan layer is its alphabet position).
pub open spec fn parsed_input(s: Seq<char>, lt: LayerType) -> Option<u32> {
    let t = trimmed(s);
    if t.len() == 0 {
        None
    } else if lt == LayerType::Pan && t.len() == 1 && is_ascii_letter(t[0]) {
        Some(letter_number(t[0]))
    } else {
        parse_u32_spec(t)
    }
}

/// Typing what a cell shows reads back as its value: the decimal numeral of any number,
/// and on a pan layer the letter of 1 to 26.
pub proof fn lemma_format_then_parse(lt: LayerType, val: u32)
    ensures
        parsed_input(formatted(lt, val), lt) == Some(val),
{
    if lt == LayerType::Pan && 1 <= val <= 26 {
        let c = (64 + val) as char;
        assert(c as u32 == 64 + val);
        lemma_trimmed_unchanged(seq![c]);
    } else {
        lemma_decimal_digits_read_back(val as nat);
        let d = decimal_digits(val as nat);
        assert('0' <= d[0] <= '9');
    }
}

/// What a pasted field means: empty, "-" (same as above), a number, or a single letter
/// (its alphabet position).
pub open spec fn clipboard_cell(s: Seq<char>) -> Option<CellValue> {
    let t = trimmed(s);
    if t.len() == 0 {
        None
    } else if t == seq!['-'] {
        Some(CellValue::Same)
    } else if parse_u32_spec(t) is Some {
        Some(CellValue::Number(parse_u32_spec(t)->Some_0))
    } else if t.len() == 1 && is_ascii_letter(t[0]) {
        Some(CellValue::Number(letter_number(t[0])))
    } else {
        None
    }
}

/// The cells of pasted text: a row per line, a cell per tab-separated field.
pub open spec fn clipboard_rows(text: Seq<char>) -> Seq<Seq<Option<CellValue>>> {
    let lines = lines_seq(text);
    Seq::new(lines.len(), |i: int| {
        let fields = split_seq(lines[i], '\t');
        Seq::new(fields.len(), |j: int| clipboard_cell(fields[j]))
    })
}

/// The block spanned by two corners: (min layer, min frame, max layer, max frame).
pub open spec fn span(a: (usize, usize), b: (usize, usize)) -> (usize, usize, usize, usize) {
    (
        if a.0 < b.0 { a.0 } else { b.0 },
        if a.1 < b.1 { a.1 } else { b.1 },
        if a.0 < b.0 { b.0 } else { a.0 },
        if a.1 < b.1 { b.1 } else { a.1 },
    )
}


/// A block of cells held as vectors, viewed as sequences.
pub open spec fn rows_of(v: Seq<Vec<Option<CellValue>>>) -> Seq<Seq<Option<CellValue>>> {
    Seq::new(v.len(), |i: int| v[i]@)
}

/// Whether `a` records a block write at (`ml`, `mf`) whose previous cells were `rows`.
pub open spec fn records_range(a: UndoAction, ml: int, mf: int, rows: Seq<Seq<Option<CellValue>>>) -> bool {
    a matches UndoAction::SetRange { min_layer, min_frame, old_values }
        && min_layer == ml && min_frame == mf && rows_of(old_values@) == rows
}

/// The undo history after recording a single-cell change, dropping the oldest entry
/// when the history is full.
pub open spec fn pushed_set_cell(stack: Seq<UndoAction>, l: usize, f: usize, v: Option<CellValue>) -> Seq<UndoAction> {
    (if stack.len() >= MAX_UNDO_ACTIONS { stack.drop_first() } else { stack }).push(
        UndoAction::SetCell { layer: l, frame: f, old_value: v },
    )
}

/// The cell at `f` of a row, `None` past its end.
pub open spec fn row_cell(row: Seq<Option<CellValue>>, f: int) -> Option<CellValue> {
    if 0 <= f < row.len() { row[f] } else { None }
}

/// `row` after writing `vals[0 .. k]` at frames `start ..`, one cell at a time.
pub open spec fn written_row(row: Seq<Option<CellValue>>, start: int, vals: Seq<Option<CellValue>>, k: nat)
    -> Seq<Option<CellValue>>
    decreases k,
{
    if k == 0 {
        row
    } else {
        crate::timesheet::row_with(written_row(row, start, vals, (k - 1) as nat), start + k - 1, vals[k - 1])
    }
}

/// The grid after writing the first `n` rows of `rows` as a block at (`ml`, `mf`), cell by cell.
pub open spec fn write_rows(g: Seq<Seq<Option<CellValue>>>, ml: int, mf: int, rows: Seq<Seq<Option<CellValue>>>, n: nat)
    -> Seq<Seq<Option<CellValue>>>
    decreases n,
{
    if n == 0 {
        g
    } else {
        let g1 = write_rows(g, ml, mf, rows, (n - 1) as nat);
        let l = ml + n - 1;
        if 0 <= l < g1.len() {
            g1.update(l, written_row(g1[l], mf, rows[n - 1], rows[n - 1].len()))
        } else {
            g1
        }
    }
}

/// The cells of the block of `nl` layers and `nf` frames at (`ml`, `mf`).
pub open spec fn block_of(g: Seq<Seq<Option<CellValue>>>, ml: int, mf: int, nl: nat, nf: nat) -> Seq<Seq<Option<CellValue>>> {
    Seq::new(nl, |i: int| Seq::new(nf, |j: int| grid_cell(g, ml + i, mf + j)))
}

/// The cells under a block shaped like `rows` at (`ml`, `mf`).
pub open spec fn block_under(g: Seq<Seq<Option<CellValue>>>, ml: int, mf: int, rows: Seq<Seq<Option<CellValue>>>) -> Seq<Seq<Option<CellValue>>> {
    Seq::new(rows.len(), |i: int| Seq::new(rows[i].len(), |j: int| grid_cell(g, ml + i, mf + j)))
}

/// A block of `nl` × `nf` copies of `v`.
pub open spec fn uniform_block(nl: nat, nf: nat, v: Option<CellValue>) -> Seq<Seq<Option<CellValue>>> {
    Seq::new(nl, |i: int| Seq::new(nf, |j: int| v))
}

/// Whether (`l`, `f`) lies in the block written by `rows` at (`ml`, `mf`).
pub open spec fn in_rows(rows: Seq<Seq<Option<CellValue>>>, ml: int, mf: int, l: int, f: int) -> bool {
    ml <= l < ml + rows.len() && mf <= f < mf + rows[l - ml].len()
}

proof fn lemma_written_row(row: Seq<Option<CellValue>>, start: int, vals: Seq<Option<CellValue>>, k: nat, f: int)
    requires
        start >= 0,
        k <= vals.len(),
    ensures
        row_cell(written_row(row, start, vals, k), f)
            == (if start <= f < start + k { vals[f - start] } else { row_cell(row, f) }),
        written_row(row, start, vals, k).len() >= row.len(),
    decreases k,
{
    if k > 0 {
        lemma_written_row(row, start, vals, (k - 1) as nat, f);
        lemma_written_row(row, start, vals, (k - 1) as nat, start + k - 1);
    }
}

/// Writing a block changes exactly the cells inside it (to the written values) and the
/// layer count not at all.
pub proof fn lemma_write_rows(g: Seq<Seq<Option<CellValue>>>, ml: int, mf: int, rows: Seq<Seq<Option<CellValue>>>, n: nat, l: int, f: int)
    requires
        ml >= 0,
        mf >= 0,
        n <= rows.len(),
    ensures
        write_rows(g, ml, mf, rows, n).len() == g.len(),
        grid_cell(write_rows(g, ml, mf, rows, n), l, f)
            == (if 0 <= l < g.len() && ml <= l < ml + n && mf <= f < mf + rows[l - ml].len() {
                rows[l - ml][f - mf]
            } else {
                grid_cell(g, l, f)
            }),
    decreases n,
{
    if n > 0 {
        lemma_write_rows(g, ml, mf, rows, (n - 1) as nat, l, f);
        let g1 = write_rows(g, ml, mf, rows, (n - 1) as nat);
        let lw = ml + n - 1;
        if 0 <= lw < g1.len() {
            lemma_written_row(g1[lw], mf, rows[n - 1], rows[n - 1].len(), f);
            if l == lw && 0 <= f {
                assert(grid_cell(g1, l, f) == row_cell(g1[l], f));
            }
        }
    }
}

/// Writing a block and then writing back the cells it covered, as recorded for undo,
/// leaves every cell as it was.
pub proof fn lemma_block_undo_restores(g: Seq<Seq<Option<CellValue>>>, ml: int, mf: int, x: Seq<Seq<Option<CellValue>>>, l: int, f: int)
    requires
        ml >= 0,
        mf >= 0,
    ensures
        grid_cell(write_rows(write_rows(g, ml, mf, x, x.len()), ml, mf, block_under(g, ml, mf, x), x.len()), l, f)
            == grid_cell(g, l, f),
{
    let g1 = write_rows(g, ml, mf, x, x.len());
    let u = block_under(g, ml, mf, x);
    lemma_write_rows(g, ml, mf, x, x.len(), l, f);
    lemma_write_rows(g1, ml, mf, u, x.len(), l, f);
}

/// Pasting the cells of a copied block writes each of them at the same offset from the
/// paste position (where that layer exists), and leaves all other cells.
pub proof fn lemma_paste_copied(g: Seq<Seq<Option<CellValue>>>, g2: Seq<Seq<Option<CellValue>>>, ml: int, mf: int, nl: nat, nf: nat,
    sl: int, sf: int, l: int, f: int)
    requires
        sl >= 0,
        sf >= 0,
    ensures
        grid_cell(write_rows(g2, sl, sf, block_of(g, ml, mf, nl, nf), nl), l, f) == (
            if 0 <= l < g2.len() && sl <= l < sl + nl && sf <= f < sf + nf {
                grid_cell(g, ml + (l - sl), mf + (f - sf))
            } else {
                grid_cell(g2, l, f)
            }),
{
    lemma_write_rows(g2, sl, sf, block_of(g, ml, mf, nl, nf), nl, l, f);
}

/// The cells recorded for a rectangular edit are those under a uniform block of its size.
pub proof fn lemma_block_of_uniform(g: Seq<Seq<Option<CellValue>>>, ml: int, mf: int, nl: nat, nf: nat, v: Option<CellValue>)
    ensures
        block_of(g, ml, mf, nl, nf) == block_under(g, ml, mf, uniform_block(nl, nf, v)),
{
    assert(block_of(g, ml, mf, nl, nf) =~= block_under(g, ml, mf, uniform_block(nl, nf, v)));
}

/// Setting a cell and then setting it back to the value it had leaves every cell as it was.
pub proof fn lemma_cell_undo_restores(g: Seq<Seq<Option<CellValue>>>, l: int, f: int, v: Option<CellValue>, l2: int, f2: int)
    requires
        f >= 0,
    ensures
        grid_cell(grid_with(grid_with(g, l, f, v), l, f, grid_cell(g, l, f)), l2, f2) == grid_cell(g, l2, f2),
{
}

/// Changing cell (`l`, `f`) leaves what the frames before `f` stand for.
proof fn lemma_above_unchanged(g: Seq<Seq<Option<CellValue>>>, l: int, f: int, v: Option<CellValue>, k: int)
    requires
        0 <= l < g.len(),
        0 <= f < g[l].len(),
        k <= f,
    ensures
        number_above(grid_with(g, l, f, v), l, k) == number_above(g, l, k),
        k < f ==> resolved(grid_with(g, l, f, v), l, k) == resolved(g, l, k),
        k < f ==> grid_cell(grid_with(g, l, f, v), l, k) == grid_cell(g, l, k),
    decreases k + 1,
{
    let g2 = grid_with(g, l, f, v);
    if k >= 0 {
        assert(g2[l] =~= g[l].update(f, v));
    }
    if k > 0 {
        lemma_above_unchanged(g, l, f, v, k - 1);
    }
}

/// Finishing an empty edit of one cell below the first frame ("-" when the cell above holds
/// something, nothing when it is empty) makes the cell stand for the same value as the cell
/// above, whether "-" is resolved through empty cells or stops at them.
pub proof fn lemma_empty_edit_copies_above(g: Seq<Seq<Option<CellValue>>>, l: int, f: int)
    requires
        0 <= l < g.len(),
        0 < f < g[l].len(),
    ensures
        ({
            let nc = if grid_cell(g, l, f - 1) is Some { Some(CellValue::Same) } else { None };
            &&& grid_actual_value(grid_with(g, l, f, nc), l, f) == grid_actual_value(g, l, f - 1)
            &&& resolved(grid_with(g, l, f, nc), l, f) == resolved(g, l, f - 1)
        }),
{
    let nc = if grid_cell(g, l, f - 1) is Some { Some(CellValue::Same) } else { None };
    let g2 = grid_with(g, l, f, nc);
    assert(g2[l] =~= g[l].update(f, nc));
    lemma_above_unchanged(g, l, f, nc, f);
    lemma_above_unchanged(g, l, f, nc, f - 1);
}

/// Deleting (the selected block, or else the current cell) and then undoing gives back
/// every cell and the undo history as they were, when the history was not full.
pub proof fn lemma_delete_then_undo(d0: Document, d1: Document, d2: Document, l: int, f: int)
    requires
        Document::deletion(d0, d1),
        Document::undone(d1, d2),
        d0.selection() is Some || d0.selection_state.selected_cell is Some,
        d0.undo_stack@.len() < MAX_UNDO_ACTIONS,
    ensures
        d2.undo_stack@ == d0.undo_stack@,
        d2.timesheet.grid().len() == d0.timesheet.grid().len(),
        d2.timesheet.cell(l, f) == d0.timesheet.cell(l, f),
{
    let g = d0.timesheet.grid();
    match d0.selection() {
        Some((ml, mf, xl, xf)) => {
            let nl = (xl - ml + 1) as nat;
            let nf = (xf - mf + 1) as nat;
            let x = uniform_block(nl, nf, None);
            let g1 = write_rows(g, ml as int, mf as int, x, nl);
            lemma_block_of_uniform(g, ml as int, mf as int, nl, nf, None);
            lemma_write_rows(g, ml as int, mf as int, x, nl, l, f);
            lemma_write_rows(g1, ml as int, mf as int, block_of(g, ml as int, mf as int, nl, nf), nl, l, f);
            lemma_block_undo_restores(g, ml as int, mf as int, x, l, f);
            let a = d1.undo_stack@.last();
            assert(a matches UndoAction::SetRange { min_layer, min_frame, old_values }
                && min_layer == ml && min_frame == mf && rows_of(old_values@) == block_of(g, ml as int, mf as int, nl, nf));
            if let UndoAction::SetRange { min_layer, min_frame, old_values } = a {
                assert(old_values@.len() == rows_of(old_values@).len());
                assert(d2.timesheet.grid() == write_rows(g1, ml as int, mf as int, block_of(g, ml as int, mf as int, nl, nf), nl));
                assert(block_of(g, ml as int, mf as int, nl, nf) == block_under(g, ml as int, mf as int, x));
            }
            assert(d2.undo_stack@ =~= d0.undo_stack@);
        },
        None => {
            let (sl, sf) = d0.selection_state.selected_cell->Some_0;
            lemma_cell_undo_restores(g, sl as int, sf as int, None, l, f);
            assert(d1.undo_stack@ == d0.undo_stack@.push(UndoAction::SetCell { layer: sl, frame: sf, old_value: grid_cell(g, sl as int, sf as int) }));
            assert(d1.undo_stack@.drop_last() =~= d0.undo_stack@);
            assert(d2.undo_stack@ =~= d0.undo_stack@);
        },
    }
}

/// Inserting a layer and then removing it again gives back the same layers, and moving
/// layer-keyed entries up and then down again gives back the same entries.
pub proof fn lemma_layer_insert_undo_restores<T, V>(g: Seq<T>, index: int, row: T, m: Map<usize, V>, i: usize)
    requires
        0 <= index <= g.len(),
        keys_below_max(m),
    ensures
        g.insert(index, row).remove(index) == g,
        keys_shifted_down(keys_shifted_up(m, i), i) == m,
{
    assert(g.insert(index, row).remove(index) =~= g);
    assert(keys_shifted_down(keys_shifted_up(m, i), i) =~= m);
}

/// Removing a layer and then inserting what it held at the same place gives back the same
/// layers, and the layer-keyed entries come back as they were.
#[verifier::spinoff_prover]
pub proof fn lemma_layer_delete_undo_restores<T, V>(g: Seq<T>, index: int, m: Map<usize, V>, i: usize)
    requires
        0 <= index < g.len(),
    ensures
        g.remove(index).insert(index, g[index]) == g,
        keys_restored(keys_shifted_down(m, i), i, if m.contains_key(i) { Some(m[i]) } else { None }) == m,
{
    assert(g.remove(index).insert(index, g[index]) =~= g);
    let r = keys_restored(keys_shifted_down(m, i), i, if m.contains_key(i) { Some(m[i]) } else { None });
    let d = keys_shifted_down(m, i);
    assert forall|k: usize| #[trigger] r.contains_key(k) == m.contains_key(k) by {
        if k > i {
            assert(((k - 1) as usize) < i || ((k - 1) as usize) >= i);
            assert(d.contains_key((k - 1) as usize) == m.contains_key(k));
        }
    }
    assert forall|k: usize| m.contains_key(k) implies #[trigger] r[k] == m[k] by {
        if k > i {
            assert(d[(k - 1) as usize] == m[k]);
        }
    }
    assert(r =~= m);
}

/// Writes `rows` as a block at (`ml`, `mf`), cell by cell.
fn write_block(ts: &mut TimeSheet, ml: usize, mf: usize, rows: &Vec<Vec<Option<CellValue>>>)
    requires
        ml + rows@.len() <= usize::MAX,
        forall|i: int| 0 <= i < rows@.len() ==> mf + (#[trigger] rows@[i])@.len() < usize::MAX,
    ensures
        final(ts).same_header(old(ts)),
        final(ts).cells@.len() == old(ts).cells@.len(),
        final(ts).grid() == write_rows(old(ts).grid(), ml as int, mf as int, rows_of(rows@), rows@.len()),
{
    let ghost rv = rows_of(rows@);
    let ghost g0 = ts.grid();
    let mut li: usize = 0;
    while li < rows.len()
        invariant
            ml + rows@.len() <= usize::MAX,
            forall|i: int| 0 <= i < rows@.len() ==> mf + (#[trigger] rows@[i])@.len() < usize::MAX,
            rv == rows_of(rows@),
            li <= rows@.len(),
            ts.same_header(old(ts)),
            ts.cells@.len() == old(ts).cells@.len(),
            g0 == old(ts).grid(),
            ts.grid() == write_rows(g0, ml as int, mf as int, rv, li as nat),
        decreases rows.len() - li,
    {
        let row = &rows[li];
        let l = ml + li;
        let ghost gb = ts.grid();
        let mut fi: usize = 0;
        while fi < row.len()
            invariant
                mf + row@.len() < usize::MAX,
                l == ml + li,
                row@ == rv[li as int],
                fi <= row@.len(),
                ts.same_header(old(ts)),
                ts.cells@.len() == gb.len(),
                ts.grid() == (if l < gb.len() {
                    gb.update(l as int, written_row(gb[l as int], mf as int, row@, fi as nat))
                } else {
                    gb
                }),
            decreases row.len() - fi,
        {
            let ghost g1 = ts.grid();
            ts.set_cell(l, mf + fi, row[fi]);
            proof {
                if l < gb.len() {
                    assert(ts.grid() =~= gb.update(l as int, written_row(gb[l as int], mf as int, row@, (fi + 1) as nat)));
                } else {
                    assert(ts.grid() =~= gb);
                }
            }
            fi = fi + 1;
        }
        proof {
            if l >= gb.len() {
                assert(write_rows(g0, ml as int, mf as int, rv, (li + 1) as nat) == gb);
            }
        }
        li = li + 1;
    }
}

/// Copies the block of `nl` layers and `nf` frames at (`ml`, `mf`).
fn snapshot(ts: &TimeSheet, ml: usize, mf: usize, nl: usize, nf: usize) -> (r: Vec<Vec<Option<CellValue>>>)
    requires
        ml + nl <= usize::MAX,
        mf + nf <= usize::MAX,
    ensures
        rows_of(r@) == block_of(ts.grid(), ml as int, mf as int, nl as nat, nf as nat),
        r@.len() == nl,
        forall|i: int| 0 <= i < nl ==> (#[trigger] r@[i])@.len() == nf,
{
    let mut r: Vec<Vec<Option<CellValue>>> = Vec::new();
    let mut i: usize = 0;
    while i < nl
        invariant
            ml + nl <= usize::MAX,
            mf + nf <= usize::MAX,
            i <= nl,
            r@.len() == i,
            forall|k: int| 0 <= k < i ==> (#[trigger] r@[k])@ == block_of(ts.grid(), ml as int, mf as int, nl as nat, nf as nat)[k],
        decreases nl - i,
    {
        let mut row: Vec<Option<CellValue>> = Vec::new();
        let mut j: usize = 0;
        while j < nf
            invariant
                ml + nl <= usize::MAX,
                mf + nf <= usize::MAX,
                i < nl,
                j <= nf,
                row@.len() == j,
                forall|k: int| 0 <= k < j ==> #[trigger] row@[k] == grid_cell(ts.grid(), ml + i, mf + k),
            decreases nf - j,
        {
            let c = ts.get_cell(ml + i, mf + j);
            row.push(match c { Some(v) => Some(*v), None => None });
            j = j + 1;
        }
        assert(row@ =~= block_of(ts.grid(), ml as int, mf as int, nl as nat, nf as nat)[i as int]);
        r.push(row);
        i = i + 1;
    }
    assert(rows_of(r@) =~= block_of(ts.grid(), ml as int, mf as int, nl as nat, nf as nat));
    r
}

/// Copies the cells under a block shaped like `rows` at (`ml`, `mf`).
fn snapshot_like(ts: &TimeSheet, ml: usize, mf: usize, rows: &Vec<Vec<Option<CellValue>>>) -> (r: Vec<Vec<Option<CellValue>>>)
    requires
        ml + rows@.len() <= usize::MAX,
        forall|i: int| 0 <= i < rows@.len() ==> mf + (#[trigger] rows@[i])@.len() <= usize::MAX,
    ensures
        rows_of(r@) == block_under(ts.grid(), ml as int, mf as int, rows_of(rows@)),
{
    let ghost shape = rows_of(rows@);
    let mut r: Vec<Vec<Option<CellValue>>> = Vec::new();
    let mut i: usize = 0;
    while i < rows.len()
        invariant
            ml + rows@.len() <= usize::MAX,
            forall|k: int| 0 <= k < rows@.len() ==> mf + (#[trigger] rows@[k])@.len() <= usize::MAX,
            shape == rows_of(rows@),
            i <= rows@.len(),
            r@.len() == i,
            forall|k: int| 0 <= k < i ==> (#[trigger] r@[k])@ == block_under(ts.grid(), ml as int, mf as int, shape)[k],
        decreases rows.len() - i,
    {
        let n = rows[i].len();
        let mut row: Vec<Option<CellValue>> = Vec::new();
        let mut j: usize = 0;
        while j < n
            invariant
                ml + rows@.len() <= usize::MAX,
                mf + n <= usize::MAX,
                i < rows@.len(),
                j <= n,
                row@.len() == j,
                forall|k: int| 0 <= k < j ==> #[trigger] row@[k] == grid_cell(ts.grid(), ml + i, mf + k),
            decreases n - j,
        {
            let c = ts.get_cell(ml + i, mf + j);
            row.push(match c { Some(v) => Some(*v), None => None });
            j = j + 1;
        }
        assert(row@ =~= block_under(ts.grid(), ml as int, mf as int, shape)[i as int]);
        r.push(row);
        i = i + 1;
    }
    assert(rows_of(r@) =~= block_under(ts.grid(), ml as int, mf as int, shape));
    r
}

/// A block of `nl` × `nf` copies of `v`.
fn uniform(nl: usize, nf: usize, v: Option<CellValue>) -> (r: Vec<Vec<Option<CellValue>>>)
    ensures
        rows_of(r@) == uniform_block(nl as nat, nf as nat, v),
        r@.len() == nl,
        forall|i: int| 0 <= i < nl ==> (#[trigger] r@[i])@.len() == nf,
{
    let mut r: Vec<Vec<Option<CellValue>>> = Vec::new();
    let mut i: usize = 0;
    while i < nl
        invariant
            i <= nl,
            r@.len() == i,
            forall|k: int| 0 <= k < i ==> (#[trigger] r@[k])@ == Seq::new(nf as nat, |j: int| v),
        decreases nl - i,
    {
        let mut row: Vec<Option<CellValue>> = Vec::new();
        let mut j: usize = 0;
        while j < nf
            invariant
                j <= nf,
                row@ == Seq::new(j as nat, |k: int| v),
            decreases nf - j,
        {
            row.push(v);
            j = j + 1;
            assert(row@ =~= Seq::new(j as nat, |k: int| v));
        }
        r.push(row);
        i = i + 1;
    }
    assert(rows_of(r@) =~= uniform_block(nl as nat, nf as nat, v));
    r
}

/// A drawing number as the signed 32-bit value the pattern arithmetic works on.
pub open spec fn signed(x: u32) -> int {
    (x as i32) as int
}

/// A computed drawing number: negative values become 0.
pub open spec fn clamped(x: int) -> u32 {
    if x < 0 { 0 } else { x as u32 }
}

/// Whether consecutive samples all differ by the first difference.
pub open spec fn arithmetic(s: Seq<u32>) -> bool {
    forall|i: int| 2 <= i < s.len() ==> #[trigger] signed(s[i]) - signed(s[i - 1]) == signed(s[1]) - signed(s[0])
}

/// The runs of equal consecutive samples: (value, length) in order.
pub open spec fn runs(s: Seq<u32>) -> Seq<(u32, nat)>
    decreases s.len(),
{
    if s.len() == 0 {
        Seq::empty()
    } else {
        let r = runs(s.drop_last());
        if r.len() > 0 && r.last().0 == s.last() {
            r.update(r.len() - 1, (s.last(), r.last().1 + 1))
        } else {
            r.push((s.last(), 1nat))
        }
    }
}

/// Whether there are at least two runs, their values step by the same difference, and
/// all runs but the last have the same length.
pub open spec fn steady_runs(r: Seq<(u32, nat)>) -> bool {
    &&& r.len() >= 2
    &&& forall|j: int| 0 <= j < r.len() - 1 ==> #[trigger] signed(r[j + 1].0) - signed(r[j].0) == signed(r[1].0) - signed(r[0].0)
    &&& forall|j: int| 0 <= j < r.len() - 1 ==> (#[trigger] r[j]).1 == r[0].1
}

/// Continuing a held pattern: after `k` cells, the current value and how many times it
/// has been written; a value is held `hold` times before stepping by `step`.
pub open spec fn held_state(cur: u32, filled: nat, hold: nat, step: int, k: nat) -> (u32, nat)
    decreases k,
{
    if k == 0 {
        (cur, filled)
    } else {
        let p = held_state(cur, filled, hold, step, (k - 1) as nat);
        if p.1 < hold { (p.0, p.1 + 1) } else { (clamped(signed(p.0) + step), 1nat) }
    }
}

/// The `count` cells that continue the pattern of `s`: nothing without samples; the one
/// sample repeated; an arithmetic progression continued; held runs continued; else the
/// samples repeated in turn.
pub open spec fn smart_sequence(s: Seq<u32>, count: nat) -> Seq<Option<CellValue>> {
    if s.len() == 0 {
        Seq::new(count, |k: int| None::<CellValue>)
    } else if s.len() == 1 {
        Seq::new(count, |k: int| Some(CellValue::Number(s[0])))
    } else if arithmetic(s) {
        let step = signed(s[1]) - signed(s[0]);
        Seq::new(count, |k: int| Some(CellValue::Number(clamped(signed(s.last()) + (k + 1) * step))))
    } else if steady_runs(runs(s)) {
        let r = runs(s);
        let step = signed(r[1].0) - signed(r[0].0);
        Seq::new(count, |k: int| Some(CellValue::Number(held_state(r.last().0, r.last().1, r[0].1, step, (k + 1) as nat).0)))
    } else {
        Seq::new(count, |k: int| Some(CellValue::Number(s[k % (s.len() as int)])))
    }
}

/// Whether continuing the pattern of `s` for `count` cells keeps every computed value
/// within the signed 32-bit range.
pub open spec fn smart_fits(s: Seq<u32>, count: nat) -> bool {
    if s.len() >= 2 && arithmetic(s) {
        forall|k: int| 1 <= k <= count ==> i32::MIN <= #[trigger] (signed(s.last()) + k * (signed(s[1]) - signed(s[0]))) <= i32::MAX
    } else if s.len() >= 2 && steady_runs(runs(s)) {
        let r = runs(s);
        let step = signed(r[1].0) - signed(r[0].0);
        forall|k: nat| k < count && #[trigger] held_state(r.last().0, r.last().1, r[0].1, step, k).1 >= r[0].1
            ==> i32::MIN <= signed(held_state(r.last().0, r.last().1, r[0].1, step, k).0) + step <= i32::MAX
    } else {
        true
    }
}

/// The runs as exec pairs viewed with natural lengths.
pub open spec fn runs_view(v: Seq<(u32, usize)>) -> Seq<(u32, nat)> {
    Seq::new(v.len(), |i: int| (v[i].0, v[i].1 as nat))
}

fn signed_of(x: u32) -> (r: i64)
    ensures
        r == signed(x),
{
    (x as i32) as i64
}

/// Groups `s` into runs of equal values.
fn runs_of(s: &Vec<u32>) -> (r: Vec<(u32, usize)>)
    requires
        s@.len() > 0,
    ensures
        runs_view(r@) == runs(s@),
        forall|j: int| 0 <= j < r@.len() ==> 1 <= (#[trigger] r@[j]).1 <= s@.len(),
{
    let mut groups: Vec<(u32, usize)> = Vec::new();
    let mut cur_val: u32 = s[0];
    let mut cur_cnt: usize = 1;
    assert(s@.take(1).drop_last() =~= Seq::<u32>::empty());
    assert(runs(s@.take(1).drop_last()) =~= Seq::<(u32, nat)>::empty());
    assert(runs(s@.take(1)) =~= seq![(s@[0], 1nat)]);
    let mut i: usize = 1;
    while i < s.len()
        invariant
            1 <= i <= s@.len(),
            runs(s@.take(i as int)) == runs_view(groups@).push((cur_val, cur_cnt as nat)),
            1 <= cur_cnt <= i,
            forall|j: int| 0 <= j < groups@.len() ==> 1 <= (#[trigger] groups@[j]).1 <= i,
        decreases s.len() - i,
    {
        let val = s[i];
        assert(s@.take(i + 1).drop_last() =~= s@.take(i as int));
        if val == cur_val {
            cur_cnt = cur_cnt + 1;
            assert(runs(s@.take(i + 1)) =~= runs_view(groups@).push((cur_val, cur_cnt as nat)));
        } else {
            groups.push((cur_val, cur_cnt));
            cur_val = val;
            cur_cnt = 1;
            assert(runs(s@.take(i + 1)) =~= runs_view(groups@).push((cur_val, cur_cnt as nat)));
        }
        i = i + 1;
    }
    groups.push((cur_val, cur_cnt));
    assert(s@.take(s@.len() as int) =~= s@);
    assert(runs_view(groups@) =~= runs(s@));
    groups
}

/// Continues the pattern of `samples` for `count` cells (see `smart_sequence`).
pub fn generate_smart_sequence(samples: &Vec<u32>, count_to_fill: usize) -> (r: Vec<Option<CellValue>>)
    requires
        smart_fits(samples@, count_to_fill as nat),
    ensures
        r@ == smart_sequence(samples@, count_to_fill as nat),
{
    let ghost s = samples@;
    let n = samples.len();
    let mut result: Vec<Option<CellValue>> = Vec::new();
    if n == 0 {
        let mut k: usize = 0;
        while k < count_to_fill
            invariant
                k <= count_to_fill,
                result@ == Seq::new(k as nat, |j: int| None::<CellValue>),
            decreases count_to_fill - k,
        {
            result.push(None);
            k = k + 1;
            assert(result@ =~= Seq::new(k as nat, |j: int| None::<CellValue>));
        }
        assert(result@ =~= smart_sequence(s, count_to_fill as nat));
        return result;
    }
    if n == 1 {
        let v = samples[0];
        let mut k: usize = 0;
        while k < count_to_fill
            invariant
                k <= count_to_fill,
                result@ == Seq::new(k as nat, |j: int| Some(CellValue::Number(v))),
            decreases count_to_fill - k,
        {
            result.push(Some(CellValue::Number(v)));
            k = k + 1;
            assert(result@ =~= Seq::new(k as nat, |j: int| Some(CellValue::Number(v))));
        }
        assert(result@ =~= smart_sequence(s, count_to_fill as nat));
        return result;
    }
    let step1: i64 = signed_of(samples[1]) - signed_of(samples[0]);
    let mut is_arithmetic = true;
    let mut i: usize = 2;
    while i < n
        invariant
            s == samples@,
            n == s.len(),
            2 <= i <= n,
            step1 == signed(s[1]) - signed(s[0]),
            is_arithmetic == (forall|j: int| 2 <= j < i ==> #[trigger] signed(s[j]) - signed(s[j - 1]) == step1),
        decreases n - i,
    {
        if signed_of(samples[i]) - signed_of(samples[i - 1]) != step1 {
            is_arithmetic = false;
        }
        i = i + 1;
    }
    if is_arithmetic {
        assert(arithmetic(s));
        let last = samples[n - 1];
        let mut current: i64 = signed_of(last);
        let mut k: usize = 0;
        while k < count_to_fill
            invariant
                s == samples@,
                n == s.len(),
                n >= 2,
                arithmetic(s),
                last == s.last(),
                step1 == signed(s[1]) - signed(s[0]),
                smart_fits(s, count_to_fill as nat),
                k <= count_to_fill,
                current == signed(last) + k * step1,
                result@ == Seq::new(k as nat, |j: int| Some(CellValue::Number(clamped(signed(last) + (j + 1) * step1)))),
            decreases count_to_fill - k,
        {
            assert(signed(last) + (k + 1) * step1 == signed(last) + k * step1 + step1) by (nonlinear_arith);
            assert(i32::MIN <= signed(s.last()) + (k + 1) * (signed(s[1]) - signed(s[0])) <= i32::MAX);
            current = current + step1;
            let v: u32 = if current < 0 { 0 } else { current as u32 };
            result.push(Some(CellValue::Number(v)));
            k = k + 1;
            assert(result@ =~= Seq::new(k as nat, |j: int| Some(CellValue::Number(clamped(signed(last) + (j + 1) * step1)))));
        }
        assert(result@ =~= smart_sequence(s, count_to_fill as nat));
        return result;
    }
    assert(!arithmetic(s)) by {
        let j = choose|j: int| 2 <= j < i && !(#[trigger] signed(s[j]) - signed(s[j - 1]) == step1);
        assert(2 <= j < s.len() && signed(s[j]) - signed(s[j - 1]) != signed(s[1]) - signed(s[0]));
    }
    let groups = runs_of(samples);
    let ghost r = runs(s);
    let gl = groups.len();
    if gl >= 2 {
        let step: i64 = signed_of(groups[1].0) - signed_of(groups[0].0);
        let hold: usize = groups[0].1;
        let mut consistent = true;
        let mut j: usize = 0;
        while j + 1 < gl
            invariant
                runs_view(groups@) == r,
                gl == groups@.len(),
                gl >= 2,
                j + 1 <= gl,
                step == signed(r[1].0) - signed(r[0].0),
                hold as nat == r[0].1,
                consistent == (forall|q: int| #![trigger r[q]] 0 <= q < j ==> signed(r[q + 1].0) - signed(r[q].0) == step
                    && r[q].1 == hold as nat),
            decreases gl - j,
        {
            assert(runs_view(groups@)[j as int] == (groups@[j as int].0, groups@[j as int].1 as nat));
            assert(runs_view(groups@)[j + 1] == (groups@[j + 1].0, groups@[j + 1].1 as nat));
            if signed_of(groups[j + 1].0) - signed_of(groups[j].0) != step || groups[j].1 != hold {
                consistent = false;
            }
            j = j + 1;
        }
        if consistent {
            assert(steady_runs(r)) by {
                assert forall|q: int| 0 <= q < r.len() - 1 implies #[trigger] signed(r[q + 1].0) - signed(r[q].0) == signed(r[1].0) - signed(r[0].0) by {
                    assert(signed(r[q + 1].0) - signed(r[q].0) == step && r[q].1 == hold as nat);
                }
                assert forall|q: int| 0 <= q < r.len() - 1 implies (#[trigger] r[q]).1 == r[0].1 by {
                    assert(signed(r[q + 1].0) - signed(r[q].0) == step && r[q].1 == hold as nat);
                }
            }
            assert(runs_view(groups@)[gl - 1] == (groups@[gl - 1].0, groups@[gl - 1].1 as nat));
            let mut current: u32 = groups[gl - 1].0;
            let mut filled: usize = groups[gl - 1].1;
            let ghost c0 = current;
            let ghost f0 = filled as nat;
            assert(hold <= s.len() && filled <= s.len());
            assert(c0 == r.last().0 && f0 == r.last().1);
            let mut k: usize = 0;
            while k < count_to_fill
                invariant
                    s == samples@,
                    s.len() >= 2,
                    !arithmetic(s),
                    r == runs(s),
                    steady_runs(r),
                    c0 == r.last().0,
                    f0 == r.last().1,
                    step == signed(r[1].0) - signed(r[0].0),
                    hold as nat == r[0].1,
                    smart_fits(s, count_to_fill as nat),
                    k <= count_to_fill,
                    (current, filled as nat) == held_state(c0, f0, hold as nat, step as int, k as nat),
                    filled <= s.len(),
                    hold <= s.len(),
                    result@ == Seq::new(k as nat, |q: int| Some(CellValue::Number(held_state(c0, f0, hold as nat, step as int, (q + 1) as nat).0))),
                decreases count_to_fill - k,
            {
                if filled < hold {
                    filled = filled + 1;
                } else {
                    assert(held_state(c0, f0, hold as nat, step as int, k as nat).1 >= r[0].1);
                    let next: i64 = signed_of(current) + step;
                    current = if next < 0 { 0 } else { next as u32 };
                    filled = 1;
                }
                result.push(Some(CellValue::Number(current)));
                k = k + 1;
                assert(result@ =~= Seq::new(k as nat, |q: int| Some(CellValue::Number(held_state(c0, f0, hold as nat, step as int, (q + 1) as nat).0))));
            }
            assert(result@ =~= smart_sequence(s, count_to_fill as nat));
            return result;
        } else {
            assert(!steady_runs(r)) by {
                let q = choose|q: int| #![trigger r[q]] 0 <= q < j && !(signed(r[q + 1].0) - signed(r[q].0) == step && r[q].1 == hold as nat);
                if signed(r[q + 1].0) - signed(r[q].0) == step {
                    assert(r[q].1 != r[0].1);
                }
            }
        }
    }
    let mut k: usize = 0;
    while k < count_to_fill
        invariant
            s == samples@,
            n == s.len(),
            n >= 2,
            k <= count_to_fill,
            result@ == Seq::new(k as nat, |q: int| Some(CellValue::Number(s[q % (n as int)]))),
        decreases count_to_fill - k,
    {
        result.push(Some(CellValue::Number(samples[k % n])));
        k = k + 1;
        assert(result@ =~= Seq::new(k as nat, |q: int| Some(CellValue::Number(s[q % (n as int)]))));
    }
    assert(result@ =~= smart_sequence(s, count_to_fill as nat));
    result
}

/// The resolved values present among the `n` frames of layer `l` from frame `a`, in order.
pub open spec fn present_values(g: Seq<Seq<Option<CellValue>>>, l: int, a: int, n: nat) -> Seq<u32>
    decreases n,
{
    if n == 0 {
        Seq::empty()
    } else {
        let p = present_values(g, l, a, (n - 1) as nat);
        match resolved(g, l, a + n - 1) {
            Some(v) => p.push(v),
            None => p,
        }
    }
}

/// The last frame among the `n` frames of layer `l` from frame `a` that holds a cell.
pub open spec fn last_filled(g: Seq<Seq<Option<CellValue>>>, l: int, a: int, n: nat) -> Option<int>
    decreases n,
{
    if n == 0 {
        None
    } else if grid_cell(g, l, a + n - 1) is Some {
        Some(a + n - 1)
    } else {
        last_filled(g, l, a, (n - 1) as nat)
    }
}

/// Whether continuing each layer's pattern for a fill-handle drag stays in range.
pub open spec fn fill_fits(g: Seq<Seq<Option<CellValue>>>, ml: usize, xl: usize, smf: usize, sxf: usize, fe: usize) -> bool {
    forall|l: int| ml <= l <= xl ==> smart_fits(
        #[trigger] present_values(g, l, smf as int, frames_between(smf, sxf)), (fe - sxf) as nat)
}

/// The number of frames from `a` through `b` (none when `b < a`).
pub open spec fn frames_between(a: usize, b: usize) -> nat {
    if a <= b { (b - a + 1) as nat } else { 0 }
}

proof fn lemma_present_values_len(g: Seq<Seq<Option<CellValue>>>, l: int, a: int, n: nat)
    ensures
        present_values(g, l, a, n).len() <= n,
        present_values(g, l, a, n).len() > 0 ==> last_filled(g, l, a, n) is Some,
        last_filled(g, l, a, n) matches Some(f) ==> a <= f < a + n,
    decreases n,
{
    if n > 0 {
        lemma_present_values_len(g, l, a, (n - 1) as nat);
    }
}

/// The `n` cells of layer `l` from frame `a`.
pub open spec fn column(g: Seq<Seq<Option<CellValue>>>, l: int, a: int, n: nat) -> Seq<Option<CellValue>> {
    Seq::new(n, |j: int| grid_cell(g, l, a + j))
}

/// Whether one of the `n` cells of layer `l` from frame `a` holds a value.
pub open spec fn has_data(g: Seq<Seq<Option<CellValue>>>, l: int, a: int, n: nat) -> bool {
    exists|j: int| 0 <= j < n && (#[trigger] grid_cell(g, l, a + j)) is Some
}

/// The first of the `n` frames of layer `l` from frame `a` whose cell is empty.
pub open spec fn first_empty(g: Seq<Seq<Option<CellValue>>>, l: int, a: int, n: nat) -> Option<int>
    decreases n,
{
    if n == 0 {
        None
    } else {
        match first_empty(g, l, a, (n - 1) as nat) {
            Some(e) => Some(e),
            None => if grid_cell(g, l, a + n - 1) is None { Some(a + n - 1) } else { None },
        }
    }
}

proof fn lemma_first_empty(g: Seq<Seq<Option<CellValue>>>, l: int, a: int, n: nat)
    ensures
        first_empty(g, l, a, n) matches Some(e) ==> a <= e < a + n && grid_cell(g, l, e) is None
            && forall|j: int| a <= j < e ==> (#[trigger] grid_cell(g, l, j)) is Some,
        first_empty(g, l, a, n) is None ==> forall|j: int| a <= j < a + n ==> (#[trigger] grid_cell(g, l, j)) is Some,
    decreases n,
{
    if n > 0 {
        lemma_first_empty(g, l, a, (n - 1) as nat);
    }
}

/// The values that a sequence fill writes: `sv` towards `ev`, each held `h` frames.
pub open spec fn sequence_values(sv: u32, ev: u32, h: u32, n: nat) -> Seq<Option<CellValue>> {
    Seq::new(n, |k: int| Some(CellValue::Number(
        if ev >= sv { (sv + k / (h as int)) as u32 } else { (sv - k / (h as int)) as u32 })))
}

/// The cells of a source run repeated in turn for `n` frames.
pub open spec fn repeated(src: Seq<Option<CellValue>>, n: nat) -> Seq<Option<CellValue>> {
    Seq::new(n, |k: int| src[k % (src.len() as int)])
}

/// The smaller of two numbers.
pub open spec fn min_nat(a: nat, b: nat) -> nat {
    if a < b { a } else { b }
}

/// The cells of layer `l` from frame `a`.
fn column_cells(ts: &TimeSheet, l: usize, a: usize, n: usize) -> (r: Vec<Option<CellValue>>)
    requires
        a + n <= usize::MAX,
    ensures
        r@ == column(ts.grid(), l as int, a as int, n as nat),
{
    let mut r: Vec<Option<CellValue>> = Vec::new();
    let mut j: usize = 0;
    while j < n
        invariant
            a + n <= usize::MAX,
            j <= n,
            r@ == column(ts.grid(), l as int, a as int, j as nat),
        decreases n - j,
    {
        let c = ts.get_cell(l, a + j);
        r.push(match c { Some(v) => Some(*v), None => None });
        j = j + 1;
        assert(r@ =~= column(ts.grid(), l as int, a as int, j as nat));
    }
    r
}

/// `v` in reverse order.
fn reversed_cells(v: &Vec<Option<CellValue>>) -> (r: Vec<Option<CellValue>>)
    ensures
        r@ == v@.reverse(),
{
    let mut r: Vec<Option<CellValue>> = Vec::new();
    let mut k: usize = v.len();
    while k > 0
        invariant
            k <= v@.len(),
            r@ == v@.subrange(k as int, v@.len() as int).reverse(),
        decreases k,
    {
        k = k - 1;
        r.push(v[k]);
        assert(r@ =~= v@.subrange(k as int, v@.len() as int).reverse());
    }
    assert(v@.subrange(0, v@.len() as int) =~= v@);
    r
}

/// What reversing the selected frames `sf..=ef` of layer `l` writes: the first frame
/// written, the cells, and whether they are written even when equal to what is there.
/// `None` when there is nothing to mirror.
pub open spec fn reverse_plan(g: Seq<Seq<Option<CellValue>>>, l: int, sf: int, ef: int)
    -> Option<(int, Seq<Option<CellValue>>, bool)>
{
    let n = (ef - sf + 1) as nat;
    if has_data(g, l, sf, n) {
        match first_empty(g, l, sf, n) {
            Some(e) => {
                let src = column(g, l, sf, (e - sf) as nat).reverse();
                Some((e, src.take(min_nat((ef - e + 1) as nat, src.len()) as int), true))
            },
            None => Some((sf, column(g, l, sf, n).reverse(), false)),
        }
    } else {
        let up = upward_run(g, l, sf);
        if up.len() == 0 {
            None
        } else {
            let src = Seq::new(up.len(), |i: int| Some(CellValue::Number(up[up.len() - 1 - i])));
            Some((sf, src.take(min_nat(n, src.len()) as int), false))
        }
    }
}

/// The first `k` cells of `v`.
fn take_cells(v: &Vec<Option<CellValue>>, k: usize) -> (r: Vec<Option<CellValue>>)
    requires
        k <= v@.len(),
    ensures
        r@ == v@.take(k as int),
{
    let mut r: Vec<Option<CellValue>> = Vec::new();
    let mut i: usize = 0;
    while i < k
        invariant
            i <= k <= v@.len(),
            r@ == v@.take(i as int),
        decreases k - i,
    {
        r.push(v[i]);
        i = i + 1;
        assert(r@ =~= v@.take(i as int));
    }
    r
}

/// How one copied cell is written: its shown number, "-", or nothing.
pub open spec fn cell_text(lt: LayerType, c: Option<CellValue>) -> Seq<char> {
    match c {
        Some(CellValue::Number(n)) => formatted(lt, n),
        Some(CellValue::Same) => seq!['-'],
        None => Seq::empty(),
    }
}

/// A copied run of cells: their texts separated by tabs.
pub open spec fn row_text(lt: LayerType, cells: Seq<Option<CellValue>>) -> Seq<char>
    decreases cells.len(),
{
    if cells.len() == 0 {
        Seq::empty()
    } else if cells.len() == 1 {
        cell_text(lt, cells[0])
    } else {
        row_text(lt, cells.drop_last()) + seq!['\t'] + cell_text(lt, cells.last())
    }
}

/// The frames among the `n` from frame `a` of layer `l` whose cells hold a number, with
/// their numbers, in order.
pub open spec fn numbered(g: Seq<Seq<Option<CellValue>>>, l: int, a: int, n: nat) -> Seq<(usize, u32)>
    decreases n,
{
    if n == 0 {
        Seq::empty()
    } else {
        let p = numbered(g, l, a, (n - 1) as nat);
        match grid_cell(g, l, a + n - 1) {
            Some(CellValue::Number(v)) => p.push(((a + n - 1) as usize, v)),
            _ => p,
        }
    }
}

/// Filling the `k` frames after keyframe frame `f1` of layer `l` with interpolated values
/// `vals`, where `prev` is the value last written: an empty cell gets the value when it
/// differs from the previous one and "-" otherwise; a filled cell is kept and its resolved
/// value becomes the previous one. Gives the grid and the previous value after them.
pub open spec fn tween_gap(g: Seq<Seq<Option<CellValue>>>, l: int, f1: int, prev: u32, vals: Seq<u32>, k: nat)
    -> (Seq<Seq<Option<CellValue>>>, u32)
    decreases k,
{
    if k == 0 {
        (g, prev)
    } else {
        let q = tween_gap(g, l, f1, prev, vals, (k - 1) as nat);
        let f = f1 + k;
        if grid_cell(q.0, l, f) is None {
            if vals[k - 1] != q.1 {
                (grid_with(q.0, l, f, Some(CellValue::Number(vals[k - 1]))), vals[k - 1])
            } else {
                (grid_with(q.0, l, f, Some(CellValue::Same)), q.1)
            }
        } else {
            (q.0, match resolved(q.0, l, f) { Some(v) => v, None => q.1 })
        }
    }
}

/// The grid after filling the gaps between the first `w + 1` keyframes.
pub open spec fn tween_grid(g: Seq<Seq<Option<CellValue>>>, l: int, keys: Seq<(usize, u32)>, values: Seq<Seq<u32>>, w: nat)
    -> Seq<Seq<Option<CellValue>>>
    decreases w,
{
    if w == 0 {
        g
    } else {
        let g1 = tween_grid(g, l, keys, values, (w - 1) as nat);
        tween_gap(g1, l, keys[w - 1].0 as int, keys[w - 1].1, values[w - 1],
            (keys[w as int].0 - keys[w - 1].0 - 1) as nat).0
    }
}

/// Keyframes in strictly increasing frame order, below the end of the index range, with an
/// interpolated value for every frame strictly between consecutive keyframes.
pub open spec fn tween_shape(keys: Seq<(usize, u32)>, values: Seq<Seq<u32>>) -> bool {
    &&& keys.len() >= 1
    &&& values.len() == keys.len() - 1
    &&& forall|w: int| 0 <= w < keys.len() - 1 ==> (#[trigger] keys[w]).0 < keys[w + 1].0
    &&& forall|w: int| 0 <= w < keys.len() ==> (#[trigger] keys[w]).0 + 1 < usize::MAX
    &&& forall|w: int| 0 <= w < values.len() ==> (#[trigger] values[w]).len() == keys[w + 1].0 - keys[w].0 - 1
}

/// Filling one gap changes only empty cells of layer `l` after frame `f1`, up to `f1 + k`.
proof fn lemma_tween_gap_only_empty(g: Seq<Seq<Option<CellValue>>>, l: int, f1: int, prev: u32, vals: Seq<u32>, k: nat, l2: int, f2: int)
    requires
        f1 >= -1,
    ensures
        tween_gap(g, l, f1, prev, vals, k).0.len() == g.len(),
        grid_cell(tween_gap(g, l, f1, prev, vals, k).0, l2, f2) != grid_cell(g, l2, f2)
            ==> l2 == l && f1 < f2 <= f1 + k && grid_cell(g, l2, f2) is None,
    decreases k,
{
    if k > 0 {
        lemma_tween_gap_only_empty(g, l, f1, prev, vals, (k - 1) as nat, l2, f2);
        lemma_tween_gap_only_empty(g, l, f1, prev, vals, (k - 1) as nat, l, f1 + k);
        let q = tween_gap(g, l, f1, prev, vals, (k - 1) as nat);
        let f = f1 + k;
        if grid_cell(q.0, l, f) is None {
            lemma_read_after_write(q.0, l, f, Some(CellValue::Number(vals[k - 1])), l2, f2);
            lemma_read_after_write(q.0, l, f, Some(CellValue::Same), l2, f2);
        }
    }
}

/// Interpolating between keyframes changes only empty cells of layer `l` strictly between
/// the first and the last keyframe used: numbered and "-" cells stay as they were.
pub proof fn lemma_tween_fills_gaps_only(g: Seq<Seq<Option<CellValue>>>, l: int, keys: Seq<(usize, u32)>,
    values: Seq<Seq<u32>>, w: nat, l2: int, f2: int)
    requires
        tween_shape(keys, values),
        w < keys.len(),
    ensures
        tween_grid(g, l, keys, values, w).len() == g.len(),
        grid_cell(tween_grid(g, l, keys, values, w), l2, f2) != grid_cell(g, l2, f2)
            ==> l2 == l && keys[0].0 < f2 < keys[w as int].0 && grid_cell(g, l2, f2) is None,
    decreases w,
{
    if w > 0 {
        let w1 = (w - 1) as nat;
        lemma_tween_fills_gaps_only(g, l, keys, values, w1, l2, f2);
        let g1 = tween_grid(g, l, keys, values, w1);
        let k = (keys[w as int].0 - keys[w1 as int].0 - 1) as nat;
        assert(keys[w1 as int].0 < keys[w as int].0);
        lemma_tween_gap_only_empty(g1, l, keys[w1 as int].0 as int, keys[w1 as int].1, values[w1 as int], k, l2, f2);
        if w1 > 0 {
            lemma_keys_ascending(keys, values, 0, w1 as int);
        }
    }
}

proof fn lemma_keys_ascending(keys: Seq<(usize, u32)>, values: Seq<Seq<u32>>, i: int, j: int)
    requires
        tween_shape(keys, values),
        0 <= i <= j < keys.len(),
    ensures
        keys[i].0 <= keys[j].0,
    decreases j - i,
{
    if i < j {
        lemma_keys_ascending(keys, values, i, j - 1);
        assert(keys[j - 1].0 < keys[j].0);
    }
}

proof fn lemma_present_values_empty(g: Seq<Seq<Option<CellValue>>>, l: int, a: int, n: nat, f: int)
    requires
        present_values(g, l, a, n).len() == 0,
        a <= f < a + n,
    ensures
        resolved(g, l, f) is None,
    decreases n,
{
    if f < a + n - 1 {
        lemma_present_values_empty(g, l, a, (n - 1) as nat, f);
    }
}

proof fn lemma_last_filled_some(g: Seq<Seq<Option<CellValue>>>, l: int, a: int, n: nat)
    ensures
        present_values(g, l, a, n).len() > 0 ==> last_filled(g, l, a, n) is Some,
        last_filled(g, l, a, n) matches Some(x) ==> a <= x < a + n,
    decreases n,
{
    if n > 0 {
        lemma_last_filled_some(g, l, a, (n - 1) as nat);
        if grid_cell(g, l, a + n - 1) is None {
            assert(resolved(g, l, a + n - 1) is None);
        }
    }
}

proof fn lemma_last_filled_after(g: Seq<Seq<Option<CellValue>>>, l: int, a: int, n: nat, f: int)
    requires
        a <= f < a + n,
    ensures
        last_filled(g, l, a, n) matches Some(x) ==> (x < f ==> grid_cell(g, l, f) is None),
        last_filled(g, l, a, n) is None ==> grid_cell(g, l, f) is None,
    decreases n,
{
    if f < a + n - 1 {
        lemma_last_filled_after(g, l, a, (n - 1) as nat, f);
        lemma_last_filled_some(g, l, a, (n - 1) as nat);
    }
}

/// Continuing the pattern in frames `start..=end` of layer `l` (as `smart_fill_pattern`
/// does) changes only cells of that layer in that range which hold no number.
pub proof fn lemma_pattern_fills_unnumbered_only(g: Seq<Seq<Option<CellValue>>>, l: int, start: usize, end: usize, l2: int, f2: int)
    requires
        start <= end,
        l >= 0,
    ensures
        ({
            let p = present_values(g, l, start as int, frames_between(start, end));
            let s = if p.len() > 0 { p } else { upward_run(g, l, start as int) };
            let fs = if p.len() > 0 { last_filled(g, l, start as int, frames_between(start, end))->Some_0 + 1 } else { start as int };
            let n = (end - fs + 1) as nat;
            fs <= end ==> (grid_cell(write_rows(g, l, fs, seq![smart_sequence(s, n)], 1), l2, f2) != grid_cell(g, l2, f2)
                ==> l2 == l && start <= f2 <= end && !(grid_cell(g, l2, f2) is Some && grid_cell(g, l2, f2)->Some_0 is Number))
        }),
{
    let nb = frames_between(start, end);
    let p = present_values(g, l, start as int, nb);
    let s = if p.len() > 0 { p } else { upward_run(g, l, start as int) };
    let fs = if p.len() > 0 { last_filled(g, l, start as int, nb)->Some_0 + 1 } else { start as int };
    let n = (end - fs + 1) as nat;
    lemma_last_filled_some(g, l, start as int, nb);
    if fs <= end {
        let rows = seq![smart_sequence(s, n)];
        assert(smart_sequence(s, n).len() == n);
        lemma_write_rows(g, l, fs, rows, 1, l2, f2);
        if grid_cell(write_rows(g, l, fs, rows, 1), l2, f2) != grid_cell(g, l2, f2) {
            assert(l2 == l && fs <= f2 <= end);
            if p.len() > 0 {
                lemma_last_filled_after(g, l, start as int, nb, f2);
            } else {
                lemma_present_values_empty(g, l, start as int, nb, f2);
            }
        }
    }
}

/// A fill-handle drag (as `apply_smart_fill` writes it) changes only cells of the source
/// layers `ml..=xl` in the new frames `sxf + 1..=fe`.
pub proof fn lemma_fill_drag_bounds(g: Seq<Seq<Option<CellValue>>>, ml: usize, xl: usize, smf: usize, sxf: usize, fe: usize,
    l: int, f: int)
    requires
        sxf < fe,
    ensures
        ({
            let rows = Document::smart_fill_rows(g, ml, xl, smf, sxf, fe);
            grid_cell(write_rows(g, ml as int, sxf + 1, rows, rows.len()), l, f) != grid_cell(g, l, f)
                ==> ml <= l <= xl && sxf + 1 <= f <= fe
        }),
{
    let rows = Document::smart_fill_rows(g, ml, xl, smf, sxf, fe);
    lemma_write_rows(g, ml as int, sxf + 1, rows, rows.len(), l, f);
    if ml <= l < ml + rows.len() {
        let i = l - ml;
        assert(rows[i] == smart_sequence(present_values(g, ml + i, smf as int, frames_between(smf, sxf)), (fe - sxf) as nat));
        assert(rows[i].len() == fe - sxf);
    }
}

/// The cells of a motion curve (see `Document::curve_cells`): every frame holds something;
/// "-" stands exactly where the drawing repeats the one before, so each frame stands for
/// `start_val` plus its offset; and with every offset at most `m`, every number lies in
/// `start_val..=start_val + m`.
pub proof fn lemma_curve_cells(start_val: u32, offsets: Seq<u32>, m: u32, i: int)
    requires
        forall|k: int| 0 <= k < offsets.len() ==> start_val + #[trigger] offsets[k] <= u32::MAX,
        0 <= i < offsets.len(),
    ensures
        Document::curve_cells(start_val, offsets)[i] is Some,
        i > 0 ==> (Document::curve_cells(start_val, offsets)[i] == Some(CellValue::Same) <==> offsets[i] == offsets[i - 1]),
        resolved(seq![Document::curve_cells(start_val, offsets)], 0, i) == Some((start_val + offsets[i]) as u32),
        (forall|k: int| 0 <= k < offsets.len() ==> #[trigger] offsets[k] <= m)
            ==> (Document::curve_cells(start_val, offsets)[i] matches Some(CellValue::Number(v))
                ==> start_val <= v <= start_val + m),
    decreases i,
{
    let c = Document::curve_cells(start_val, offsets);
    assert(grid_cell(seq![c], 0, i) == c[i]);
    if i > 0 {
        lemma_curve_cells(start_val, offsets, m, i - 1);
    }
}

/// Whether `s` holds no tab, line feed or carriage return.
pub open spec fn single_field(s: Seq<char>) -> bool {
    forall|k: int| 0 <= k < s.len() ==> #[trigger] s[k] != '\t' && s[k] != '\n' && s[k] != '\r'
}

/// The text a cell is copied as reads back, when pasted, as the same cell.
pub proof fn lemma_cell_text_read_back(lt: LayerType, c: Option<CellValue>)
    ensures
        clipboard_cell(cell_text(lt, c)) == c,
        single_field(cell_text(lt, c)),
{
    match c {
        Some(CellValue::Number(v)) => {
            if lt == LayerType::Pan && 1 <= v <= 26 {
                let ch = (64 + v) as char;
                assert(ch as u32 == 64 + v);
                lemma_trimmed_unchanged(seq![ch]);
                assert(!all_digits(seq![ch]));
            } else {
                lemma_decimal_digits_read_back(v as nat);
                let d = decimal_digits(v as nat);
                assert('0' <= d[0] <= '9');
                assert(d != seq!['-']);
                assert forall|k: int| 0 <= k < d.len() implies #[trigger] d[k] != '\t' && d[k] != '\n' && d[k] != '\r' by {
                    assert('0' <= d[k] <= '9');
                }
            }
        },
        Some(CellValue::Same) => {
            lemma_trimmed_unchanged(seq!['-']);
        },
        None => {
            assert(lead_ws(Seq::<char>::empty()) == 0);
        },
    }
}

/// A copied run of cells splits at its tabs into the texts of its cells.
proof fn lemma_row_text_split(lt: LayerType, cells: Seq<Option<CellValue>>)
    requires
        cells.len() >= 1,
    ensures
        split_seq(row_text(lt, cells), '\t') == Seq::new(cells.len(), |j: int| cell_text(lt, cells[j])),
        forall|k: int| 0 <= k < row_text(lt, cells).len() ==> #[trigger] row_text(lt, cells)[k] != '\n'
            && row_text(lt, cells)[k] != '\r',
        cells.len() >= 2 ==> row_text(lt, cells).len() > 0,
    decreases cells.len(),
{
    lemma_cell_text_read_back(lt, cells.last());
    let last = cell_text(lt, cells.last());
    if cells.len() == 1 {
        lemma_split_no_sep(last, '\t');
        assert(seq![last] =~= Seq::new(cells.len(), |j: int| cell_text(lt, cells[j])));
    } else {
        let front = cells.drop_last();
        lemma_row_text_split(lt, front);
        lemma_split_append(row_text(lt, front), last, '\t');
        assert(Seq::new(front.len(), |j: int| cell_text(lt, front[j])).push(last)
            =~= Seq::new(cells.len(), |j: int| cell_text(lt, cells[j])));
        let r = row_text(lt, cells);
        assert forall|k: int| 0 <= k < r.len() implies #[trigger] r[k] != '\n' && r[k] != '\r' by {
            let a = row_text(lt, front);
            if k < a.len() {
                assert(r[k] == a[k]);
            } else if k > a.len() {
                assert(r[k] == last[k - a.len() - 1]);
            }
        }
    }
}

impl Document {
    /// The copied text splits at its line feeds into one line per layer.
    proof fn lemma_copy_text_lines(&self, ml: int, mf: int, nl: nat, nf: nat)
        requires
            nl >= 1,
            nf >= 1,
        ensures
            split_seq(self.copy_text(ml, mf, nl, nf), '\n') == Seq::new(nl, |i: int|
                row_text(self.layer_type_of((ml + i) as usize), column(self.timesheet.grid(), ml + i, mf, nf))),
        decreases nl,
    {
        let lines = Seq::new(nl, |i: int|
            row_text(self.layer_type_of((ml + i) as usize), column(self.timesheet.grid(), ml + i, mf, nf)));
        let line = lines[nl - 1];
        lemma_row_text_split(self.layer_type_of((ml + nl - 1) as usize), column(self.timesheet.grid(), ml + nl - 1, mf, nf));
        if nl == 1 {
            lemma_split_no_sep(line, '\n');
            assert(seq![line] =~= lines);
        } else {
            self.lemma_copy_text_lines(ml, mf, (nl - 1) as nat, nf);
            lemma_split_append(self.copy_text(ml, mf, (nl - 1) as nat, nf), line, '\n');
            assert(Seq::new((nl - 1) as nat, |i: int|
                row_text(self.layer_type_of((ml + i) as usize), column(self.timesheet.grid(), ml + i, mf, nf))).push(line)
                =~= lines);
        }
    }
}

/// Pasting the text that copying a block gives reads back that block's cells: a row per
/// layer and a cell per frame (numbers shown as letters on pan layers read back as their
/// numbers). This needs the text not to end in an empty line: a block more than one frame
/// long, or one whose last layer's cell is filled.
pub proof fn lemma_copy_paste_round_trip(d: Document, ml: int, mf: int, nl: nat, nf: nat)
    requires
        nl >= 1,
        nf >= 1,
        nf >= 2 || grid_cell(d.timesheet.grid(), ml + nl - 1, mf) is Some,
    ensures
        clipboard_rows(d.copy_text(ml, mf, nl, nf)) == block_of(d.timesheet.grid(), ml, mf, nl, nf),
{
    let g = d.timesheet.grid();
    let text = d.copy_text(ml, mf, nl, nf);
    d.lemma_copy_text_lines(ml, mf, nl, nf);
    let p = split_seq(text, '\n');
    let lt_last = d.layer_type_of((ml + nl - 1) as usize);
    let last = row_text(lt_last, column(g, ml + nl - 1, mf, nf));
    lemma_row_text_split(lt_last, column(g, ml + nl - 1, mf, nf));
    if nf == 1 {
        let c = column(g, ml + nl - 1, mf, nf);
        assert(c[0] == grid_cell(g, ml + nl - 1, mf));
        assert(last == cell_text(lt_last, c[0]));
    }
    assert(last.len() > 0);
    assert(text.len() > 0 && text.last() == last.last()) by {
        if nl > 1 {
            let a = d.copy_text(ml, mf, (nl - 1) as nat, nf);
            assert(text == a + seq!['\n'] + last);
            assert(text[text.len() - 1] == last[last.len() - 1]);
        }
    }
    let lines = lines_seq(text);
    assert forall|i: int| 0 <= i < nl implies #[trigger] lines[i] == p[i] by {
        let li = row_text(d.layer_type_of((ml + i) as usize), column(g, ml + i, mf, nf));
        lemma_row_text_split(d.layer_type_of((ml + i) as usize), column(g, ml + i, mf, nf));
        if li.len() > 0 {
            assert(li.last() == li[li.len() - 1]);
        }
    }
    assert forall|i: int| 0 <= i < nl implies #[trigger] clipboard_rows(text)[i] == block_of(g, ml, mf, nl, nf)[i] by {
        let lt = d.layer_type_of((ml + i) as usize);
        let col = column(g, ml + i, mf, nf);
        lemma_row_text_split(lt, col);
        assert forall|j: int| 0 <= j < nf implies clipboard_cell(#[trigger] cell_text(lt, col[j])) == col[j] by {
            lemma_cell_text_read_back(lt, col[j]);
        }
        assert(clipboard_rows(text)[i] =~= block_of(g, ml, mf, nl, nf)[i]);
    }
    assert(clipboard_rows(text) =~= block_of(g, ml, mf, nl, nf));
}

/// Whether continuing the pattern in frames `start..=end` of layer `layer` (as
/// `smart_fill_pattern` does) keeps every computed value within the signed 32-bit range.
pub open spec fn pattern_fits(g: Seq<Seq<Option<CellValue>>>, layer: usize, start: usize, end: usize) -> bool {
    let p = present_values(g, layer as int, start as int, frames_between(start, end));
    let s = if p.len() > 0 { p } else { upward_run(g, layer as int, start as int) };
    let fs = if p.len() > 0 { last_filled(g, layer as int, start as int, frames_between(start, end))->Some_0 + 1 } else { start as int };
    fs <= end ==> smart_fits(s, (end - fs + 1) as nat)
}

/// The numbered cells among `n` frames from `a` lie in those frames, in strictly increasing
/// order, each holding its number.
proof fn lemma_numbered_props(g: Seq<Seq<Option<CellValue>>>, l: int, a: int, n: nat)
    requires
        a >= 0,
        a + n <= usize::MAX,
    ensures
        forall|w: int| 0 <= w < numbered(g, l, a, n).len() ==> a <= (#[trigger] numbered(g, l, a, n)[w]).0 < a + n
            && grid_cell(g, l, numbered(g, l, a, n)[w].0 as int) == Some(CellValue::Number(numbered(g, l, a, n)[w].1)),
        forall|w: int| 0 <= w < numbered(g, l, a, n).len() - 1
            ==> (#[trigger] numbered(g, l, a, n)[w]).0 < numbered(g, l, a, n)[w + 1].0,
    decreases n,
{
    if n > 0 {
        lemma_numbered_props(g, l, a, (n - 1) as nat);
        let p = numbered(g, l, a, (n - 1) as nat);
        let q = numbered(g, l, a, n);
        match grid_cell(g, l, a + n - 1) {
            Some(CellValue::Number(v)) => {
                assert(q == p.push(((a + n - 1) as usize, v)));
                assert forall|w: int| 0 <= w < q.len() - 1 implies (#[trigger] q[w]).0 < q[w + 1].0 by {
                    if w < p.len() - 1 {
                        assert(q[w] == p[w] && q[w + 1] == p[w + 1]);
                    } else {
                        assert(q[w] == p[w]);
                    }
                }
                assert forall|w: int| 0 <= w < q.len() implies a <= (#[trigger] q[w]).0 < a + n
                    && grid_cell(g, l, q[w].0 as int) == Some(CellValue::Number(q[w].1)) by {
                    if w < p.len() {
                        assert(q[w] == p[w]);
                    }
                }
            },
            _ => {
                assert(q == p);
            },
        }
    }
}

/// What smart fill does with a single-layer selection.
pub enum SmartFillPlan {
    /// Interpolate between the numbered cells (`keyframes`, frame and number, in order)
    /// of frames `start_frame..=end_frame` of `layer`
    Tween { layer: usize, start_frame: usize, end_frame: usize, keyframes: Vec<(usize, u32)> },
    /// Continue the pattern (see `smart_fill_pattern`)
    Pattern { layer: usize, start_frame: usize, end_frame: usize },
}

/// A key of the grid's keyboard handling while no cell is being edited.
#[derive(Clone, Copy, PartialEq, Eq, Debug, Structural)]
pub enum GridKey {
    /// Arrow up: one frame back
    Up,
    /// Arrow down: one frame on
    Down,
    /// Arrow left: one layer back
    Left,
    /// Arrow right: one layer on
    Right,
    /// Enter: edit the selected cell
    Enter,
}

/// Whether `c` is a printable ASCII character other than space (`char::is_ascii_graphic`).
pub open spec fn is_graphic(c: char) -> bool {
    0x21 <= (c as u32) && (c as u32) <= 0x7e
}

/// What was typed into a cell, as finishing an edit reads it.
#[derive(Clone, Copy, PartialEq, Eq, Debug, Structural)]
pub enum EditInput {
    /// Nothing was typed: take the cell above
    InheritAbove,
    /// An operator and an operand: apply the operation to each cell's resolved value
    Operation,
    /// A value to write
    Direct(CellValue),
    /// Text that reads as nothing
    Unreadable,
}

/// How typed text reads, given how its floating-point forms read: empty text inherits;
/// an operator first is an operation when the rest reads as a number (`operand_reads`);
/// otherwise an evaluated `a op b` expression (`expression_value`), else the text as a
/// cell input on a layer of type `lt`.
pub open spec fn edit_input(text: Seq<char>, lt: LayerType, operand_reads: bool, expression_value: Option<u32>) -> EditInput {
    let t = trimmed(text);
    if t.len() == 0 {
        EditInput::InheritAbove
    } else if t[0] == '+' || t[0] == '-' || t[0] == '*' || t[0] == '/' {
        if operand_reads { EditInput::Operation } else { EditInput::Unreadable }
    } else {
        match expression_value {
            Some(v) => EditInput::Direct(CellValue::Number(v)),
            None => match parsed_input(text, lt) {
                Some(n) => EditInput::Direct(CellValue::Number(n)),
                None => EditInput::Unreadable,
            },
        }
    }
}

/// The rows a block edit writes for an input other than an operation: each layer's cell
/// above the block copied down; the value; or empty cells.
pub open spec fn edit_rows(g: Seq<Seq<Option<CellValue>>>, ml: int, mf: int, nl: nat, nf: nat, input: EditInput)
    -> Seq<Seq<Option<CellValue>>>
{
    match input {
        EditInput::InheritAbove => Seq::new(nl, |i: int| Seq::new(nf, |j: int|
            if mf > 0 { grid_cell(g, ml + i, mf - 1) } else { None })),
        EditInput::Direct(v) => uniform_block(nl, nf, Some(v)),
        _ => uniform_block(nl, nf, None),
    }
}

/// The value an operation in a block edit starting at frame `mf` reads at (`l`, `f`), where
/// `g` is the grid before and `g2` after: the cell's number; for "-" the resolved value at
/// the block's top, else the number just written above it; 0 otherwise.
pub open spec fn op_input(g: Seq<Seq<Option<CellValue>>>, g2: Seq<Seq<Option<CellValue>>>, l: int, f: int, mf: int) -> u32 {
    match grid_cell(g, l, f) {
        Some(CellValue::Number(n)) => n,
        Some(CellValue::Same) => if f == mf {
            match resolved(g, l, f) { Some(v) => v, None => 0 }
        } else {
            match grid_cell(g2, l, f - 1) { Some(CellValue::Number(r)) => r, _ => 0 }
        },
        None => 0,
    }
}

/// The undo history after marking the `k` frames of layer `l` from frame `a` as "-" one at a
/// time, recording (when `record`) each that was not "-" already; `g` is the grid before.
pub open spec fn same_fill_stack(stack: Seq<UndoAction>, g: Seq<Seq<Option<CellValue>>>, l: usize, a: int, k: nat, record: bool)
    -> Seq<UndoAction>
    decreases k,
{
    if k == 0 {
        stack
    } else {
        let s = same_fill_stack(stack, g, l, a, (k - 1) as nat, record);
        let o = grid_cell(g, l as int, a + k - 1);
        if record && o != Some(CellValue::Same) { pushed_set_cell(s, l, (a + k - 1) as usize, o) } else { s }
    }
}

proof fn lemma_write_empty_rows(g: Seq<Seq<Option<CellValue>>>, ml: int, mf: int, rows: Seq<Seq<Option<CellValue>>>, n: nat)
    requires
        n <= rows.len(),
        forall|i: int| 0 <= i < n ==> (#[trigger] rows[i]).len() == 0,
    ensures
        write_rows(g, ml, mf, rows, n) == g,
    decreases n,
{
    if n > 0 {
        lemma_write_empty_rows(g, ml, mf, rows, (n - 1) as nat);
        let l = ml + n - 1;
        if 0 <= l < g.len() {
            assert(written_row(g[l], mf, rows[n - 1], 0) == g[l]);
            assert(g.update(l, g[l]) =~= g);
        }
    }
}

proof fn lemma_resolved_unchanged_above(g: Seq<Seq<Option<CellValue>>>, g2: Seq<Seq<Option<CellValue>>>, l: int, f: int)
    requires
        forall|q: int| q <= f ==> #[trigger] grid_cell(g2, l, q) == grid_cell(g, l, q),
    ensures
        resolved(g2, l, f) == resolved(g, l, f),
    decreases f + 1,
{
    if f >= 0 {
        assert(grid_cell(g2, l, f) == grid_cell(g, l, f));
        lemma_resolved_unchanged_above(g, g2, l, f - 1);
    }
}

/// The number of frames of a grid: the length of its first layer.
pub open spec fn frames_of(g: Seq<Seq<Option<CellValue>>>) -> nat {
    if g.len() == 0 { 0 } else { g[0].len() }
}

/// The frames (from 0 up to `n`) where the actual value of layer `l` changes, with the
/// new value; with `keep_empty` a change to no value counts too, else only changes to a
/// value (compared with the last value listed).
pub open spec fn value_changes(ts: TimeSheet, l: int, n: nat, keep_empty: bool) -> Seq<(usize, Option<u32>)>
    decreases n,
{
    if n == 0 {
        Seq::empty()
    } else {
        let p = value_changes(ts, l, (n - 1) as nat, keep_empty);
        let prev = last_listed(p);
        let cur = ts.actual_value(l, n - 1);
        if (keep_empty || cur is Some) && cur != prev { p.push(((n - 1) as usize, cur)) } else { p }
    }
}

/// The value of the last listed change (none when nothing is listed).
pub open spec fn last_listed(p: Seq<(usize, Option<u32>)>) -> Option<u32> {
    if p.len() == 0 { None } else { p.last().1 }
}

/// `s` without trailing copies of `c`.
pub open spec fn trim_end(s: Seq<char>, c: char) -> Seq<char>
    decreases s.len(),
{
    if s.len() > 0 && s.last() == c { trim_end(s.drop_last(), c) } else { s }
}

/// The header of After Effects keyframe data.
pub open spec fn ae_header(version: Seq<char>, fps: u32) -> Seq<char> {
    "Adobe After Effects "@ + version + " Keyframe Data\r\n\r\n\tUnits Per Second\t"@ + decimal_digits(fps as nat)
        + "\r\n\tSource Width\t1000\r\n\tSource Height\t1000\r\n\tSource Pixel Aspect Ratio\t1\r\n\tComp Pixel Aspect Ratio\t1\r\n\r\n"@
}

/// The value text of a keyframe line on a layer of type `lt`: a percentage, a pan
/// position as shown, or (for a change to a value) the seconds text of `raw`.
pub open spec fn value_text(lt: LayerType, v: Option<u32>, raw: Seq<char>) -> Seq<char> {
    match lt {
        LayerType::Opacity => decimal_digits(v->Some_0 as nat),
        LayerType::Pan => formatted(LayerType::Pan, v->Some_0),
        LayerType::Cel => if v is Some { seconds_text(raw) } else { Seq::empty() },
    }
}

/// One keyframe line per change on a layer of type `lt`: the frame and its value text
/// (`secs[i]` is the raw seconds of change `i`); pan lines have no leading or trailing tab.
pub open spec fn keyframe_lines(lt: LayerType, changes: Seq<(usize, Option<u32>)>, secs: Seq<Seq<char>>) -> Seq<char>
    decreases changes.len(),
{
    if changes.len() == 0 {
        Seq::empty()
    } else {
        let k = changes.len() - 1;
        keyframe_lines(lt, changes.drop_last(), secs)
            + (if lt != LayerType::Pan { seq!['\t'] } else { Seq::empty() })
            + decimal_digits(changes[k].0 as nat) + seq!['\t'] + value_text(lt, changes[k].1, secs[k])
            + (if lt == LayerType::Pan { seq!['\r', '\n'] } else { seq!['\t', '\r', '\n'] })
    }
}

proof fn lemma_changes_to_values(ts: TimeSheet, l: int, n: nat)
    ensures
        forall|q: int| 0 <= q < value_changes(ts, l, n, false).len() ==> (#[trigger] value_changes(ts, l, n, false)[q]).1 is Some,
    decreases n,
{
    if n > 0 {
        lemma_changes_to_values(ts, l, (n - 1) as nat);
    }
}

/// The text of a seconds value: trailing zeros and then a trailing point removed.
pub open spec fn seconds_text(raw: Seq<char>) -> Seq<char> {
    trim_end(trim_end(raw, '0'), '.')
}

/// `s` without trailing copies of `c`.
fn trim_end_chars(s: &Vec<char>, c: char) -> (r: Vec<char>)
    ensures
        r@ == trim_end(s@, c),
{
    let mut k: usize = s.len();
    assert(s@.take(k as int) =~= s@);
    while k > 0 && s[k - 1] == c
        invariant
            k <= s@.len(),
            trim_end(s@, c) == trim_end(s@.take(k as int), c),
        decreases k,
    {
        assert(s@.take(k as int).drop_last() =~= s@.take(k - 1));
        k = k - 1;
    }
    let r = take_chars(s, k);
    r
}

/// The first `k` characters of `s`.
fn take_chars(s: &Vec<char>, k: usize) -> (r: Vec<char>)
    requires
        k <= s@.len(),
    ensures
        r@ == s@.take(k as int),
{
    let mut r: Vec<char> = Vec::new();
    let mut i: usize = 0;
    while i < k
        invariant
            i <= k <= s@.len(),
            r@ == s@.take(i as int),
        decreases k - i,
    {
        r.push(s[i]);
        i = i + 1;
        assert(r@ =~= s@.take(i as int));
    }
    r
}

/// Layer-keyed entries after a layer is inserted at `index`: keys from `index` on move
/// one up, so that `index` itself is free.
pub open spec fn keys_shifted_up<V>(m: Map<usize, V>, index: usize) -> Map<usize, V> {
    Map::new(
        |k: usize| if k < index { m.contains_key(k) } else { k > index && m.contains_key((k - 1) as usize) },
        |k: usize| if k < index { m[k] } else { m[(k - 1) as usize] },
    )
}

/// Layer-keyed entries after layer `index` is removed: its entry is dropped and keys
/// after it move one down.
pub open spec fn keys_shifted_down<V>(m: Map<usize, V>, index: usize) -> Map<usize, V> {
    Map::new(
        |k: usize| if k < index { m.contains_key(k) } else { k < usize::MAX && m.contains_key((k + 1) as usize) },
        |k: usize| if k < index { m[k] } else { m[(k + 1) as usize] },
    )
}

/// Every key of `m` can move one up.
pub open spec fn keys_below_max<V>(m: Map<usize, V>) -> bool {
    forall|k: usize| #[trigger] m.contains_key(k) ==> k < usize::MAX
}

proof fn lemma_shift_up_insert<V>(r: Map<usize, V>, k: usize, v: V, index: usize)
    requires
        k < usize::MAX,
    ensures
        keys_shifted_up(r.insert(k, v), index)
            == keys_shifted_up(r, index).insert(if k < index { k } else { (k + 1) as usize }, v),
{
    assert(keys_shifted_up(r.insert(k, v), index)
        =~= keys_shifted_up(r, index).insert(if k < index { k } else { (k + 1) as usize }, v));
}

proof fn lemma_shift_down_insert<V>(r: Map<usize, V>, k: usize, v: V, index: usize)
    ensures
        keys_shifted_down(r.insert(k, v), index) == (if k == index {
            keys_shifted_down(r, index)
        } else {
            keys_shifted_down(r, index).insert(if k < index { k } else { (k - 1) as usize }, v)
        }),
{
    if k == index {
        assert(keys_shifted_down(r.insert(k, v), index) =~= keys_shifted_down(r, index));
    } else {
        assert(keys_shifted_down(r.insert(k, v), index)
            =~= keys_shifted_down(r, index).insert(if k < index { k } else { (k - 1) as usize }, v));
    }
}

/// The keys of `m`, each once.
fn map_keys<V>(m: &HashMap<usize, V>) -> (ks: Vec<usize>)
    ensures
        ks@.to_set() == m@.dom(),
        ks@.no_duplicates(),
{
    broadcast use vstd::std_specs::hash::group_hash_axioms;
    let ghost all = vstd::std_specs::iter::IteratorSpec::remaining(&vstd::std_specs::hash::spec_keys_iter(m));
    let mut ks: Vec<usize> = Vec::new();
    for k in it: m.keys()
        invariant
            it.seq() == all,
            ks@ == all.unref().take(it.index()),
    {
        ks.push(*k);
        assert(ks@ =~= all.unref().take(it.index() + 1));
    }
    assert(ks@ =~= all.unref());
    ks
}

/// Moves the entries of a layer-keyed map as a layer insertion (`up`) or removal at
/// `index` requires.
fn shift_keys<V>(m: HashMap<usize, V>, index: usize, up: bool) -> (r: HashMap<usize, V>)
    requires
        up ==> keys_below_max(m@),
    ensures
        r@ == (if up { keys_shifted_up(m@, index) } else { keys_shifted_down(m@, index) }),
{
    broadcast use vstd::std_specs::hash::group_hash_axioms;
    let ks = map_keys(&m);
    let ghost m0 = m@;
    let mut src = m;
    let mut dst: HashMap<usize, V> = HashMap::new();
    let mut i: usize = 0;
    while i < ks.len()
        invariant
            ks@.to_set() == m0.dom(),
            ks@.no_duplicates(),
            up ==> keys_below_max(m0),
            i <= ks@.len(),
            src@ == m0.remove_keys(ks@.take(i as int).to_set()),
            dst@ == (if up {
                keys_shifted_up(m0.restrict(ks@.take(i as int).to_set()), index)
            } else {
                keys_shifted_down(m0.restrict(ks@.take(i as int).to_set()), index)
            }),
        decreases ks.len() - i,
    {
        let k = ks[i];
        let ghost done = ks@.take(i as int).to_set();
        assert(ks@.take(i + 1).to_set() =~= done.insert(k)) by {
            assert(ks@.take(i + 1) =~= ks@.take(i as int).push(k));
            ks@.take(i as int).lemma_push_to_set_commute(k);
        }
        assert(m0.dom().contains(k)) by {
            assert(ks@.contains(k));
        }
        assert(!done.contains(k)) by {
            if done.contains(k) {
                let j = choose|j: int| 0 <= j < i && ks@[j] == k;
                assert(ks@[j] == ks@[i as int]);
            }
        }
        assert(m0.restrict(done.insert(k)) =~= m0.restrict(done).insert(k, m0[k]));
        assert(m0.remove_keys(done.insert(k)) =~= m0.remove_keys(done).remove(k));
        let v = src.remove(&k);
        match v {
            Some(v) => {
                proof {
                    if up {
                        lemma_shift_up_insert(m0.restrict(done), k, v, index);
                    } else {
                        lemma_shift_down_insert(m0.restrict(done), k, v, index);
                    }
                }
                if up {
                    let t = if k < index { k } else { k + 1 };
                    dst.insert(t, v);
                } else if k != index {
                    let t = if k < index { k } else { k - 1 };
                    dst.insert(t, v);
                }
            },
            None => {
                assert(false);
            },
        }
        i = i + 1;
    }
    assert(ks@.take(ks@.len() as int) =~= ks@);
    assert(m0.restrict(ks@.to_set()) =~= m0);
    dst
}

/// A (layer, frame) position after a layer is inserted at `index`.
pub open spec fn pos_after_insert(p: Option<(usize, usize)>, index: usize) -> Option<(usize, usize)> {
    match p {
        Some((l, f)) => if l >= index { Some(((l + 1) as usize, f)) } else { Some((l, f)) },
        None => None,
    }
}

/// A (layer, frame) position after layer `index` is removed: dropped when on or after it.
pub open spec fn pos_after_delete(p: Option<(usize, usize)>, index: usize) -> Option<(usize, usize)> {
    match p {
        Some((l, f)) => if l >= index { None } else { Some((l, f)) },
        None => None,
    }
}

/// A position can move one layer down.
pub open spec fn pos_below_max(p: Option<(usize, usize)>) -> bool {
    p matches Some((l, f)) ==> l < usize::MAX
}

/// Layer-keyed entries restored at `index` after a layer removal is undone.
pub open spec fn keys_restored<V>(m: Map<usize, V>, index: usize, v: Option<V>) -> Map<usize, V> {
    match v {
        Some(x) => keys_shifted_up(m, index).insert(index, x),
        None => keys_shifted_up(m, index),
    }
}

impl Document {
    /// The type of layer `l` (Cel when none is set).
    pub open spec fn layer_type_of(&self, l: usize) -> LayerType {
        if self.layer_types@.contains_key(l) { self.layer_types@[l] } else { LayerType::Cel }
    }

    /// The selected block, if a selection has both corners.
    pub open spec fn selection(&self) -> Option<(usize, usize, usize, usize)> {
        match (self.selection_state.selection_start, self.selection_state.selection_end) {
            (Some(a), Some(b)) => Some(span(a, b)),
            _ => None,
        }
    }

    /// Everything but the timesheet's cells, the undo history and the modified flag is as in `other`.
    pub open spec fn keeps_view_state(&self, other: &Document) -> bool {
        &&& self.id == other.id
        &&& self.file_path == other.file_path
        &&& self.is_open == other.is_open
        &&& self.edit_state == other.edit_state
        &&& self.selection_state == other.selection_state
        &&& self.clipboard == other.clipboard
        &&& self.repeat_dialog == other.repeat_dialog
        &&& self.sequence_fill_dialog == other.sequence_fill_dialog
        &&& self.reference_image_dir == other.reference_image_dir
        &&& self.show_player == other.show_player
        &&& self.player_selected_layer == other.player_selected_layer
        &&& self.layer_folders@ == other.layer_folders@
        &&& self.layer_types@ == other.layer_types@
        &&& self.jump_step == other.jump_step
        &&& self.timesheet.same_header(&other.timesheet)
        &&& self.timesheet.cells@.len() == other.timesheet.cells@.len()
    }

    /// The selected block and the current cell lie far enough from the end of the
    /// index range that writing them cannot overflow it.
    pub open spec fn edit_fits(&self) -> bool {
        &&& (self.selection() matches Some((ml, mf, xl, xf)) ==> xl < usize::MAX && xf + 1 < usize::MAX)
        &&& (self.selection_state.selected_cell matches Some((l, f)) ==> f + 1 < usize::MAX)
    }

    /// Creates a document for `timesheet`.
    pub fn new(id: usize, timesheet: TimeSheet, file_path: Option<String>) -> (d: Self)
        ensures
            d.id == id,
            d.timesheet == timesheet,
            d.file_path == file_path,
            !d.is_modified,
            d.is_open,
            d.clipboard is None,
            d.undo_stack@.len() == 0,
            d.selection_state.selected_cell == Some((0usize, 0usize)),
            d.selection_state.selection_start is None,
            d.selection_state.selection_end is None,
            d.edit_state.editing_cell is None,
            d.edit_state.batch_edit_range is None,
            !d.show_player,
            d.player_selected_layer == 0,
            d.layer_folders@ == Map::<usize, String>::empty(),
            d.layer_types@ == Map::<usize, LayerType>::empty(),
            d.jump_step == 1,
            d.reference_image_dir is None,
    {
        Document {
            id,
            timesheet,
            file_path,
            is_modified: false,
            is_open: true,
            edit_state: EditState::default(),
            selection_state: SelectionState::default(),
            clipboard: None,
            undo_stack: VecDeque::with_capacity(MAX_UNDO_ACTIONS),
            repeat_dialog: RepeatDialogState::default(),
            sequence_fill_dialog: SequenceFillDialogState::default(),
            reference_image_dir: None,
            show_player: false,
            player_selected_layer: 0,
            layer_folders: HashMap::new(),
            layer_types: HashMap::new(),
            jump_step: 1,
        }
    }

    /// The type of layer `layer`.
    pub fn layer_type(&self, layer: usize) -> (lt: LayerType)
        ensures
            lt == self.layer_type_of(layer),
    {
        broadcast use vstd::std_specs::hash::group_hash_axioms;
        match self.layer_types.get(&layer) {
            Some(t) => *t,
            None => LayerType::Cel,
        }
    }

    /// How `val` is shown on layer `layer`: a letter for 1-26 on a pan layer, else digits.
    pub fn format_cell_value(&self, layer: usize, val: u32) -> (s: String)
        ensures
            s@ == formatted(self.layer_type_of(layer), val),
    {
        let lt = self.layer_type(layer);
        let mut v: Vec<char> = Vec::new();
        if lt == LayerType::Pan && val >= 1 && val <= 26 {
            v.push(((64 + val) as u8) as char);
        } else {
            push_decimal(&mut v, val as u64);
        }
        assert(v@ =~= formatted(lt, val));
        string_from_chars(&v)
    }

    /// What the cell at (`layer`, `frame`) shows: its formatted number, "-", or nothing.
    pub fn get_cell_display_string(&self, layer: usize, frame: usize) -> (s: String)
        ensures
            s@ == match self.timesheet.cell(layer as int, frame as int) {
                Some(CellValue::Number(n)) => formatted(self.layer_type_of(layer), n),
                Some(CellValue::Same) => seq!['-'],
                None => Seq::<char>::empty(),
            },
    {
        match self.timesheet.get_cell(layer, frame) {
            Some(CellValue::Number(n)) => self.format_cell_value(layer, *n),
            Some(CellValue::Same) => {
                let s = string_from_chars(&vec!['-']);
                assert(s@ =~= seq!['-']);
                s
            },
            None => String::new(),
        }
    }

    /// Reads typed text as a number: trimmed; a single letter on a pan layer is its
    /// alphabet position; otherwise a decimal number.
    pub fn parse_cell_input(text: &str, layer_type: LayerType) -> (r: Option<u32>)
        ensures
            r == parsed_input(text@, layer_type),
    {
        let raw = str_chars(text);
        let t = trim_chars(&raw);
        if t.len() == 0 {
            return None;
        }
        if layer_type == LayerType::Pan && t.len() == 1 {
            let c = t[0];
            if ('a' <= c && c <= 'z') || ('A' <= c && c <= 'Z') {
                return Some(letter_value(c));
            }
        }
        parse_u32(&t)
    }

    /// Reads pasted text into cells: a row per line, a cell per tab-separated field;
    /// `None` for text without lines.
    pub fn parse_clipboard_text(text: &str) -> (r: Option<ClipboardData>)
        ensures
            match r {
                Some(rows) => lines_seq(text@).len() > 0
                    && Seq::new(rows@.len(), |i: int| rows@[i]@) == clipboard_rows(text@),
                None => lines_seq(text@).len() == 0,
            },
    {
        let chars = str_chars(text);
        let lines = lines_chars(&chars);
        if lines.len() == 0 {
            return None;
        }
        let ghost lv = lines_seq(text@);
        let mut rows: Vec<Vec<Option<CellValue>>> = Vec::new();
        let mut i: usize = 0;
        while i < lines.len()
            invariant
                Seq::new(lines@.len(), |k: int| lines@[k]@) == lv,
                lv == lines_seq(text@),
                i <= lines@.len(),
                rows@.len() == i,
                forall|k: int| 0 <= k < i ==> #[trigger] rows@[k]@ == clipboard_rows(text@)[k],
            decreases lines.len() - i,
        {
            let fields = split_chars(&lines[i], '\t');
            let ghost fv = split_seq(lv[i as int], '\t');
            let mut row: Vec<Option<CellValue>> = Vec::new();
            let mut j: usize = 0;
            while j < fields.len()
                invariant
                    Seq::new(fields@.len(), |k: int| fields@[k]@) == fv,
                    j <= fields@.len(),
                    row@.len() == j,
                    forall|k: int| 0 <= k < j ==> #[trigger] row@[k] == clipboard_cell(fv[k]),
                decreases fields.len() - j,
            {
                let t = trim_chars(&fields[j]);
                let cell = if t.len() == 0 {
                    None
                } else if t.len() == 1 && t[0] == '-' {
                    assert(t@ =~= seq!['-']);
                    Some(CellValue::Same)
                } else {
                    match parse_u32(&t) {
                        Some(n) => Some(CellValue::Number(n)),
                        None => {
                            if t.len() == 1 && (('a' <= t[0] && t[0] <= 'z') || ('A' <= t[0] && t[0] <= 'Z')) {
                                Some(CellValue::Number(letter_value(t[0])))
                            } else {
                                None
                            }
                        },
                    }
                };
                proof {
                    if t@.len() != 1 || t@[0] != '-' {
                        assert(t@ != seq!['-']);
                    }
                }
                row.push(cell);
                j = j + 1;
            }
            assert(row@ =~= clipboard_rows(text@)[i as int]);
            rows.push(row);
            i = i + 1;
        }
        Some(rows)
    }

    /// The selected block: (min layer, min frame, max layer, max frame).
    pub fn get_selection_range(&self) -> (r: Option<(usize, usize, usize, usize)>)
        ensures
            r == self.selection(),
    {
        match (self.selection_state.selection_start, self.selection_state.selection_end) {
            (Some((sl, sf)), Some((el, ef))) => Some((
                if sl < el { sl } else { el },
                if sf < ef { sf } else { ef },
                if sl < el { el } else { sl },
                if sf < ef { ef } else { sf },
            )),
            _ => None,
        }
    }

    /// Whether cell (`l`, `f`) lies in the selected block.
    pub fn is_cell_in_selection(&self, l: usize, f: usize) -> (b: bool)
        ensures
            b == (self.selection() matches Some((ml, mf, xl, xf)) && ml <= l <= xl && mf <= f <= xf),
    {
        match self.get_selection_range() {
            Some((ml, mf, xl, xf)) => l >= ml && l <= xl && f >= mf && f <= xf,
            None => false,
        }
    }

    /// The selected block when it lies in one layer: (layer, first frame, last frame).
    pub fn check_single_column_selection(&self) -> (r: Result<(usize, usize, usize), &'static str>)
        ensures
            match self.selection() {
                Some((ml, mf, xl, xf)) => if ml == xl {
                    r == Ok::<(usize, usize, usize), &'static str>((ml, mf, xf))
                } else {
                    r == Err::<(usize, usize, usize), &'static str>("Single col only")
                },
                None => r == Err::<(usize, usize, usize), &'static str>("No sel"),
            },
    {
        match self.get_selection_range() {
            Some((ml, mf, xl, xf)) => if ml != xl { Err("Single col only") } else { Ok((ml, mf, xf)) },
            None => Err("No sel"),
        }
    }

    /// The resolved value at (`layer`, `frame`): looking up through "-" cells to a number;
    /// nothing at an empty cell.
    pub fn resolve_actual_value(&self, layer: usize, frame: usize) -> (r: Option<u32>)
        ensures
            r == resolved(self.timesheet.grid(), layer as int, frame as int),
    {
        let ghost g = self.timesheet.grid();
        let mut f: usize = frame;
        loop
            invariant
                f <= frame,
                resolved(g, layer as int, frame as int) == resolved(g, layer as int, f as int),
                g == self.timesheet.grid(),
            decreases f,
        {
            match self.timesheet.get_cell(layer, f) {
                Some(CellValue::Number(n)) => { return Some(*n); },
                Some(CellValue::Same) => {
                    if f == 0 {
                        assert(resolved(g, layer as int, -1) is None);
                        return None;
                    }
                    f = f - 1;
                },
                None => { return None; },
            }
        }
    }

    /// The resolved values of the unbroken run of resolvable cells above `start_search_frame`,
    /// top to bottom.
    pub fn scan_upwards_for_numbers(&self, layer: usize, start_search_frame: usize) -> (r: Vec<u32>)
        ensures
            r@ == upward_run(self.timesheet.grid(), layer as int, start_search_frame as int),
    {
        let ghost g = self.timesheet.grid();
        let mut rev: Vec<u32> = Vec::new();
        let mut f: usize = start_search_frame;
        while f > 0
            invariant
                f <= start_search_frame,
                g == self.timesheet.grid(),
                upward_run(g, layer as int, start_search_frame as int) == upward_run(g, layer as int, f as int) + rev@.reverse(),
            ensures
                f <= start_search_frame,
                upward_run(g, layer as int, start_search_frame as int) == upward_run(g, layer as int, f as int) + rev@.reverse(),
                f > 0 ==> upward_run(g, layer as int, f as int) == Seq::<u32>::empty(),
            decreases f,
        {
            match self.resolve_actual_value(layer, f - 1) {
                Some(v) => {
                    let ghost old_rev = rev@;
                    rev.push(v);
                    assert(rev@.reverse() =~= seq![v] + old_rev.reverse());
                    assert(upward_run(g, layer as int, f as int) == upward_run(g, layer as int, f - 1).push(v));
                    assert(upward_run(g, layer as int, f - 1).push(v) + old_rev.reverse()
                        =~= upward_run(g, layer as int, f - 1) + rev@.reverse());
                    f = f - 1;
                },
                None => {
                    assert(upward_run(g, layer as int, f as int) == Seq::<u32>::empty());
                    break;
                },
            }
        }
        assert(upward_run(g, layer as int, f as int) + rev@.reverse() =~= upward_run(g, layer as int, start_search_frame as int));
        let mut out: Vec<u32> = Vec::new();
        let mut k: usize = rev.len();
        while k > 0
            invariant
                k <= rev@.len(),
                out@ == rev@.subrange(k as int, rev@.len() as int).reverse(),
            decreases k,
        {
            k = k - 1;
            out.push(rev[k]);
            assert(out@ =~= rev@.subrange(k as int, rev@.len() as int).reverse());
        }
        assert(rev@.subrange(0, rev@.len() as int) =~= rev@);
        proof {
            if f > 0 {
                assert(upward_run(g, layer as int, f as int) == Seq::<u32>::empty());
            }
            assert(upward_run(g, layer as int, 0) == Seq::<u32>::empty());
        }
        assert(out@ =~= upward_run(g, layer as int, start_search_frame as int));
        out
    }

    /// Records a single-cell change in the undo history, dropping the oldest entry when
    /// the history already holds `MAX_UNDO_ACTIONS` entries.
    pub fn push_undo_set_cell(&mut self, l: usize, f: usize, v: Option<CellValue>)
        ensures
            final(self).undo_stack@ == pushed_set_cell(old(self).undo_stack@, l, f, v),
            final(self).timesheet == old(self).timesheet,
            final(self).is_modified == old(self).is_modified,
            final(self).keeps_view_state(old(self)),
    {
        if self.undo_stack.len() >= MAX_UNDO_ACTIONS {
            self.undo_stack.pop_front();
        }
        self.undo_stack.push_back(UndoAction::SetCell { layer: l, frame: f, old_value: v });
        assert(self.undo_stack@ =~= pushed_set_cell(old(self).undo_stack@, l, f, v));
    }

    /// What deleting gives (see `delete_selection`): the selected block emptied and recorded
    /// for undo, else the current cell emptied and recorded, else nothing.
    pub open spec fn deletion(old_doc: Document, new_doc: Document) -> bool {
        &&& new_doc.keeps_view_state(&old_doc)
        &&& match old_doc.selection() {
            Some((ml, mf, xl, xf)) => {
                let nl = (xl - ml + 1) as nat;
                let nf = (xf - mf + 1) as nat;
                &&& new_doc.timesheet.grid() =~= write_rows(old_doc.timesheet.grid(), ml as int, mf as int,
                    uniform_block(nl, nf, None), nl)
                &&& new_doc.undo_stack@.len() == old_doc.undo_stack@.len() + 1
                &&& new_doc.undo_stack@.drop_last() =~= old_doc.undo_stack@
                &&& records_range(new_doc.undo_stack@.last(), ml as int, mf as int,
                    block_of(old_doc.timesheet.grid(), ml as int, mf as int, nl, nf))
                &&& new_doc.is_modified
            },
            None => match old_doc.selection_state.selected_cell {
                Some((l, f)) => {
                    &&& new_doc.timesheet.grid() =~= grid_with(old_doc.timesheet.grid(), l as int, f as int, None)
                    &&& new_doc.undo_stack@ =~= pushed_set_cell(old_doc.undo_stack@, l, f,
                        old_doc.timesheet.cell(l as int, f as int))
                    &&& new_doc.is_modified
                },
                None => {
                    &&& new_doc.timesheet == old_doc.timesheet
                    &&& new_doc.undo_stack@ =~= old_doc.undo_stack@
                    &&& new_doc.is_modified == old_doc.is_modified
                },
            },
        }
    }

    /// What undoing gives (see `undo`).
    pub open spec fn undone(old_doc: Document, new_doc: Document) -> bool {
        &&& old_doc.undo_stack@.len() == 0 ==> new_doc == old_doc
        &&& old_doc.undo_stack@.len() > 0 ==> {
            &&& new_doc.undo_stack@ =~= old_doc.undo_stack@.drop_last()
            &&& new_doc.is_modified
            &&& new_doc.selection_state == old_doc.selection_state
            &&& new_doc.edit_state == old_doc.edit_state
            &&& new_doc.clipboard == old_doc.clipboard
            &&& new_doc.timesheet.name@ == old_doc.timesheet.name@
            &&& new_doc.timesheet.framerate == old_doc.timesheet.framerate
            &&& new_doc.timesheet.frames_per_page == old_doc.timesheet.frames_per_page
            &&& match old_doc.undo_stack@.last() {
                UndoAction::SetCell { layer, frame, old_value } => {
                    &&& new_doc.timesheet.grid() =~= grid_with(old_doc.timesheet.grid(), layer as int, frame as int, old_value)
                    &&& new_doc.timesheet.same_header(&old_doc.timesheet)
                    &&& new_doc.layer_types@ =~= old_doc.layer_types@
                    &&& new_doc.layer_folders@ =~= old_doc.layer_folders@
                },
                UndoAction::SetRange { min_layer, min_frame, old_values } => {
                    &&& new_doc.timesheet.grid() =~= write_rows(old_doc.timesheet.grid(), min_layer as int,
                        min_frame as int, rows_of(old_values@), old_values@.len())
                    &&& new_doc.timesheet.same_header(&old_doc.timesheet)
                    &&& new_doc.layer_types@ =~= old_doc.layer_types@
                    &&& new_doc.layer_folders@ =~= old_doc.layer_folders@
                },
                UndoAction::InsertLayer { index } => {
                    &&& new_doc.timesheet.wf()
                    &&& index < old_doc.timesheet.layer_count ==> {
                        &&& new_doc.timesheet.layer_count == old_doc.timesheet.layer_count - 1
                        &&& new_doc.timesheet.grid() =~= old_doc.timesheet.grid().remove(index as int)
                        &&& new_doc.timesheet.names() =~= old_doc.timesheet.names().remove(index as int)
                    }
                    &&& index >= old_doc.timesheet.layer_count ==> new_doc.timesheet == old_doc.timesheet
                    &&& new_doc.layer_types@ =~= keys_shifted_down(old_doc.layer_types@, index)
                    &&& new_doc.layer_folders@ =~= keys_shifted_down(old_doc.layer_folders@, index)
                },
                UndoAction::DeleteLayer { index, name, cells, layer_type, layer_folder } => {
                    &&& new_doc.timesheet.wf()
                    &&& new_doc.timesheet.layer_count == old_doc.timesheet.layer_count + 1
                    &&& new_doc.timesheet.grid() =~= old_doc.timesheet.grid().insert(index as int, cells@)
                    &&& new_doc.timesheet.names() =~= old_doc.timesheet.names().insert(index as int, name@)
                    &&& new_doc.layer_types@ =~= keys_restored(old_doc.layer_types@, index, layer_type)
                    &&& new_doc.layer_folders@ =~= keys_restored(old_doc.layer_folders@, index, layer_folder)
                },
            }
        }
    }

    /// Empties the selected block (recording its cells for undo), or else the current cell.
    pub fn delete_selection(&mut self)
        requires
            old(self).edit_fits(),
        ensures
            Self::deletion(*old(self), *final(self)),
    {
        match self.get_selection_range() {
            Some((ml, mf, xl, xf)) => {
                let nl = xl - ml + 1;
                let nf = xf - mf + 1;
                let old_cells = snapshot(&self.timesheet, ml, mf, nl, nf);
                self.undo_stack.push_back(UndoAction::SetRange { min_layer: ml, min_frame: mf, old_values: old_cells });
                self.is_modified = true;
                let blank = uniform(nl, nf, None);
                write_block(&mut self.timesheet, ml, mf, &blank);
            },
            None => {
                match self.selection_state.selected_cell {
                    Some((l, f)) => {
                        let o = match self.timesheet.get_cell(l, f) { Some(v) => Some(*v), None => None };
                        self.push_undo_set_cell(l, f, o);
                        self.is_modified = true;
                        self.timesheet.set_cell(l, f, None);
                    },
                    None => {},
                }
            },
        }
    }

    /// Empties the first `total_frames` frames of every layer, recording them for undo.
    pub fn clear_all_cells(&mut self)
        requires
            old(self).timesheet.frames() + 1 < usize::MAX,
        ensures
            final(self).keeps_view_state(old(self)),
            ({
                let nl = old(self).timesheet.layer_count as nat;
                let nf = old(self).timesheet.frames();
                &&& final(self).timesheet.grid() == write_rows(old(self).timesheet.grid(), 0, 0,
                    uniform_block(nl, nf, None), nl)
                &&& final(self).undo_stack@.drop_last() == old(self).undo_stack@
                &&& records_range(final(self).undo_stack@.last(), 0, 0,
                    block_of(old(self).timesheet.grid(), 0, 0, nl, nf))
            }),
            final(self).is_modified,
    {
        let nf = self.timesheet.total_frames();
        let nl = self.timesheet.layer_count;
        let old_cells = snapshot(&self.timesheet, 0, 0, nl, nf);
        self.undo_stack.push_back(UndoAction::SetRange { min_layer: 0, min_frame: 0, old_values: old_cells });
        let blank = uniform(nl, nf, None);
        write_block(&mut self.timesheet, 0, 0, &blank);
        self.is_modified = true;
    }

    /// Whether the clipboard block fits below and right of the current cell.
    pub open spec fn paste_fits(&self, rows: Seq<Seq<Option<CellValue>>>) -> bool {
        self.selection_state.selected_cell matches Some((sl, sf)) ==> {
            &&& sl + rows.len() <= usize::MAX
            &&& forall|i: int| 0 <= i < rows.len() ==> sf + (#[trigger] rows[i]).len() + 1 < usize::MAX
        }
    }

    /// Writes the clipboard at the current cell (recording the cells it covers for undo).
    /// Does nothing without a current cell or clipboard.
    pub fn paste_clipboard(&mut self)
        requires
            old(self).clipboard matches Some(cb) ==> old(self).paste_fits(rows_of(cb@)),
        ensures
            final(self).keeps_view_state(old(self)),
            match (old(self).selection_state.selected_cell, old(self).clipboard) {
                (Some((sl, sf)), Some(cb)) => {
                    &&& final(self).timesheet.grid() == write_rows(old(self).timesheet.grid(), sl as int, sf as int,
                        rows_of(cb@), cb@.len())
                    &&& final(self).undo_stack@.drop_last() == old(self).undo_stack@
                    &&& records_range(final(self).undo_stack@.last(), sl as int, sf as int,
                        block_under(old(self).timesheet.grid(), sl as int, sf as int, rows_of(cb@)))
                    &&& final(self).is_modified
                },
                _ => {
                    &&& final(self).timesheet == old(self).timesheet
                    &&& final(self).undo_stack@ == old(self).undo_stack@
                    &&& final(self).is_modified == old(self).is_modified
                },
            },
    {
        match self.selection_state.selected_cell {
            Some((sl, sf)) => {
                match &self.clipboard {
                    Some(cb) => {
                        proof {
                            assert forall|i: int| 0 <= i < cb@.len() implies sf + (#[trigger] cb@[i])@.len() <= usize::MAX by {
                                assert(rows_of(cb@)[i] == cb@[i]@);
                            }
                            assert forall|i: int| 0 <= i < cb@.len() implies sf + (#[trigger] cb@[i])@.len() < usize::MAX by {
                                assert(rows_of(cb@)[i] == cb@[i]@);
                            }
                        }
                        let old_cells = snapshot_like(&self.timesheet, sl, sf, cb);
                        write_block(&mut self.timesheet, sl, sf, cb);
                        self.undo_stack.push_back(UndoAction::SetRange { min_layer: sl, min_frame: sf, old_values: old_cells });
                        self.is_modified = true;
                    },
                    None => {},
                }
            },
            None => {},
        }
    }

    /// Reads `text` into the clipboard and pastes it; `false` (and nothing changed) when
    /// the text has no lines.
    pub fn paste_from_text(&mut self, text: &str) -> (pasted: bool)
        requires
            old(self).paste_fits(clipboard_rows(text@)),
        ensures
            pasted == (lines_seq(text@).len() > 0),
            pasted ==> {
                &&& final(self).clipboard matches Some(cb) && rows_of(cb@) == clipboard_rows(text@)
                &&& match old(self).selection_state.selected_cell {
                    Some((sl, sf)) => {
                        &&& final(self).timesheet.grid() == write_rows(old(self).timesheet.grid(), sl as int, sf as int,
                            clipboard_rows(text@), clipboard_rows(text@).len())
                        &&& final(self).undo_stack@.drop_last() == old(self).undo_stack@
                        &&& records_range(final(self).undo_stack@.last(), sl as int, sf as int,
                            block_under(old(self).timesheet.grid(), sl as int, sf as int, clipboard_rows(text@)))
                        &&& final(self).is_modified
                    },
                    None => {
                        &&& final(self).timesheet == old(self).timesheet
                        &&& final(self).undo_stack@ == old(self).undo_stack@
                    },
                }
            },
            !pasted ==> *final(self) == *old(self),
    {
        match Self::parse_clipboard_text(text) {
            Some(cb) => {
                self.clipboard = Some(cb);
                self.paste_clipboard();
                true
            },
            None => false,
        }
    }

    /// Inserts an empty layer at `index` (when `index` is at most the layer count), records
    /// it for undo, and moves the current cell, the edited cell and the per-layer types and
    /// folders from `index` on one layer along.
    pub fn insert_layer(&mut self, index: usize)
        requires
            old(self).timesheet.wf(),
            keys_below_max(old(self).layer_types@),
            keys_below_max(old(self).layer_folders@),
            pos_below_max(old(self).selection_state.selected_cell),
            pos_below_max(old(self).edit_state.editing_cell),
        ensures
            final(self).timesheet.wf(),
            index <= old(self).timesheet.layer_count ==> {
                &&& final(self).timesheet.layer_count == old(self).timesheet.layer_count + 1
                &&& final(self).timesheet.grid() == old(self).timesheet.grid().insert(index as int,
                        Seq::new(old(self).timesheet.frames(), |f: int| None::<CellValue>))
                &&& final(self).timesheet.names() == old(self).timesheet.names().insert(index as int,
                        crate::timesheet::column_letters(index as nat))
            },
            index > old(self).timesheet.layer_count ==> final(self).timesheet == old(self).timesheet,
            final(self).undo_stack@ == old(self).undo_stack@.push(UndoAction::InsertLayer { index }),
            final(self).is_modified,
            final(self).selection_state.selected_cell == pos_after_insert(old(self).selection_state.selected_cell, index),
            final(self).edit_state.editing_cell == pos_after_insert(old(self).edit_state.editing_cell, index),
            final(self).layer_types@ == keys_shifted_up(old(self).layer_types@, index),
            final(self).layer_folders@ == keys_shifted_up(old(self).layer_folders@, index),
            final(self).clipboard == old(self).clipboard,
            final(self).selection_state.selection_start == old(self).selection_state.selection_start,
            final(self).selection_state.selection_end == old(self).selection_state.selection_end,
    {
        self.timesheet.insert_layer(index);
        self.undo_stack.push_back(UndoAction::InsertLayer { index });
        self.is_modified = true;
        match self.selection_state.selected_cell {
            Some((l, f)) => if l >= index { self.selection_state.selected_cell = Some((l + 1, f)); },
            None => {},
        }
        match self.edit_state.editing_cell {
            Some((l, f)) => if l >= index { self.edit_state.editing_cell = Some((l + 1, f)); },
            None => {},
        }
        let mut types: HashMap<usize, LayerType> = HashMap::new();
        std::mem::swap(&mut types, &mut self.layer_types);
        self.layer_types = shift_keys(types, index, true);
        let mut folders: HashMap<usize, String> = HashMap::new();
        std::mem::swap(&mut folders, &mut self.layer_folders);
        self.layer_folders = shift_keys(folders, index, true);
    }

    /// Removes layer `index` (when it exists), recording its name, cells, type and folder
    /// for undo; clears the current and edited cell when on or after it, and moves the
    /// per-layer types and folders after it one layer back. Does nothing without such a layer.
    pub fn delete_layer(&mut self, index: usize)
        requires
            old(self).timesheet.wf(),
        ensures
            final(self).timesheet.wf(),
            index < old(self).timesheet.layer_count ==> {
                &&& final(self).timesheet.layer_count == old(self).timesheet.layer_count - 1
                &&& final(self).timesheet.grid() == old(self).timesheet.grid().remove(index as int)
                &&& final(self).timesheet.names() == old(self).timesheet.names().remove(index as int)
                &&& final(self).undo_stack@.drop_last() == old(self).undo_stack@
                &&& final(self).undo_stack@.last() matches UndoAction::DeleteLayer { index: i, name, cells, layer_type, layer_folder }
                &&& i == index
                &&& name@ == old(self).timesheet.names()[index as int]
                &&& cells@ == old(self).timesheet.grid()[index as int]
                &&& layer_type == (if old(self).layer_types@.contains_key(index) { Some(old(self).layer_types@[index]) } else { None })
                &&& layer_folder == (if old(self).layer_folders@.contains_key(index) { Some(old(self).layer_folders@[index]) } else { None })
                &&& final(self).is_modified
                &&& final(self).selection_state.selected_cell == pos_after_delete(old(self).selection_state.selected_cell, index)
                &&& final(self).edit_state.editing_cell == pos_after_delete(old(self).edit_state.editing_cell, index)
                &&& final(self).layer_types@ == keys_shifted_down(old(self).layer_types@, index)
                &&& final(self).layer_folders@ == keys_shifted_down(old(self).layer_folders@, index)
            },
            index >= old(self).timesheet.layer_count ==> *final(self) == *old(self),
    {
        broadcast use vstd::std_specs::hash::group_hash_axioms;
        match self.timesheet.delete_layer(index) {
            Some((name, cells)) => {
                let layer_type = self.layer_types.remove(&index);
                let layer_folder = self.layer_folders.remove(&index);
                let ghost t1 = self.layer_types@;
                let ghost f1 = self.layer_folders@;
                assert(keys_shifted_down(t1, index) =~= keys_shifted_down(old(self).layer_types@, index));
                assert(keys_shifted_down(f1, index) =~= keys_shifted_down(old(self).layer_folders@, index));
                self.undo_stack.push_back(UndoAction::DeleteLayer { index, name, cells, layer_type, layer_folder });
                self.is_modified = true;
                match self.selection_state.selected_cell {
                    Some((l, _f)) => if l >= index { self.selection_state.selected_cell = None; },
                    None => {},
                }
                match self.edit_state.editing_cell {
                    Some((l, _f)) => if l >= index { self.edit_state.editing_cell = None; },
                    None => {},
                }
                let mut types: HashMap<usize, LayerType> = HashMap::new();
                std::mem::swap(&mut types, &mut self.layer_types);
                self.layer_types = shift_keys(types, index, false);
                let mut folders: HashMap<usize, String> = HashMap::new();
                std::mem::swap(&mut folders, &mut self.layer_folders);
                self.layer_folders = shift_keys(folders, index, false);
            },
            None => {},
        }
    }

    /// The most recent undo entry can be applied without overflowing an index or breaking
    /// the layer bookkeeping.
    pub open spec fn undo_fits(&self) -> bool {
        self.undo_stack@.len() > 0 ==> match self.undo_stack@.last() {
            UndoAction::SetCell { frame, .. } => frame < usize::MAX,
            UndoAction::SetRange { min_layer, min_frame, old_values } => {
                &&& min_layer + old_values@.len() <= usize::MAX
                &&& forall|i: int| 0 <= i < old_values@.len() ==> min_frame + (#[trigger] old_values@[i])@.len() < usize::MAX
            },
            UndoAction::InsertLayer { .. } => self.timesheet.wf(),
            UndoAction::DeleteLayer { index, .. } => {
                &&& self.timesheet.wf()
                &&& index <= self.timesheet.layer_count < usize::MAX
                &&& keys_below_max(self.layer_types@)
                &&& keys_below_max(self.layer_folders@)
            },
        }
    }

    /// Reverts the most recent undo entry and removes it; does nothing when there is none.
    pub fn undo(&mut self)
        requires
            old(self).undo_fits(),
        ensures
            Self::undone(*old(self), *final(self)),
    {
        broadcast use vstd::std_specs::hash::group_hash_axioms;
        if self.undo_stack.len() == 0 {
            return;
        }
        match self.undo_stack.pop_back() {
            Some(a) => {
                assert(self.undo_stack@ =~= old(self).undo_stack@.drop_last());
                match a {
                    UndoAction::SetCell { layer, frame, old_value } => {
                        self.timesheet.set_cell(layer, frame, old_value);
                    },
                    UndoAction::SetRange { min_layer, min_frame, old_values } => {
                        write_block(&mut self.timesheet, min_layer, min_frame, &old_values);
                    },
                    UndoAction::InsertLayer { index } => {
                        let _ = self.timesheet.delete_layer(index);
                        let mut types: HashMap<usize, LayerType> = HashMap::new();
                        std::mem::swap(&mut types, &mut self.layer_types);
                        self.layer_types = shift_keys(types, index, false);
                        let mut folders: HashMap<usize, String> = HashMap::new();
                        std::mem::swap(&mut folders, &mut self.layer_folders);
                        self.layer_folders = shift_keys(folders, index, false);
                    },
                    UndoAction::DeleteLayer { index, name, cells, layer_type, layer_folder } => {
                        let ghost g0 = self.timesheet.grid();
                        let ghost n0 = self.timesheet.names();
                        let ghost cv = cells@;
                        let ghost nv = name@;
                        self.timesheet.cells.insert(index, cells);
                        self.timesheet.layer_names.insert(index, name);
                        self.timesheet.layer_count = self.timesheet.layer_count + 1;
                        assert(self.timesheet.grid() =~= g0.insert(index as int, cv));
                        assert(self.timesheet.names() =~= n0.insert(index as int, nv));
                        let mut types: HashMap<usize, LayerType> = HashMap::new();
                        std::mem::swap(&mut types, &mut self.layer_types);
                        let mut types = shift_keys(types, index, true);
                        match layer_type {
                            Some(t) => { types.insert(index, t); },
                            None => {},
                        }
                        self.layer_types = types;
                        let mut folders: HashMap<usize, String> = HashMap::new();
                        std::mem::swap(&mut folders, &mut self.layer_folders);
                        let mut folders = shift_keys(folders, index, true);
                        match layer_folder {
                            Some(p) => { folders.insert(index, p); },
                            None => {},
                        }
                        self.layer_folders = folders;
                    },
                }
                self.is_modified = true;
            },
            None => {},
        }
    }

    /// The resolved values present from frame `a` through frame `b` of layer `l`.
    fn collect_present(&self, l: usize, a: usize, b: usize) -> (r: Vec<u32>)
        ensures
            r@ == present_values(self.timesheet.grid(), l as int, a as int, frames_between(a, b)),
    {
        let mut r: Vec<u32> = Vec::new();
        if a > b {
            return r;
        }
        let mut f: usize = a;
        loop
            invariant
                a <= f <= b,
                r@ == present_values(self.timesheet.grid(), l as int, a as int, (f - a) as nat),
            decreases b - f,
        {
            match self.resolve_actual_value(l, f) {
                Some(v) => r.push(v),
                None => {},
            }
            assert(r@ == present_values(self.timesheet.grid(), l as int, a as int, (f - a + 1) as nat));
            if f == b {
                return r;
            }
            f = f + 1;
        }
    }

    /// The block a fill-handle drag extends: (first layer, last layer, first and last source
    /// frame, last frame of the selection), when the drag is on and the selection extends the
    /// source block downward over the same layers.
    pub open spec fn smart_fill_target(&self) -> Option<(usize, usize, usize, usize, usize)> {
        if !self.selection_state.is_fill_dragging {
            None
        } else {
            match (self.selection_state.fill_source_range, self.selection()) {
                (Some((sml, smf, sxl, sxf)), Some((cml, _cmf, cxl, cxf))) =>
                    if cxf > sxf && sml == cml && sxl == cxl { Some((sml, sxl, smf, sxf, cxf)) } else { None },
                _ => None,
            }
        }
    }

    /// The rows a fill-handle drag writes: each layer's pattern continued below the source.
    pub open spec fn smart_fill_rows(g: Seq<Seq<Option<CellValue>>>, ml: usize, xl: usize, smf: usize, sxf: usize, fe: usize)
        -> Seq<Seq<Option<CellValue>>>
    {
        Seq::new(frames_between(ml, xl), |i: int|
            smart_sequence(present_values(g, ml + i, smf as int, frames_between(smf, sxf)), (fe - sxf) as nat))
    }

    /// What continuing the pattern in frames `start..=end` of layer `layer` gives (see
    /// `smart_fill_pattern`).
    pub open spec fn pattern_filled(old_doc: Document, new_doc: Document, layer: usize, start: usize, end: usize,
        r: Result<(), &'static str>) -> bool
    {
        let g = old_doc.timesheet.grid();
        let p = present_values(g, layer as int, start as int, frames_between(start, end));
        let s = if p.len() > 0 { p } else { upward_run(g, layer as int, start as int) };
        let fs = if p.len() > 0 { last_filled(g, layer as int, start as int, frames_between(start, end))->Some_0 + 1 } else { start as int };
        let n = (end - fs + 1) as nat;
        &&& new_doc.keeps_view_state(&old_doc)
        &&& if s.len() == 0 {
            &&& r == Err::<(), &'static str>("No pattern found above or in selection")
            &&& new_doc == old_doc
        } else if fs > end {
            &&& r == Err::<(), &'static str>("Selection is already full")
            &&& new_doc == old_doc
        } else {
            &&& r is Ok
            &&& new_doc.timesheet.grid() =~= write_rows(g, layer as int, fs, seq![smart_sequence(s, n)], 1)
            &&& new_doc.undo_stack@.drop_last() =~= old_doc.undo_stack@
            &&& new_doc.undo_stack@.len() == old_doc.undo_stack@.len() + 1
            &&& records_range(new_doc.undo_stack@.last(), layer as int, fs, block_of(g, layer as int, fs, 1, n))
            &&& new_doc.is_modified
        }
    }

    /// Ends a fill-handle drag: when the selection extends the source block downward over
    /// the same layers, continues each layer's pattern into the new frames (recording them
    /// for undo). The drag state is cleared in every case.
    pub fn apply_smart_fill(&mut self)
        requires
            old(self).smart_fill_target() matches Some((ml, xl, smf, sxf, fe)) ==> {
                &&& xl < usize::MAX
                &&& fe + 1 < usize::MAX
                &&& fill_fits(old(self).timesheet.grid(), ml, xl, smf, sxf, fe)
            },
        ensures
            !final(self).selection_state.is_fill_dragging,
            final(self).selection_state.fill_source_range is None,
            final(self).selection_state.selected_cell == old(self).selection_state.selected_cell,
            final(self).selection_state.selection_start == old(self).selection_state.selection_start,
            final(self).selection_state.selection_end == old(self).selection_state.selection_end,
            final(self).timesheet.same_header(&old(self).timesheet),
            final(self).layer_types@ == old(self).layer_types@,
            match old(self).smart_fill_target() {
                Some((ml, xl, smf, sxf, fe)) => {
                    let rows = Self::smart_fill_rows(old(self).timesheet.grid(), ml, xl, smf, sxf, fe);
                    &&& final(self).timesheet.grid() == write_rows(old(self).timesheet.grid(), ml as int, sxf + 1,
                        rows, rows.len())
                    &&& final(self).undo_stack@.drop_last() == old(self).undo_stack@
                    &&& records_range(final(self).undo_stack@.last(), ml as int, sxf + 1,
                        block_of(old(self).timesheet.grid(), ml as int, sxf + 1, frames_between(ml, xl), (fe - sxf) as nat))
                    &&& final(self).is_modified
                },
                None => {
                    &&& final(self).timesheet == old(self).timesheet
                    &&& final(self).undo_stack@ == old(self).undo_stack@
                    &&& final(self).is_modified == old(self).is_modified
                },
            },
    {
        if self.selection_state.is_fill_dragging {
            match (self.selection_state.fill_source_range, self.get_selection_range()) {
                (Some((sml, smf, sxl, sxf)), Some((cml, _cmf, cxl, cxf))) => {
                    if cxf > sxf && sml == cml && sxl == cxl {
                        let ghost g0 = self.timesheet.grid();
                        assert(old(self).smart_fill_target() == Some((sml, sxl, smf, sxf, cxf)));
                        assert(fill_fits(g0, sml, sxl, smf, sxf, cxf));
                        let fill_start = sxf + 1;
                        let nf = cxf - sxf;
                        let nl = sxl - sml + 1;
                        let old_cells = snapshot(&self.timesheet, sml, fill_start, nl, nf);
                        let mut rows: Vec<Vec<Option<CellValue>>> = Vec::new();
                        let mut i: usize = 0;
                        while i < nl
                            invariant
                                self.timesheet.grid() == g0,
                                nl == frames_between(sml, sxl),
                                sml + nl <= usize::MAX,
                                nf == cxf - sxf,
                                i <= nl,
                                fill_fits(g0, sml, sxl, smf, sxf, cxf),
                                sxl == sml + nl - 1,
                                rows@.len() == i,
                                forall|k: int| 0 <= k < i ==> (#[trigger] rows@[k])@
                                    == Self::smart_fill_rows(g0, sml, sxl, smf, sxf, cxf)[k],
                                forall|k: int| 0 <= k < i ==> (#[trigger] rows@[k])@.len() == nf,
                            decreases nl - i,
                        {
                            let samples = self.collect_present(sml + i, smf, sxf);
                            assert(smart_fits(present_values(g0, sml + i, smf as int, frames_between(smf, sxf)), nf as nat));
                            let generated = generate_smart_sequence(&samples, nf);
                            rows.push(generated);
                            i = i + 1;
                        }
                        assert(rows_of(rows@) =~= Self::smart_fill_rows(g0, sml, sxl, smf, sxf, cxf));
                        self.undo_stack.push_back(UndoAction::SetRange { min_layer: sml, min_frame: fill_start, old_values: old_cells });
                        self.is_modified = true;
                        write_block(&mut self.timesheet, sml, fill_start, &rows);
                    }
                },
                _ => {},
            }
        }
        self.selection_state.is_fill_dragging = false;
        self.selection_state.fill_source_range = None;
    }

    /// The pattern engine of smart fill on frames `start..=end` of `layer`: continues the
    /// resolved values in that range (or, when it has none, the run just above it) after
    /// its last filled cell, recording the written cells for undo. Fails when there is no
    /// pattern or the range is already full.
    pub fn smart_fill_pattern(&mut self, layer: usize, start: usize, end: usize) -> (r: Result<(), &'static str>)
        requires
            start <= end,
            end + 1 < usize::MAX,
            layer < usize::MAX,
            pattern_fits(old(self).timesheet.grid(), layer, start, end),
        ensures
            Self::pattern_filled(*old(self), *final(self), layer, start, end, r),
    {
        let ghost g = self.timesheet.grid();
        let present = self.collect_present(layer, start, end);
        let has_data = present.len() > 0;
        let samples = if has_data { present } else { self.scan_upwards_for_numbers(layer, start) };
        if samples.len() == 0 {
            return Err("No pattern found above or in selection");
        }
        let fill_start = if !has_data {
            start
        } else {
            let mut last_idx: usize = start;
            let mut f: usize = start;
            proof { lemma_present_values_len(g, layer as int, start as int, frames_between(start, end)); }
            while f <= end
                invariant
                    start <= f <= end + 1,
                    end + 1 < usize::MAX,
                    g == self.timesheet.grid(),
                    start <= last_idx <= end,
                    last_filled(g, layer as int, start as int, (f - start) as nat) matches Some(x) ==> last_idx == x,
                    last_filled(g, layer as int, start as int, frames_between(start, end)) is Some,
                    frames_between(start, end) == end - start + 1,
                decreases end + 1 - f,
            {
                if self.timesheet.get_cell(layer, f).is_some() {
                    last_idx = f;
                }
                assert(last_filled(g, layer as int, start as int, (f - start + 1) as nat) matches Some(x) ==> last_idx == x);
                f = f + 1;
            }
            last_idx + 1
        };
        if fill_start > end {
            return Err("Selection is already full");
        }
        let count = end - fill_start + 1;
        let generated = generate_smart_sequence(&samples, count);
        let old_cells = snapshot(&self.timesheet, layer, fill_start, 1, count);
        self.undo_stack.push_back(UndoAction::SetRange { min_layer: layer, min_frame: fill_start, old_values: old_cells });
        self.is_modified = true;
        let rows = vec![generated];
        assert(rows_of(rows@) =~= seq![smart_sequence(samples@, count as nat)]);
        write_block(&mut self.timesheet, layer, fill_start, &rows);
        Ok(())
    }

    /// Writes `vals` down layer `l` from frame `start`, recording the cells it covers for undo.
    fn write_column_with_undo(&mut self, l: usize, start: usize, vals: Vec<Option<CellValue>>)
        requires
            l < usize::MAX,
            start + vals@.len() < usize::MAX,
        ensures
            final(self).keeps_view_state(old(self)),
            final(self).timesheet.grid() == write_rows(old(self).timesheet.grid(), l as int, start as int, seq![vals@], 1),
            final(self).undo_stack@.drop_last() == old(self).undo_stack@,
            records_range(final(self).undo_stack@.last(), l as int, start as int,
                block_of(old(self).timesheet.grid(), l as int, start as int, 1, vals@.len())),
            final(self).is_modified,
    {
        let n = vals.len();
        let old_cells = snapshot(&self.timesheet, l, start, 1, n);
        self.undo_stack.push_back(UndoAction::SetRange { min_layer: l, min_frame: start, old_values: old_cells });
        self.is_modified = true;
        let ghost vv = vals@;
        let rows = vec![vals];
        assert(rows_of(rows@) =~= seq![vv]);
        write_block(&mut self.timesheet, l, start, &rows);
    }

    /// Repeats the selected run of one layer below itself: `count` times, or until the
    /// last frame when `until_end`, never past the last frame. Records the written cells
    /// for undo.
    pub fn repeat_selection(&mut self, count: u32, until_end: bool) -> (r: Result<(), &'static str>)
        requires
            old(self).timesheet.frames() < usize::MAX,
            old(self).selection() matches Some((ml, mf, xl, xf)) ==> {
                &&& xf + 2 < usize::MAX
                &&& ml < usize::MAX
                &&& (xf - mf + 1) * count <= usize::MAX
            },
        ensures
            match old(self).selection() {
                None => r == Err::<(), &'static str>("No sel") && *final(self) == *old(self),
                Some((ml, mf, xl, xf)) => if ml != xl {
                    r == Err::<(), &'static str>("Single col only") && *final(self) == *old(self)
                } else {
                    let g = old(self).timesheet.grid();
                    let src = column(g, ml as int, mf as int, (xf - mf + 1) as nat);
                    let start = xf + 1;
                    let avail = if old(self).timesheet.frames() > start { (old(self).timesheet.frames() - start) as nat } else { 0nat };
                    let n = if until_end { avail } else { min_nat(src.len() * count as nat, avail) };
                    if avail == 0 {
                        r == Err::<(), &'static str>("No frames") && *final(self) == *old(self)
                    } else {
                        &&& r is Ok
                        &&& final(self).keeps_view_state(old(self))
                        &&& final(self).timesheet.grid() == write_rows(g, ml as int, start, seq![repeated(src, n)], 1)
                        &&& final(self).undo_stack@.drop_last() == old(self).undo_stack@
                        &&& records_range(final(self).undo_stack@.last(), ml as int, start, block_of(g, ml as int, start, 1, n))
                        &&& final(self).is_modified
                    }
                },
            },
    {
        let (l, sf, ef) = match self.check_single_column_selection() {
            Ok(t) => t,
            Err(e) => { return Err(e); },
        };
        let n = ef - sf + 1;
        let src = column_cells(&self.timesheet, l, sf, n);
        let start = ef + 1;
        let total = self.timesheet.total_frames();
        let avail = if total > start { total - start } else { 0 };
        if avail == 0 {
            return Err("No frames");
        }
        let write_len = if until_end {
            avail
        } else {
            let want = n * (count as usize);
            if want < avail { want } else { avail }
        };
        let mut vals: Vec<Option<CellValue>> = Vec::new();
        let mut k: usize = 0;
        while k < write_len
            invariant
                k <= write_len,
                n == src@.len(),
                n > 0,
                vals@ == repeated(src@, k as nat),
            decreases write_len - k,
        {
            vals.push(src[k % n]);
            k = k + 1;
            assert(vals@ =~= repeated(src@, k as nat));
        }
        self.write_column_with_undo(l, start, vals);
        Ok(())
    }

    /// Fills layer `l` from frame `sf` with the numbers from `sv` to `ev` (counting up or
    /// down), each held for `h` frames, never past the last frame. Records the written cells
    /// for undo; fails when nothing would be written.
    pub fn sequence_fill(&mut self, l: usize, sf: usize, sv: u32, ev: u32, h: u32) -> (r: Result<(), &'static str>)
        requires
            l < usize::MAX,
            (if ev >= sv { ev - sv + 1 } else { sv - ev + 1 }) <= u32::MAX,
            (if ev >= sv { ev - sv + 1 } else { sv - ev + 1 }) * h <= u32::MAX,
            sf + (if ev >= sv { ev - sv + 1 } else { sv - ev + 1 }) * h + 1 < usize::MAX,
        ensures
            ({
                let g = old(self).timesheet.grid();
                let count = if ev >= sv { ev - sv + 1 } else { sv - ev + 1 };
                let want = sf + count * h;
                let end = if want < old(self).timesheet.frames() { want } else { old(self).timesheet.frames() as int };
                if end <= sf {
                    r == Err::<(), &'static str>("No frames") && *final(self) == *old(self)
                } else {
                    let n = (end - sf) as nat;
                    &&& r is Ok
                    &&& final(self).keeps_view_state(old(self))
                    &&& final(self).timesheet.grid() == write_rows(g, l as int, sf as int, seq![sequence_values(sv, ev, h, n)], 1)
                    &&& final(self).undo_stack@.drop_last() == old(self).undo_stack@
                    &&& records_range(final(self).undo_stack@.last(), l as int, sf as int, block_of(g, l as int, sf as int, 1, n))
                    &&& final(self).is_modified
                }
            }),
    {
        let total = self.timesheet.total_frames();
        let count: u32 = if ev >= sv { ev - sv + 1 } else { sv - ev + 1 };
        let frames = (count * h) as usize;
        let want = sf + frames;
        let end = if want < total { want } else { total };
        if end <= sf {
            return Err("No frames");
        }
        let n = end - sf;
        let mut vals: Vec<Option<CellValue>> = Vec::new();
        let mut k: usize = 0;
        while k < n
            invariant
                k <= n,
                n <= count * h,
                h > 0,
                count == (if ev >= sv { ev - sv + 1 } else { sv - ev + 1 }),
                vals@ == sequence_values(sv, ev, h, k as nat),
            decreases n - k,
        {
            let q: usize = k / (h as usize);
            assert(q < count) by (nonlinear_arith)
                requires
                    q as int == (k as int) / (h as int),
                    k < count * h,
                    h > 0,
            ;
            let v: u32 = if ev >= sv { sv + (q as u32) } else { sv - (q as u32) };
            vals.push(Some(CellValue::Number(v)));
            k = k + 1;
            assert(vals@ =~= sequence_values(sv, ev, h, k as nat));
        }
        self.write_column_with_undo(l, sf, vals);
        Ok(())
    }

    /// Mirrors cells of the selected run of one layer. With data in the selection: when it
    /// has an empty cell, the cells above that gap are written reversed from the gap on;
    /// otherwise the run is reversed in place. Without data, the run just above the
    /// selection is written reversed into it. Written cells are recorded for undo; in-place
    /// writes happen only when they change something.
    pub fn reverse_selection(&mut self) -> (r: Result<(), &'static str>)
        requires
            old(self).selection() matches Some((ml, mf, xl, xf)) ==> {
                &&& ml < usize::MAX
                &&& xf + 2 < usize::MAX
                &&& (mf == 0 && has_data(old(self).timesheet.grid(), ml as int, 0, (xf + 1) as nat)
                    ==> old(self).timesheet.cell(ml as int, 0) is Some)
            },
        ensures
            match old(self).selection() {
                None => r == Err::<(), &'static str>("No sel") && *final(self) == *old(self),
                Some((ml, mf, xl, xf)) => if ml != xl {
                    r == Err::<(), &'static str>("Single col only") && *final(self) == *old(self)
                } else {
                    let g = old(self).timesheet.grid();
                    match reverse_plan(g, ml as int, mf as int, xf as int) {
                        None => r == Err::<(), &'static str>("Nothing above to mirror") && *final(self) == *old(self),
                        Some((start, vals, always)) => {
                            &&& r is Ok
                            &&& if always || column(g, ml as int, start, vals.len()) != vals {
                                &&& final(self).keeps_view_state(old(self))
                                &&& final(self).timesheet.grid() == write_rows(g, ml as int, start, seq![vals], 1)
                                &&& final(self).undo_stack@.drop_last() == old(self).undo_stack@
                                &&& records_range(final(self).undo_stack@.last(), ml as int, start,
                                    block_of(g, ml as int, start, 1, vals.len()))
                                &&& final(self).is_modified
                            } else {
                                *final(self) == *old(self)
                            }
                        },
                    }
                },
            },
    {
        let (layer, sf, ef) = match self.check_single_column_selection() {
            Ok(t) => t,
            Err(e) => { return Err(e); },
        };
        let ghost g = self.timesheet.grid();
        let n = ef - sf + 1;
        let col = column_cells(&self.timesheet, layer, sf, n);
        let mut has = false;
        let mut split: Option<usize> = None;
        let mut j: usize = 0;
        while j < n
            invariant
                j <= n,
                n == ef - sf + 1,
                ef + 2 < usize::MAX,
                col@ == column(g, layer as int, sf as int, n as nat),
                has == has_data(g, layer as int, sf as int, j as nat),
                match split {
                    Some(e) => first_empty(g, layer as int, sf as int, j as nat) == Some(e as int) && sf <= e < sf + j,
                    None => first_empty(g, layer as int, sf as int, j as nat) is None,
                },
            decreases n - j,
        {
            proof {
                if has_data(g, layer as int, sf as int, (j + 1) as nat) && !has_data(g, layer as int, sf as int, j as nat) {
                    let w = choose|w: int| 0 <= w < j + 1 && (#[trigger] grid_cell(g, layer as int, sf + w)) is Some;
                    assert(w == j);
                }
            }
            if col[j].is_some() {
                has = true;
                assert(grid_cell(g, layer as int, sf + j) is Some);
            }
            if split.is_none() && col[j].is_none() {
                split = Some(sf + j);
            }
            j = j + 1;
        }
        let vals: Vec<Option<CellValue>>;
        let always: bool;
        if has {
            match split {
                Some(e) => {
                    proof { lemma_first_empty(g, layer as int, sf as int, n as nat); }
                    let above = column_cells(&self.timesheet, layer, sf, e - sf);
                    let src = reversed_cells(&above);
                    let room = ef - e + 1;
                    let wc = if room < src.len() { room } else { src.len() };
                    vals = take_cells(&src, wc);
                    always = true;
                },
                None => {
                    vals = reversed_cells(&col);
                    always = false;
                },
            }
        } else {
            let up = self.scan_upwards_for_numbers(layer, sf);
            if up.len() == 0 {
                return Err("Nothing above to mirror");
            }
            let mut src: Vec<Option<CellValue>> = Vec::new();
            let mut k: usize = up.len();
            while k > 0
                invariant
                    k <= up@.len(),
                    src@ == Seq::new((up@.len() - k) as nat, |i: int| Some(CellValue::Number(up@[up@.len() - 1 - i]))),
                decreases k,
            {
                k = k - 1;
                src.push(Some(CellValue::Number(up[k])));
                assert(src@ =~= Seq::new((up@.len() - k) as nat, |i: int| Some(CellValue::Number(up@[up@.len() - 1 - i]))));
            }
            let wc = if n < src.len() { n } else { src.len() };
            vals = take_cells(&src, wc);
            always = false;
        }
        let start = match split { Some(e) => if has { e } else { sf }, None => sf };
        let ghost plan = reverse_plan(g, layer as int, sf as int, ef as int);
        assert(plan == Some((start as int, vals@, always)));
        if always {
            self.write_column_with_undo(layer, start, vals);
            return Ok(());
        }
        let cur = column_cells(&self.timesheet, layer, start, vals.len());
        let mut changes = false;
        let mut i: usize = 0;
        while i < vals.len()
            invariant
                i <= vals@.len(),
                cur@.len() == vals@.len(),
                changes == exists|q: int| 0 <= q < i && #[trigger] cur@[q] != vals@[q],
            decreases vals.len() - i,
        {
            if cur[i] != vals[i] {
                changes = true;
            }
            i = i + 1;
        }
        if changes {
            assert(cur@ != vals@);
            self.write_column_with_undo(layer, start, vals);
        } else {
            assert(cur@ =~= vals@);
        }
        Ok(())
    }

    /// The text of a copied block of `nl` layers and `nf` frames at (`ml`, `mf`): a line per
    /// layer, separated by newlines.
    pub open spec fn copy_text(&self, ml: int, mf: int, nl: nat, nf: nat) -> Seq<char>
        decreases nl,
    {
        if nl == 0 {
            Seq::empty()
        } else {
            let line = row_text(self.layer_type_of((ml + nl - 1) as usize),
                column(self.timesheet.grid(), ml + nl - 1, mf, nf));
            if nl == 1 { line } else { self.copy_text(ml, mf, (nl - 1) as nat, nf) + seq!['\n'] + line }
        }
    }

    /// The window title: the sheet name, " - " and the file path when there is one, and
    /// "*" when modified.
    pub fn title(&self) -> (t: String)
        ensures
            t@ == (match self.file_path {
                Some(p) => self.timesheet.name@ + seq![' ', '-', ' '] + p@,
                None => self.timesheet.name@,
            }) + (if self.is_modified { seq!['*'] } else { Seq::<char>::empty() }),
    {
        let mut v: Vec<char> = Vec::new();
        push_str_chars(&mut v, self.timesheet.name.as_str());
        match &self.file_path {
            Some(p) => {
                v.push(' ');
                v.push('-');
                v.push(' ');
                push_str_chars(&mut v, p.as_str());
            },
            None => {},
        }
        if self.is_modified {
            v.push('*');
        }
        let ghost base = if self.file_path is Some {
            self.timesheet.name@ + seq![' ', '-', ' '] + self.file_path->Some_0@
        } else {
            self.timesheet.name@
        };
        assert(v@ =~= base + (if self.is_modified { seq!['*'] } else { Seq::<char>::empty() }));
        string_from_chars(&v)
    }

    /// Starts editing cell (`layer`, `frame`): the edit text becomes its resolved value as
    /// shown on its layer (empty when it has none), and the edit applies to the selected
    /// block when the cell lies in it and no block was chosen yet.
    pub fn start_edit(&mut self, layer: usize, frame: usize)
        ensures
            final(self).edit_state.editing_cell == Some((layer, frame)),
            final(self).edit_state.editing_text@ == match resolved(old(self).timesheet.grid(), layer as int, frame as int) {
                Some(v) => formatted(old(self).layer_type_of(layer), v),
                None => Seq::<char>::empty(),
            },
            final(self).edit_state.batch_edit_range == (if old(self).edit_state.batch_edit_range is None
                && (old(self).selection() matches Some((ml, mf, xl, xf)) && ml <= layer <= xl && mf <= frame <= xf) {
                old(self).selection()
            } else {
                old(self).edit_state.batch_edit_range
            }),
            final(self).edit_state.editing_layer_name == old(self).edit_state.editing_layer_name,
            final(self).timesheet == old(self).timesheet,
            final(self).selection_state == old(self).selection_state,
            final(self).undo_stack@ == old(self).undo_stack@,
            final(self).is_modified == old(self).is_modified,
            final(self).layer_types@ == old(self).layer_types@,
    {
        self.edit_state.editing_cell = Some((layer, frame));
        if self.edit_state.batch_edit_range.is_none() {
            match self.get_selection_range() {
                Some((ml, mf, xl, xf)) => {
                    if layer >= ml && layer <= xl && frame >= mf && frame <= xf {
                        self.edit_state.batch_edit_range = Some((ml, mf, xl, xf));
                    }
                },
                None => {},
            }
        }
        match self.resolve_actual_value(layer, frame) {
            Some(val) => {
                self.edit_state.editing_text = self.format_cell_value(layer, val);
            },
            None => {
                self.edit_state.editing_text = String::new();
            },
        }
    }

    /// Starts editing cell (`l`, `f`) with the edit applying to the whole selected block.
    pub fn start_batch_edit(&mut self, l: usize, f: usize)
        ensures
            final(self).edit_state.editing_cell == Some((l, f)),
            final(self).edit_state.editing_text@ == match resolved(old(self).timesheet.grid(), l as int, f as int) {
                Some(v) => formatted(old(self).layer_type_of(l), v),
                None => Seq::<char>::empty(),
            },
            final(self).edit_state.batch_edit_range == old(self).selection(),
            final(self).timesheet == old(self).timesheet,
            final(self).selection_state == old(self).selection_state,
            final(self).undo_stack@ == old(self).undo_stack@,
            final(self).is_modified == old(self).is_modified,
    {
        self.edit_state.batch_edit_range = self.get_selection_range();
        self.start_edit(l, f);
    }

    /// Appends how cell value `c` is written on layer `l` to `out`.
    fn push_cell_text(&self, out: &mut Vec<char>, l: usize, c: Option<CellValue>)
        ensures
            final(out)@ == old(out)@ + cell_text(self.layer_type_of(l), c),
    {
        match c {
            Some(CellValue::Number(n)) => {
                let s = self.format_cell_value(l, n);
                push_str_chars(out, s.as_str());
            },
            Some(CellValue::Same) => {
                out.push('-');
                assert(out@ =~= old(out)@ + cell_text(self.layer_type_of(l), c));
            },
            None => {
                assert(out@ =~= old(out)@ + cell_text(self.layer_type_of(l), c));
            },
        }
    }

    /// Copies the selected block into the clipboard and returns it as text (a line per
    /// layer, tab-separated cells, numbers as shown on their layer); `None` and nothing
    /// changed without a selection.
    pub fn copy_selection(&mut self) -> (text: Option<String>)
        requires
            old(self).selection() matches Some((ml, mf, xl, xf)) ==> xl < usize::MAX && xf < usize::MAX,
        ensures
            match old(self).selection() {
                Some((ml, mf, xl, xf)) => {
                    let nl = (xl - ml + 1) as nat;
                    let nf = (xf - mf + 1) as nat;
                    &&& text matches Some(t) && t@ == old(self).copy_text(ml as int, mf as int, nl, nf)
                    &&& final(self).clipboard matches Some(cb)
                        && rows_of(cb@) == block_of(old(self).timesheet.grid(), ml as int, mf as int, nl, nf)
                },
                None => text is None && final(self).clipboard == old(self).clipboard,
            },
            final(self).timesheet == old(self).timesheet,
            final(self).undo_stack@ == old(self).undo_stack@,
            final(self).is_modified == old(self).is_modified,
            final(self).selection_state == old(self).selection_state,
            final(self).edit_state == old(self).edit_state,
            final(self).layer_types@ == old(self).layer_types@,
            final(self).layer_folders@ == old(self).layer_folders@,
    {
        match self.get_selection_range() {
            Some((ml, mf, xl, xf)) => {
                let nl = xl - ml + 1;
                let nf = xf - mf + 1;
                let data = snapshot(&self.timesheet, ml, mf, nl, nf);
                let mut txt: Vec<char> = Vec::new();
                let mut i: usize = 0;
                while i < nl
                    invariant
                        nl == xl - ml + 1,
                        nf == xf - mf + 1,
                        xl < usize::MAX,
                        xf < usize::MAX,
                        i <= nl,
                        txt@ == self.copy_text(ml as int, mf as int, i as nat, nf as nat),
                    decreases nl - i,
                {
                    let l = ml + i;
                    let ghost before = txt@;
                    if i > 0 {
                        txt.push('\n');
                    }
                    let ghost prefix = txt@;
                    let mut j: usize = 0;
                    while j < nf
                        invariant
                            nf == xf - mf + 1,
                            xf < usize::MAX,
                            l == ml + i,
                            j <= nf,
                            txt@ == prefix + row_text(self.layer_type_of(l), column(self.timesheet.grid(), l as int, mf as int, j as nat)),
                        decreases nf - j,
                    {
                        let ghost cols = column(self.timesheet.grid(), l as int, mf as int, (j + 1) as nat);
                        assert(cols.drop_last() =~= column(self.timesheet.grid(), l as int, mf as int, j as nat));
                        if j > 0 {
                            txt.push('\t');
                        }
                        let c = match self.timesheet.get_cell(l, mf + j) { Some(v) => Some(*v), None => None };
                        self.push_cell_text(&mut txt, l, c);
                        assert(txt@ =~= prefix + row_text(self.layer_type_of(l), cols));
                        j = j + 1;
                    }
                    assert(txt@ =~= self.copy_text(ml as int, mf as int, (i + 1) as nat, nf as nat));
                    i = i + 1;
                }
                self.clipboard = Some(data);
                Some(string_from_chars(&txt))
            },
            None => None,
        }
    }

    /// Copies the selected block (as `copy_selection`) and then empties it (as
    /// `delete_selection`).
    pub fn cut_selection(&mut self) -> (text: Option<String>)
        requires
            old(self).edit_fits(),
        ensures
            match old(self).selection() {
                Some((ml, mf, xl, xf)) => {
                    let nl = (xl - ml + 1) as nat;
                    let nf = (xf - mf + 1) as nat;
                    &&& text matches Some(t) && t@ == old(self).copy_text(ml as int, mf as int, nl, nf)
                    &&& final(self).clipboard matches Some(cb)
                        && rows_of(cb@) == block_of(old(self).timesheet.grid(), ml as int, mf as int, nl, nf)
                    &&& final(self).timesheet.grid() == write_rows(old(self).timesheet.grid(), ml as int, mf as int,
                        uniform_block(nl, nf, None), nl)
                    &&& final(self).undo_stack@.drop_last() == old(self).undo_stack@
                    &&& records_range(final(self).undo_stack@.last(), ml as int, mf as int,
                        block_of(old(self).timesheet.grid(), ml as int, mf as int, nl, nf))
                    &&& final(self).is_modified
                },
                None => {
                    &&& text is None
                    &&& match old(self).selection_state.selected_cell {
                        Some((l, f)) => {
                            &&& final(self).timesheet.grid() == grid_with(old(self).timesheet.grid(), l as int, f as int, None)
                            &&& final(self).undo_stack@ == pushed_set_cell(old(self).undo_stack@, l, f,
                                old(self).timesheet.cell(l as int, f as int))
                            &&& final(self).is_modified
                        },
                        None => final(self).timesheet == old(self).timesheet && final(self).undo_stack@ == old(self).undo_stack@,
                    }
                },
            },
    {
        let text = self.copy_selection();
        self.delete_selection();
        text
    }

    /// The memory held by the undo history, as estimated (always 0).
    pub fn estimate_undo_memory(&self) -> (n: usize)
        ensures
            n == 0,
    {
        0
    }

    /// Chooses how smart fill treats the selection: it must lie in one layer; when its
    /// last cell is filled and it holds at least two numbered cells, they are interpolated;
    /// otherwise the pattern is continued.
    pub fn plan_smart_fill(&self) -> (r: Result<SmartFillPlan, &'static str>)
        requires
            self.selection() matches Some((ml, mf, xl, xf)) ==> xf < usize::MAX,
        ensures
            match self.selection() {
                None => r == Err::<SmartFillPlan, &'static str>("No sel"),
                Some((ml, mf, xl, xf)) => if ml != xl {
                    r == Err::<SmartFillPlan, &'static str>("Single col only")
                } else {
                    let keys = numbered(self.timesheet.grid(), ml as int, mf as int, (xf - mf + 1) as nat);
                    if self.timesheet.cell(ml as int, xf as int) is Some && keys.len() >= 2 {
                        r matches Ok(SmartFillPlan::Tween { layer, start_frame, end_frame, keyframes })
                            && layer == ml && start_frame == mf && end_frame == xf && keyframes@ == keys
                    } else {
                        r matches Ok(SmartFillPlan::Pattern { layer, start_frame, end_frame })
                            && layer == ml && start_frame == mf && end_frame == xf
                    }
                },
            },
    {
        let (layer, sf, ef) = match self.check_single_column_selection() {
            Ok(t) => t,
            Err(e) => { return Err(e); },
        };
        let ghost g = self.timesheet.grid();
        let trailing_empty = self.timesheet.get_cell(layer, ef).is_none();
        let mut keys: Vec<(usize, u32)> = Vec::new();
        let mut f: usize = sf;
        while f <= ef
            invariant
                sf <= f <= ef + 1,
                ef < usize::MAX,
                g == self.timesheet.grid(),
                keys@ == numbered(g, layer as int, sf as int, (f - sf) as nat),
            decreases ef + 1 - f,
        {
            let ghost before = keys@;
            assert(numbered(g, layer as int, sf as int, (f - sf + 1) as nat)
                == match grid_cell(g, layer as int, f as int) {
                    Some(CellValue::Number(v)) => before.push((f, v)),
                    _ => before,
                });
            match self.timesheet.get_cell(layer, f) {
                Some(CellValue::Number(n)) => { keys.push((f, *n)); },
                _ => {},
            }
            f = f + 1;
        }
        if !trailing_empty && keys.len() >= 2 {
            Ok(SmartFillPlan::Tween { layer, start_frame: sf, end_frame: ef, keyframes: keys })
        } else {
            Ok(SmartFillPlan::Pattern { layer, start_frame: sf, end_frame: ef })
        }
    }

    /// The interpolation engine of smart fill: records frames `start..=end` of `layer` for
    /// undo, then fills the frames between consecutive keyframes from `values` (the value
    /// for each frame strictly between them, in order) as `tween_gap` describes.
    #[verifier::spinoff_prover]
    #[verifier::rlimit(40)]
    pub fn apply_tween(&mut self, layer: usize, start: usize, end: usize, keyframes: &Vec<(usize, u32)>, values: &Vec<Vec<u32>>)
        requires
            start <= end,
            end + 1 < usize::MAX,
            layer < usize::MAX,
            tween_shape(keyframes@, Seq::new(values@.len(), |w: int| values@[w]@)),
        ensures
            final(self).keeps_view_state(old(self)),
            final(self).timesheet.grid() == tween_grid(old(self).timesheet.grid(), layer as int, keyframes@,
                Seq::new(values@.len(), |w: int| values@[w]@), (keyframes@.len() - 1) as nat),
            final(self).undo_stack@.drop_last() == old(self).undo_stack@,
            records_range(final(self).undo_stack@.last(), layer as int, start as int,
                block_of(old(self).timesheet.grid(), layer as int, start as int, 1, (end - start + 1) as nat)),
            final(self).is_modified,
    {
        let ghost vv = Seq::new(values@.len(), |w: int| values@[w]@);
        let ghost g0 = self.timesheet.grid();
        let old_cells = snapshot(&self.timesheet, layer, start, 1, end - start + 1);
        self.undo_stack.push_back(UndoAction::SetRange { min_layer: layer, min_frame: start, old_values: old_cells });
        self.is_modified = true;
        let nk = keyframes.len();
        let mut w: usize = 0;
        while w + 1 < nk
            invariant
                nk == keyframes@.len(),
                vv == Seq::new(values@.len(), |w: int| values@[w]@),
                tween_shape(keyframes@, vv),
                w + 1 <= nk,
                self.timesheet.grid() == tween_grid(g0, layer as int, keyframes@, vv, w as nat),
                self.keeps_view_state(old(self)),
                self.undo_stack@.drop_last() == old(self).undo_stack@,
                records_range(self.undo_stack@.last(), layer as int, start as int,
                    block_of(g0, layer as int, start as int, 1, (end - start + 1) as nat)),
                self.is_modified,
                g0 == old(self).timesheet.grid(),
            decreases nk - w,
        {
            let (f1, v1) = keyframes[w];
            let f2 = keyframes[w + 1].0;
            assert(keyframes@[w as int].0 < keyframes@[w + 1].0);
            let vals = &values[w];
            assert(vv[w as int] == vals@);
            let gap = f2 - f1 - 1;
            let ghost gw = self.timesheet.grid();
            let mut prev: u32 = v1;
            let mut k: usize = 0;
            while k < gap
                invariant
                    gap == f2 - f1 - 1,
                    f2 + 1 < usize::MAX,
                    vals@.len() == gap,
                    k <= gap,
                    (self.timesheet.grid(), prev) == tween_gap(gw, layer as int, f1 as int, v1, vals@, k as nat),
                    self.keeps_view_state(old(self)),
                    self.undo_stack@.drop_last() == old(self).undo_stack@,
                    records_range(self.undo_stack@.last(), layer as int, start as int,
                        block_of(g0, layer as int, start as int, 1, (end - start + 1) as nat)),
                    self.is_modified,
                decreases gap - k,
            {
                let f = f1 + 1 + k;
                if self.timesheet.get_cell(layer, f).is_none() {
                    let cv = vals[k];
                    if cv != prev {
                        self.timesheet.set_cell(layer, f, Some(CellValue::Number(cv)));
                        prev = cv;
                    } else {
                        self.timesheet.set_cell(layer, f, Some(CellValue::Same));
                    }
                } else {
                    match self.resolve_actual_value(layer, f) {
                        Some(a) => { prev = a; },
                        None => {},
                    }
                }
                k = k + 1;
            }
            w = w + 1;
        }
    }

    /// Smart fill of the selected run of one layer: when its last cell is filled and it holds
    /// at least two numbered cells, the empty cells between consecutive numbered cells get the
    /// drawings that `interpolate(f1, v1, f2, v2, f)` gives for frame `f` between keyframes
    /// (`f1`, `v1`) and (`f2`, `v2`) (see `apply_tween`); otherwise the pattern is continued
    /// (see `smart_fill_pattern`). Errors, which leave the document as it was: no selection,
    /// a selection over several layers, no pattern, or a run that is already full. It writes
    /// only cells of the selected run that hold no number, and records the run for undo.
    pub fn smart_fill_auto<F: Fn(usize, u32, usize, u32, usize) -> u32>(&mut self, interpolate: F) -> (r: Result<(), &'static str>)
        requires
            forall|f1: usize, v1: u32, f2: usize, v2: u32, f: usize| call_requires(interpolate, (f1, v1, f2, v2, f)),
            old(self).selection() matches Some((ml, mf, xl, xf)) ==> {
                &&& xf + 1 < usize::MAX
                &&& ml < usize::MAX
                &&& pattern_fits(old(self).timesheet.grid(), ml, mf, xf)
            },
        ensures
            match old(self).selection() {
                None => r == Err::<(), &'static str>("No sel") && *final(self) == *old(self),
                Some((ml, mf, xl, xf)) => if ml != xl {
                    r == Err::<(), &'static str>("Single col only") && *final(self) == *old(self)
                } else {
                    let g = old(self).timesheet.grid();
                    let keys = numbered(g, ml as int, mf as int, (xf - mf + 1) as nat);
                    &&& forall|l: int, f: int| #[trigger] grid_cell(final(self).timesheet.grid(), l, f) != grid_cell(g, l, f)
                        ==> l == ml && mf <= f <= xf && !(grid_cell(g, l, f) is Some && grid_cell(g, l, f)->Some_0 is Number)
                    &&& if old(self).timesheet.cell(ml as int, xf as int) is Some && keys.len() >= 2 {
                        &&& r is Ok
                        &&& final(self).keeps_view_state(old(self))
                        &&& final(self).undo_stack@.drop_last() == old(self).undo_stack@
                        &&& records_range(final(self).undo_stack@.last(), ml as int, mf as int,
                            block_of(g, ml as int, mf as int, 1, (xf - mf + 1) as nat))
                        &&& final(self).is_modified
                        &&& exists|vals: Seq<Seq<u32>>| {
                            &&& tween_shape(keys, vals)
                            &&& forall|w: int, k: int| 0 <= w < vals.len() && 0 <= k < vals[w].len() ==> call_ensures(interpolate,
                                (keys[w].0, keys[w].1, keys[w + 1].0, keys[w + 1].1, (keys[w].0 + k + 1) as usize), #[trigger] vals[w][k])
                            &&& final(self).timesheet.grid() == tween_grid(g, ml as int, keys, vals, (keys.len() - 1) as nat)
                        }
                    } else {
                        Self::pattern_filled(*old(self), *final(self), ml, mf, xf, r)
                    }
                },
            },
    {
        let ghost g = self.timesheet.grid();
        let plan = match self.plan_smart_fill() {
            Ok(p) => p,
            Err(e) => { return Err(e); },
        };
        match plan {
            SmartFillPlan::Tween { layer, start_frame, end_frame, keyframes } => {
                let ghost n = (end_frame - start_frame + 1) as nat;
                proof { lemma_numbered_props(g, layer as int, start_frame as int, n); }
                let nk = keyframes.len();
                let mut values: Vec<Vec<u32>> = Vec::new();
                let mut w: usize = 0;
                while w + 1 < nk
                    invariant
                        nk == keyframes@.len(),
                        nk >= 2,
                        w + 1 <= nk,
                        values@.len() == w,
                        forall|a: int| 0 <= a < nk - 1 ==> (#[trigger] keyframes@[a]).0 < keyframes@[a + 1].0,
                        forall|a: int, k: int| 0 <= a < w && 0 <= k < values@[a]@.len() ==> call_ensures(interpolate,
                            (keyframes@[a].0, keyframes@[a].1, keyframes@[a + 1].0, keyframes@[a + 1].1,
                            (keyframes@[a].0 + k + 1) as usize), #[trigger] values@[a]@[k]),
                        forall|a: int| 0 <= a < w ==> (#[trigger] values@[a])@.len() == keyframes@[a + 1].0 - keyframes@[a].0 - 1,
                        forall|f1: usize, v1: u32, f2: usize, v2: u32, f: usize| call_requires(interpolate, (f1, v1, f2, v2, f)),
                    decreases nk - w,
                {
                    let (f1, v1) = keyframes[w];
                    let (f2, v2) = keyframes[w + 1];
                    assert(keyframes@[w as int].0 < keyframes@[w + 1].0);
                    let mut row: Vec<u32> = Vec::new();
                    let mut f: usize = f1 + 1;
                    while f < f2
                        invariant
                            f1 < f2,
                            f1 + 1 <= f <= f2,
                            row@.len() == f - f1 - 1,
                            forall|k: int| 0 <= k < row@.len() ==> call_ensures(interpolate,
                                (f1, v1, f2, v2, (f1 + k + 1) as usize), #[trigger] row@[k]),
                            forall|f1: usize, v1: u32, f2: usize, v2: u32, f: usize| call_requires(interpolate, (f1, v1, f2, v2, f)),
                        decreases f2 - f,
                    {
                        let x = interpolate(f1, v1, f2, v2, f);
                        row.push(x);
                        f = f + 1;
                    }
                    values.push(row);
                    w = w + 1;
                }
                let ghost vv = Seq::new(values@.len(), |a: int| values@[a]@);
                assert(tween_shape(keyframes@, vv));
                self.apply_tween(layer, start_frame, end_frame, &keyframes, &values);
                proof {
                    let keys = keyframes@;
                    assert forall|l: int, f: int| #[trigger] grid_cell(self.timesheet.grid(), l, f) != grid_cell(g, l, f)
                        implies l == layer && start_frame <= f <= end_frame
                            && !(grid_cell(g, l, f) is Some && grid_cell(g, l, f)->Some_0 is Number) by {
                        lemma_tween_fills_gaps_only(g, layer as int, keys, vv, (keys.len() - 1) as nat, l, f);
                    }
                    assert(forall|a: int, k: int| 0 <= a < vv.len() && 0 <= k < vv[a].len() ==> call_ensures(interpolate,
                        (keys[a].0, keys[a].1, keys[a + 1].0, keys[a + 1].1, (keys[a].0 + k + 1) as usize), #[trigger] vv[a][k]));
                }
                Ok(())
            },
            SmartFillPlan::Pattern { layer, start_frame, end_frame } => {
                let r = self.smart_fill_pattern(layer, start_frame, end_frame);
                proof {
                    assert forall|l: int, f: int| #[trigger] grid_cell(self.timesheet.grid(), l, f) != grid_cell(g, l, f)
                        implies l == layer && start_frame <= f <= end_frame
                            && !(grid_cell(g, l, f) is Some && grid_cell(g, l, f)->Some_0 is Number) by {
                        lemma_pattern_fills_unnumbered_only(g, layer as int, start_frame, end_frame, l, f);
                    }
                }
                r
            },
        }
    }

    /// The cells a motion curve writes from `start_val` plus each offset: a number where the
    /// value changes (and at the first frame), "-" where it repeats.
    pub open spec fn curve_cells(start_val: u32, offsets: Seq<u32>) -> Seq<Option<CellValue>> {
        Seq::new(offsets.len(), |i: int|
            if i == 0 || offsets[i] != offsets[i - 1] {
                Some(CellValue::Number((start_val + offsets[i]) as u32))
            } else {
                Some(CellValue::Same)
            })
    }

    /// Writes a motion curve down layer `layer` from `frame_start`: the drawing at each frame
    /// is `start_val` plus its offset (see `curve_cells`). Records the covered cells for undo;
    /// does nothing for an empty curve.
    pub fn set_keyframe_curve_offsets(&mut self, layer: usize, frame_start: usize, start_val: u32, offsets: &Vec<u32>)
        requires
            layer < usize::MAX,
            frame_start + offsets@.len() < usize::MAX,
            forall|i: int| 0 <= i < offsets@.len() ==> start_val + #[trigger] offsets@[i] <= u32::MAX,
        ensures
            offsets@.len() == 0 ==> *final(self) == *old(self),
            offsets@.len() > 0 ==> {
                &&& final(self).keeps_view_state(old(self))
                &&& final(self).timesheet.grid() == write_rows(old(self).timesheet.grid(), layer as int, frame_start as int,
                    seq![Self::curve_cells(start_val, offsets@)], 1)
                &&& final(self).undo_stack@.drop_last() == old(self).undo_stack@
                &&& records_range(final(self).undo_stack@.last(), layer as int, frame_start as int,
                    block_of(old(self).timesheet.grid(), layer as int, frame_start as int, 1, offsets@.len()))
                &&& final(self).is_modified
            },
    {
        let n = offsets.len();
        if n < 1 {
            return;
        }
        let mut vals: Vec<Option<CellValue>> = Vec::new();
        let mut i: usize = 0;
        while i < n
            invariant
                n == offsets@.len(),
                i <= n,
                forall|q: int| 0 <= q < offsets@.len() ==> start_val + #[trigger] offsets@[q] <= u32::MAX,
                vals@ == Self::curve_cells(start_val, offsets@).take(i as int),
            decreases n - i,
        {
            let v = start_val + offsets[i];
            if i == 0 || offsets[i] != offsets[i - 1] {
                vals.push(Some(CellValue::Number(v)));
            } else {
                vals.push(Some(CellValue::Same));
            }
            i = i + 1;
            assert(vals@ =~= Self::curve_cells(start_val, offsets@).take(i as int));
        }
        assert(vals@ =~= Self::curve_cells(start_val, offsets@));
        self.write_column_with_undo(layer, frame_start, vals);
    }

    /// Reads typed text for finishing an edit of a cell on layer `layer` (see `edit_input`);
    /// `operand_reads` and `expression_value` say how its floating-point forms read.
    pub fn read_edit_text(&self, layer: usize, text: &str, operand_reads: bool, expression_value: Option<u32>) -> (r: EditInput)
        ensures
            r == edit_input(text@, self.layer_type_of(layer), operand_reads, expression_value),
    {
        let raw = str_chars(text);
        let t = trim_chars(&raw);
        if t.len() == 0 {
            return EditInput::InheritAbove;
        }
        let c = t[0];
        if c == '+' || c == '-' || c == '*' || c == '/' {
            return if operand_reads { EditInput::Operation } else { EditInput::Unreadable };
        }
        match expression_value {
            Some(v) => EditInput::Direct(CellValue::Number(v)),
            None => match Self::parse_cell_input(text, self.layer_type(layer)) {
                Some(n) => EditInput::Direct(CellValue::Number(n)),
                None => EditInput::Unreadable,
            },
        }
    }

    /// Finishing an edit cannot overflow an index.
    pub open spec fn finish_fits(&self) -> bool {
        self.edit_state.editing_cell matches Some((layer, frame)) ==> match self.edit_state.batch_edit_range {
            Some((ml, mf, xl, xf)) => xl < usize::MAX && xf + 1 < usize::MAX,
            None => frame + self.jump_step + 1 < usize::MAX,
        }
    }

    /// The effect of finishing a single-cell edit that writes `nc` at (`layer`, `frame`).
    pub open spec fn single_edit(old_doc: Document, new_doc: Document, layer: usize, frame: usize, nc: Option<CellValue>,
        move_down: bool, record_undo: bool) -> bool
    {
        let g = old_doc.timesheet.grid();
        let oc = grid_cell(g, layer as int, frame as int);
        let changed = record_undo && oc != nc;
        let g1 = grid_with(g, layer as int, frame as int, nc);
        let s1 = if changed { pushed_set_cell(old_doc.undo_stack@, layer, frame, oc) } else { old_doc.undo_stack@ };
        let total = frames_of(g1);
        let new_f = frame + old_doc.jump_step;
        let fill = if move_down && old_doc.jump_step > 1 && nc is Some {
            let limit = if new_f < total { new_f } else { total as int };
            if limit > frame + 1 { (limit - frame - 1) as nat } else { 0nat }
        } else {
            0nat
        };
        &&& new_doc.timesheet.grid() == (if fill > 0 {
                write_rows(g1, layer as int, frame + 1, seq![Seq::new(fill, |j: int| Some(CellValue::Same))], 1)
            } else {
                g1
            })
        &&& new_doc.undo_stack@ == same_fill_stack(s1, g1, layer, frame + 1, fill, record_undo)
        &&& new_doc.is_modified == (old_doc.is_modified || changed)
        &&& new_doc.selection_state.selected_cell == (if move_down && new_f < total {
                Some((layer, new_f as usize))
            } else {
                old_doc.selection_state.selected_cell
            })
        &&& new_doc.selection_state.selection_start == old_doc.selection_state.selection_start
        &&& new_doc.selection_state.selection_end == old_doc.selection_state.selection_end
    }

    /// Finishes editing the edited cell with what was typed (`input`; `operation` is the
    /// arithmetic of an `Operation` input, applied to a resolved value).
    ///
    /// For a block edit: records the block for undo (when `record_undo`), then writes each
    /// cell in turn: the cell above copied down, the result of the operation on the cell's
    /// resolved value, the typed value, or nothing; and clears the block selection.
    ///
    /// For one cell: writes "-" when the cell above holds something and nothing when it is
    /// empty (or on the first frame), so the cell then shows the value above; the operation's result, the
    /// typed value, or leaves the cell, recording the change for undo when it changes
    /// something (and `record_undo`). Moving down, it marks the frames skipped by a jump of
    /// more than one as "-" and moves the current cell by the jump when that stays inside
    /// the sheet.
    ///
    /// Editing ends in every case; nothing happens when no cell is being edited.
    #[verifier::spinoff_prover]
    #[verifier::rlimit(40)]
    pub fn finish_edit<F: Fn(u32) -> u32>(&mut self, move_down: bool, record_undo: bool, input: EditInput, operation: F)
        requires
            forall|x: u32| call_requires(operation, (x,)),
            old(self).finish_fits(),
        ensures
            old(self).edit_state.editing_cell is None ==> *final(self) == *old(self),
            old(self).edit_state.editing_cell matches Some((layer, frame)) ==> {
                &&& final(self).edit_state.editing_cell is None
                &&& final(self).edit_state.editing_text@ == Seq::<char>::empty()
                &&& final(self).edit_state.batch_edit_range is None
                &&& final(self).timesheet.same_header(&old(self).timesheet)
                &&& final(self).layer_types@ == old(self).layer_types@
                &&& final(self).clipboard == old(self).clipboard
                &&& match old(self).edit_state.batch_edit_range {
                    Some((ml, mf, xl, xf)) => {
                        let g = old(self).timesheet.grid();
                        let nl = frames_between(ml, xl);
                        let nf = frames_between(mf, xf);
                        &&& final(self).selection_state.selection_start is None
                        &&& final(self).selection_state.selection_end is None
                        &&& final(self).selection_state.selected_cell == old(self).selection_state.selected_cell
                        &&& if record_undo {
                            &&& final(self).undo_stack@.drop_last() == old(self).undo_stack@
                            &&& records_range(final(self).undo_stack@.last(), ml as int, mf as int, block_of(g, ml as int, mf as int, nl, nf))
                            &&& final(self).is_modified
                        } else {
                            &&& final(self).undo_stack@ == old(self).undo_stack@
                            &&& final(self).is_modified == old(self).is_modified
                        }
                        &&& if input is Operation {
                            let g2 = final(self).timesheet.grid();
                            &&& g2.len() == g.len()
                            &&& forall|l: int, f: int| !(ml <= l <= xl && mf <= f <= xf) ==> #[trigger] grid_cell(g2, l, f) == grid_cell(g, l, f)
                            &&& forall|l: int, f: int| ml <= l <= xl && mf <= f <= xf && l < g.len() ==>
                                (#[trigger] grid_cell(g2, l, f) matches Some(CellValue::Number(r))
                                    && call_ensures(operation, (op_input(g, g2, l, f, mf as int),), r))
                        } else {
                            final(self).timesheet.grid() == write_rows(g, ml as int, mf as int,
                                edit_rows(g, ml as int, mf as int, nl, nf, input), nl)
                        }
                    },
                    None => exists|nc: Option<CellValue>| {
                        &&& match input {
                            EditInput::InheritAbove => nc == (if frame > 0 && old(self).timesheet.cell(layer as int, frame - 1) is Some {
                                Some(CellValue::Same)
                            } else {
                                None
                            }),
                            EditInput::Operation => nc matches Some(CellValue::Number(r)) && call_ensures(operation,
                                (match resolved(old(self).timesheet.grid(), layer as int, frame as int) { Some(v) => v, None => 0u32 },), r),
                            EditInput::Direct(v) => nc == Some(v),
                            EditInput::Unreadable => nc == old(self).timesheet.cell(layer as int, frame as int),
                        }
                        &&& Self::single_edit(*old(self), *final(self), layer, frame, nc, move_down, record_undo)
                    },
                }
            },
    {
        let (layer, frame) = match self.edit_state.editing_cell {
            Some(p) => p,
            None => { return; },
        };
        match self.edit_state.batch_edit_range {
            Some((ml, mf, xl, xf)) => {
                let nl = if ml <= xl { xl - ml + 1 } else { 0 };
                let nf = if mf <= xf { xf - mf + 1 } else { 0 };
                if record_undo {
                    let old_cells = snapshot(&self.timesheet, ml, mf, nl, nf);
                    self.undo_stack.push_back(UndoAction::SetRange { min_layer: ml, min_frame: mf, old_values: old_cells });
                    self.is_modified = true;
                }
                match input {
                    EditInput::Operation => {
                        if nl > 0 && nf > 0 {
                            self.apply_operation_block(ml, mf, xl, xf, &operation);
                        }
                    },
                    _ => {
                        let ghost g = self.timesheet.grid();
                        let rows = self.edit_block_rows(ml, mf, nl, nf, input);
                        if nl > 0 && nf > 0 {
                            write_block(&mut self.timesheet, ml, mf, &rows);
                        } else {
                            proof { lemma_write_empty_rows(g, ml as int, mf as int, rows_of(rows@), nl as nat); }
                        }
                    },
                }
                self.selection_state.selection_start = None;
                self.selection_state.selection_end = None;
            },
            None => {
                let ghost g = self.timesheet.grid();
                let new_cell = match input {
                    EditInput::InheritAbove => {
                        if frame > 0 && self.timesheet.get_cell(layer, frame - 1).is_some() { Some(CellValue::Same) } else { None }
                    },
                    EditInput::Operation => {
                        let cur = match self.resolve_actual_value(layer, frame) { Some(v) => v, None => 0 };
                        Some(CellValue::Number(operation(cur)))
                    },
                    EditInput::Direct(v) => Some(v),
                    EditInput::Unreadable => match self.timesheet.get_cell(layer, frame) { Some(v) => Some(*v), None => None },
                };
                let prior = match self.timesheet.get_cell(layer, frame) { Some(v) => Some(*v), None => None };
                if record_undo && prior != new_cell {
                    self.push_undo_set_cell(layer, frame, prior);
                    self.is_modified = true;
                }
                self.timesheet.set_cell(layer, frame, new_cell);
                if move_down {
                    let total = self.timesheet.total_frames();
                    let new_f = frame + self.jump_step;
                    if self.jump_step > 1 && new_cell.is_some() {
                        let limit = if new_f < total { new_f } else { total };
                        if limit > frame + 1 {
                            self.fill_same(layer, frame + 1, limit - frame - 1, record_undo);
                        }
                    }
                    if new_f < total {
                        self.selection_state.selected_cell = Some((layer, new_f));
                        self.selection_state.auto_scroll_to_selection = true;
                    }
                }
                let ghost nc = new_cell;
                self.edit_state.editing_cell = None;
                self.edit_state.editing_text = String::new();
                self.edit_state.batch_edit_range = None;
                assert(Self::single_edit(*old(self), *self, layer, frame, nc, move_down, record_undo));
                return;
            },
        }
        self.edit_state.editing_cell = None;
        self.edit_state.editing_text = String::new();
        self.edit_state.batch_edit_range = None;
    }

    /// The rows a block edit writes for an input other than an operation.
    fn edit_block_rows(&self, ml: usize, mf: usize, nl: usize, nf: usize, input: EditInput) -> (rows: Vec<Vec<Option<CellValue>>>)
        requires
            ml + nl <= usize::MAX,
        ensures
            rows_of(rows@) == edit_rows(self.timesheet.grid(), ml as int, mf as int, nl as nat, nf as nat, input),
            rows@.len() == nl,
            forall|i: int| 0 <= i < nl ==> (#[trigger] rows@[i])@.len() == nf,
    {
        match input {
            EditInput::InheritAbove => {
                let mut rows: Vec<Vec<Option<CellValue>>> = Vec::new();
                let mut i: usize = 0;
                while i < nl
                    invariant
                        ml + nl <= usize::MAX,
                        i <= nl,
                        rows@.len() == i,
                        forall|k: int| 0 <= k < i ==> (#[trigger] rows@[k])@
                            == edit_rows(self.timesheet.grid(), ml as int, mf as int, nl as nat, nf as nat, input)[k],
                        forall|k: int| 0 <= k < i ==> (#[trigger] rows@[k])@.len() == nf,
                        input == EditInput::InheritAbove,
                    decreases nl - i,
                {
                    let above = if mf > 0 {
                        match self.timesheet.get_cell(ml + i, mf - 1) { Some(v) => Some(*v), None => None }
                    } else {
                        None
                    };
                    let mut copy: Vec<Option<CellValue>> = Vec::new();
                    let mut j: usize = 0;
                    while j < nf
                        invariant
                            j <= nf,
                            copy@ == Seq::new(j as nat, |q: int| above),
                        decreases nf - j,
                    {
                        copy.push(above);
                        j = j + 1;
                        assert(copy@ =~= Seq::new(j as nat, |q: int| above));
                    }
                    assert(copy@ =~= edit_rows(self.timesheet.grid(), ml as int, mf as int, nl as nat, nf as nat, input)[i as int]);
                    rows.push(copy);
                    i = i + 1;
                }
                assert(rows_of(rows@) =~= edit_rows(self.timesheet.grid(), ml as int, mf as int, nl as nat, nf as nat, input));
                rows
            },
            EditInput::Direct(v) => uniform(nl, nf, Some(v)),
            _ => uniform(nl, nf, None),
        }
    }

    /// Marks `k` frames of layer `l` from frame `a` as "-", recording (when `record`) each
    /// that was not "-" already.
    fn fill_same(&mut self, l: usize, a: usize, k: usize, record: bool)
        requires
            a + k < usize::MAX,
        ensures
            final(self).timesheet.grid() == write_rows(old(self).timesheet.grid(), l as int, a as int,
                seq![Seq::new(k as nat, |j: int| Some(CellValue::Same))], 1),
            final(self).undo_stack@ == same_fill_stack(old(self).undo_stack@, old(self).timesheet.grid(), l, a as int, k as nat, record),
            final(self).timesheet.same_header(&old(self).timesheet),
            final(self).timesheet.cells@.len() == old(self).timesheet.cells@.len(),
            final(self).is_modified == old(self).is_modified,
            final(self).selection_state == old(self).selection_state,
            final(self).edit_state == old(self).edit_state,
            final(self).layer_types@ == old(self).layer_types@,
            final(self).clipboard == old(self).clipboard,
            final(self).jump_step == old(self).jump_step,
    {
        let ghost g0 = self.timesheet.grid();
        let ghost row = Seq::new(k as nat, |j: int| Some(CellValue::Same));
        let mut i: usize = 0;
        while i < k
            invariant
                a + k < usize::MAX,
                i <= k,
                g0 == old(self).timesheet.grid(),
                row == Seq::new(k as nat, |j: int| Some(CellValue::Same)),
                self.timesheet.grid() == (if 0 <= l < g0.len() {
                    g0.update(l as int, written_row(g0[l as int], a as int, row, i as nat))
                } else {
                    g0
                }),
                forall|f: int| a + i <= f ==> #[trigger] grid_cell(self.timesheet.grid(), l as int, f) == grid_cell(g0, l as int, f),
                self.undo_stack@ == same_fill_stack(old(self).undo_stack@, g0, l, a as int, i as nat, record),
                self.timesheet.same_header(&old(self).timesheet),
                self.timesheet.cells@.len() == old(self).timesheet.cells@.len(),
                self.is_modified == old(self).is_modified,
                self.selection_state == old(self).selection_state,
                self.edit_state == old(self).edit_state,
                self.layer_types@ == old(self).layer_types@,
                self.clipboard == old(self).clipboard,
                self.jump_step == old(self).jump_step,
            decreases k - i,
        {
            let f = a + i;
            let o = match self.timesheet.get_cell(l, f) { Some(v) => Some(*v), None => None };
            assert(o == grid_cell(g0, l as int, f as int));
            if record && o != Some(CellValue::Same) {
                self.push_undo_set_cell(l, f, o);
            }
            let ghost gb = self.timesheet.grid();
            self.timesheet.set_cell(l, f, Some(CellValue::Same));
            proof {
                if 0 <= l < g0.len() {
                    lemma_written_row(g0[l as int], a as int, row, i as nat, 0);
                    assert(self.timesheet.grid() =~= g0.update(l as int, written_row(g0[l as int], a as int, row, (i + 1) as nat)));
                    assert forall|q: int| a + i + 1 <= q implies #[trigger] grid_cell(self.timesheet.grid(), l as int, q) == grid_cell(g0, l as int, q) by {
                        lemma_written_row(g0[l as int], a as int, row, (i + 1) as nat, q);
                        lemma_written_row(g0[l as int], a as int, row, 0, q);
                    }
                }
            }
            i = i + 1;
        }
        proof {
            assert(write_rows(g0, l as int, a as int, seq![row], 0) == g0);
            assert(seq![row][0] == row);
            if 0 <= l < g0.len() {
                assert(write_rows(g0, l as int, a as int, seq![row], 1) =~= g0.update(l as int, written_row(g0[l as int], a as int, row, k as nat)));
            } else {
                assert(write_rows(g0, l as int, a as int, seq![row], 1) == g0);
            }
        }
    }

    /// Applies `operation` to the resolved value of each cell of the block, layer by layer
    /// and frame by frame, writing the results.
    fn apply_operation_block<F: Fn(u32) -> u32>(&mut self, ml: usize, mf: usize, xl: usize, xf: usize, operation: &F)
        requires
            forall|x: u32| call_requires(*operation, (x,)),
            xl < usize::MAX,
            xf + 1 < usize::MAX,
            ml <= xl,
            mf <= xf,
        ensures
            ({
                let g = old(self).timesheet.grid();
                let g2 = final(self).timesheet.grid();
                &&& g2.len() == g.len()
                &&& forall|l: int, f: int| !(ml <= l <= xl && mf <= f <= xf) ==> #[trigger] grid_cell(g2, l, f) == grid_cell(g, l, f)
                &&& forall|l: int, f: int| ml <= l <= xl && mf <= f <= xf && l < g.len() ==>
                    (#[trigger] grid_cell(g2, l, f) matches Some(CellValue::Number(r))
                        && call_ensures(*operation, (op_input(g, g2, l, f, mf as int),), r))
            }),
            final(self).timesheet.same_header(&old(self).timesheet),
            final(self).undo_stack@ == old(self).undo_stack@,
            final(self).is_modified == old(self).is_modified,
            final(self).selection_state == old(self).selection_state,
            final(self).edit_state == old(self).edit_state,
            final(self).layer_types@ == old(self).layer_types@,
            final(self).clipboard == old(self).clipboard,
    {
        let ghost g = self.timesheet.grid();
        let mut l: usize = ml;
        while l <= xl
            invariant
                ml <= l <= xl + 1,
                xl < usize::MAX,
                xf + 1 < usize::MAX,
                mf <= xf,
                forall|x: u32| call_requires(*operation, (x,)),
                g == old(self).timesheet.grid(),
                self.timesheet.grid().len() == g.len(),
                forall|l2: int, f: int| !(ml <= l2 < l && mf <= f <= xf) ==> #[trigger] grid_cell(self.timesheet.grid(), l2, f) == grid_cell(g, l2, f),
                forall|l2: int, f: int| ml <= l2 < l && mf <= f <= xf && l2 < g.len() ==>
                    (#[trigger] grid_cell(self.timesheet.grid(), l2, f) matches Some(CellValue::Number(r))
                        && call_ensures(*operation, (op_input(g, self.timesheet.grid(), l2, f, mf as int),), r)),
                self.timesheet.same_header(&old(self).timesheet),
                self.undo_stack@ == old(self).undo_stack@,
                self.is_modified == old(self).is_modified,
                self.selection_state == old(self).selection_state,
                self.edit_state == old(self).edit_state,
                self.layer_types@ == old(self).layer_types@,
                self.clipboard == old(self).clipboard,
            decreases xl + 1 - l,
        {
            let mut f: usize = mf;
            while f <= xf
                invariant
                    ml <= l <= xl,
                    mf <= f <= xf + 1,
                    xf + 1 < usize::MAX,
                    forall|x: u32| call_requires(*operation, (x,)),
                    g == old(self).timesheet.grid(),
                    self.timesheet.grid().len() == g.len(),
                    forall|l2: int, f2: int| !((ml <= l2 < l && mf <= f2 <= xf) || (l2 == l && mf <= f2 < f))
                        ==> #[trigger] grid_cell(self.timesheet.grid(), l2, f2) == grid_cell(g, l2, f2),
                    forall|l2: int, f2: int| ((ml <= l2 < l && mf <= f2 <= xf) || (l2 == l && mf <= f2 < f)) && l2 < g.len() ==>
                        (#[trigger] grid_cell(self.timesheet.grid(), l2, f2) matches Some(CellValue::Number(r))
                            && call_ensures(*operation, (op_input(g, self.timesheet.grid(), l2, f2, mf as int),), r)),
                    self.timesheet.same_header(&old(self).timesheet),
                    self.undo_stack@ == old(self).undo_stack@,
                    self.is_modified == old(self).is_modified,
                    self.selection_state == old(self).selection_state,
                    self.edit_state == old(self).edit_state,
                    self.layer_types@ == old(self).layer_types@,
                    self.clipboard == old(self).clipboard,
                decreases xf + 1 - f,
            {
                let ghost gb = self.timesheet.grid();
                let cur = match self.resolve_actual_value(l, f) { Some(v) => v, None => 0 };
                proof {
                    let c = grid_cell(g, l as int, f as int);
                    assert(grid_cell(gb, l as int, f as int) == c);
                    if c == Some(CellValue::Same) && f > mf {
                        assert(resolved(gb, l as int, f as int) == resolved(gb, l as int, f - 1));
                        if l < g.len() {
                            assert(grid_cell(gb, l as int, f - 1) matches Some(CellValue::Number(r)));
                        }
                    }
                    if c == Some(CellValue::Same) && f == mf {
                        lemma_resolved_unchanged_above(g, gb, l as int, f as int);
                    }
                }
                let r = operation(cur);
                self.timesheet.set_cell(l, f, Some(CellValue::Number(r)));
                proof {
                    let g2 = self.timesheet.grid();
                    assert forall|l2: int, f2: int| !((ml <= l2 < l && mf <= f2 <= xf) || (l2 == l && mf <= f2 < f + 1))
                        implies #[trigger] grid_cell(g2, l2, f2) == grid_cell(g, l2, f2) by {
                        assert(grid_cell(g2, l2, f2) == grid_cell(gb, l2, f2));
                    }
                    assert forall|l2: int, f2: int| ((ml <= l2 < l && mf <= f2 <= xf) || (l2 == l && mf <= f2 < f + 1)) && l2 < g.len()
                        implies (#[trigger] grid_cell(g2, l2, f2) matches Some(CellValue::Number(r2))
                            && call_ensures(*operation, (op_input(g, g2, l2, f2, mf as int),), r2)) by {
                        if !(l2 == l && f2 == f) {
                            assert(grid_cell(g2, l2, f2) == grid_cell(gb, l2, f2));
                            if f2 > mf {
                                assert(grid_cell(g2, l2, f2 - 1) == grid_cell(gb, l2, f2 - 1));
                            }
                            assert(op_input(g, g2, l2, f2, mf as int) == op_input(g, gb, l2, f2, mf as int));
                        } else {
                            if f > mf {
                                assert(grid_cell(g2, l2, f2 - 1) == grid_cell(gb, l2, f2 - 1));
                            }
                        }
                    }
                }
                f = f + 1;
            }
            l = l + 1;
        }
    }

    /// The frames where the actual value of layer `l` changes (see `value_changes`).
    pub fn keyframe_changes(&self, l: usize, keep_empty: bool) -> (r: Vec<(usize, Option<u32>)>)
        ensures
            r@ == value_changes(self.timesheet, l as int, self.timesheet.frames(), keep_empty),
    {
        let total = self.timesheet.total_frames();
        let mut out: Vec<(usize, Option<u32>)> = Vec::new();
        let mut prev: Option<u32> = None;
        let mut f: usize = 0;
        while f < total
            invariant
                total == self.timesheet.frames(),
                f <= total,
                out@ == value_changes(self.timesheet, l as int, f as nat, keep_empty),
                prev == last_listed(out@),
            decreases total - f,
        {
            let cur = self.timesheet.get_actual_value(l, f);
            if (keep_empty || cur.is_some()) && cur != prev {
                out.push((f, cur));
                prev = cur;
            }
            f = f + 1;
        }
        out
    }

    /// After Effects keyframe data for layer `l` (the `version` named in its header): for an
    /// opacity layer each change to a value as a percentage; for a pan layer each change to
    /// a value as shown (a marker list); for other layers each change as a time remap in
    /// seconds, where `seconds[i]` is the seconds of the `i`-th change of
    /// `keyframe_changes(l, true)` written with seven decimals (unused for changes to no value).
    pub fn copy_ae_keyframes(&self, l: usize, version: &str, seconds: &Vec<String>) -> (r: Result<String, &'static str>)
        requires
            self.layer_type_of(l) != LayerType::Opacity && self.layer_type_of(l) != LayerType::Pan
                ==> seconds@.len() == value_changes(self.timesheet, l as int, self.timesheet.frames(), true).len(),
        ensures
            r matches Ok(t) && t@ == ae_header(version@, self.timesheet.framerate) + match self.layer_type_of(l) {
                LayerType::Opacity => "Transform\tOpacity\r\n\tFrame\tpercent\t\r\n"@,
                LayerType::Pan => "STS_MARKER_DATA\r\nFPS:"@ + decimal_digits(self.timesheet.framerate as nat) + seq!['\r', '\n'],
                LayerType::Cel => "Time Remap\r\n\tFrame\tseconds\t\r\n"@,
            } + keyframe_lines(self.layer_type_of(l),
                value_changes(self.timesheet, l as int, self.timesheet.frames(), self.layer_type_of(l) == LayerType::Cel),
                Seq::new(seconds@.len(), |i: int| seconds@[i]@)) + "\r\nEnd of Keyframe Data\r\n"@,
    {
        let lt = self.layer_type(l);
        let fps = self.timesheet.framerate;
        let mut txt: Vec<char> = Vec::new();
        push_str_chars(&mut txt, "Adobe After Effects ");
        push_str_chars(&mut txt, version);
        push_str_chars(&mut txt, " Keyframe Data\r\n\r\n\tUnits Per Second\t");
        push_decimal(&mut txt, fps as u64);
        push_str_chars(&mut txt, "\r\n\tSource Width\t1000\r\n\tSource Height\t1000\r\n\tSource Pixel Aspect Ratio\t1\r\n\tComp Pixel Aspect Ratio\t1\r\n\r\n");
        let ghost header = txt@;
        assert(header =~= ae_header(version@, fps));
        let keep_empty = lt != LayerType::Opacity && lt != LayerType::Pan;
        let changes = self.keyframe_changes(l, keep_empty);
        let ghost cv = changes@;
        let ghost secs = Seq::new(seconds@.len(), |i: int| seconds@[i]@);
        proof { lemma_changes_to_values(self.timesheet, l as int, self.timesheet.frames()); }
        if lt == LayerType::Opacity {
            push_str_chars(&mut txt, "Transform\tOpacity\r\n\tFrame\tpercent\t\r\n");
        } else if lt == LayerType::Pan {
            push_str_chars(&mut txt, "STS_MARKER_DATA\r\nFPS:");
            push_decimal(&mut txt, fps as u64);
            txt.push('\r');
            txt.push('\n');
        } else {
            push_str_chars(&mut txt, "Time Remap\r\n\tFrame\tseconds\t\r\n");
        }
        let ghost intro = txt@;
        let mut i: usize = 0;
        while i < changes.len()
            invariant
                cv == changes@,
                i <= cv.len(),
                keep_empty == (lt != LayerType::Opacity && lt != LayerType::Pan),
                keep_empty ==> seconds@.len() == cv.len(),
                !keep_empty ==> forall|q: int| 0 <= q < cv.len() ==> (#[trigger] cv[q]).1 is Some,
                secs == Seq::new(seconds@.len(), |q: int| seconds@[q]@),
                lt == self.layer_type_of(l),
                txt@ == intro + keyframe_lines(lt, cv.take(i as int), secs),
            decreases changes.len() - i,
        {
            let (f, v) = changes[i];
            let ghost before = txt@;
            if lt != LayerType::Pan {
                txt.push('\t');
            }
            push_decimal(&mut txt, f as u64);
            txt.push('\t');
            if lt == LayerType::Opacity {
                match v {
                    Some(x) => push_decimal(&mut txt, x as u64),
                    None => {},
                }
            } else if lt == LayerType::Pan {
                match v {
                    Some(x) => {
                        let s = self.format_cell_value(l, x);
                        push_str_chars(&mut txt, s.as_str());
                    },
                    None => {},
                }
            } else {
                match v {
                    Some(_) => {
                        let raw = str_chars(seconds[i].as_str());
                        let t1 = trim_end_chars(&raw, '0');
                        let t2 = trim_end_chars(&t1, '.');
                        push_chars(&mut txt, &t2);
                    },
                    None => {},
                }
            }
            if lt == LayerType::Pan {
                txt.push('\r');
                txt.push('\n');
            } else {
                txt.push('\t');
                txt.push('\r');
                txt.push('\n');
            }
            assert(cv.take(i + 1).drop_last() =~= cv.take(i as int));
            assert(cv.take(i + 1)[i as int] == cv[i as int]);
            assert(txt@ =~= intro + keyframe_lines(lt, cv.take(i + 1), secs));
            i = i + 1;
        }
        push_str_chars(&mut txt, "\r\nEnd of Keyframe Data\r\n");
        assert(cv.take(cv.len() as int) =~= cv);
        Ok(string_from_chars(&txt))
    }

    /// Whether (`layer`, `frame`) is the bottom-right corner of the selected block.
    pub fn is_selection_bottom_right(&self, layer: usize, frame: usize) -> (b: bool)
        ensures
            b == (self.selection() matches Some((ml, mf, xl, xf)) && layer == xl && frame == xf),
    {
        match self.get_selection_range() {
            Some((_ml, _mf, xl, xf)) => layer == xl && frame == xf,
            None => false,
        }
    }

    /// Changes the jump step (how far finishing an edit moves down) by `delta`, the
    /// `/` and `*` keys giving -1 and +1; the step never goes below 1.
    pub fn change_jump_step(&mut self, delta: i32)
        requires
            old(self).jump_step <= i32::MAX,
            old(self).jump_step + delta <= i32::MAX,
        ensures
            final(self).jump_step == (if old(self).jump_step + delta >= 1 { old(self).jump_step + delta } else { 1 }),
            final(self).jump_step >= 1,
            final(self).timesheet == old(self).timesheet,
            final(self).selection_state == old(self).selection_state,
            final(self).edit_state == old(self).edit_state,
            final(self).undo_stack@ == old(self).undo_stack@,
            final(self).is_modified == old(self).is_modified,
    {
        let cur: i32 = self.jump_step as i32;
        let next: i32 = cur + delta;
        self.jump_step = if next >= 1 { next as usize } else { 1 };
    }

    /// Starts editing the selected cell (`layer`, `frame`): the whole selected block when
    /// there is one, else the cell alone.
    fn edit_selected(&mut self, layer: usize, frame: usize)
        ensures
            final(self).edit_state.editing_cell == Some((layer, frame)),
            final(self).edit_state.editing_text@ == match resolved(old(self).timesheet.grid(), layer as int, frame as int) {
                Some(v) => formatted(old(self).layer_type_of(layer), v),
                None => Seq::<char>::empty(),
            },
            final(self).edit_state.batch_edit_range == (if old(self).selection() is Some {
                old(self).selection()
            } else {
                old(self).edit_state.batch_edit_range
            }),
            final(self).timesheet == old(self).timesheet,
            final(self).selection_state == old(self).selection_state,
            final(self).undo_stack@ == old(self).undo_stack@,
            final(self).is_modified == old(self).is_modified,
    {
        if self.get_selection_range().is_some() {
            self.start_batch_edit(layer, frame);
        } else {
            self.start_edit(layer, frame);
        }
    }

    /// Handles `key` on the selected cell while no cell is being edited: an arrow moves the
    /// selection one cell in its direction when that stays within the layers and frames,
    /// and asks the grid to scroll to it; Enter starts editing the selected cell (the whole
    /// selected block when there is one). Returns whether the key did anything; without a
    /// selected cell it does nothing.
    pub fn press_grid_key(&mut self, key: GridKey) -> (handled: bool)
        requires
            old(self).selection_state.selected_cell is Some && key == GridKey::Right ==> old(self).timesheet.layer_count > 0,
        ensures
            old(self).selection_state.selected_cell is None ==> !handled && *final(self) == *old(self),
            old(self).selection_state.selected_cell matches Some((l, f)) ==> {
                let target: Option<(usize, usize)> = match key {
                    GridKey::Up => if f > 0 { Some((l, (f - 1) as usize)) } else { None },
                    GridKey::Down => if f + 1 < old(self).timesheet.frames() { Some((l, (f + 1) as usize)) } else { None },
                    GridKey::Left => if l > 0 { Some(((l - 1) as usize, f)) } else { None },
                    GridKey::Right => if l + 1 < old(self).timesheet.layer_count { Some(((l + 1) as usize, f)) } else { None },
                    GridKey::Enter => None,
                };
                &&& handled == (target is Some || key == GridKey::Enter)
                &&& target matches Some(c) ==> *final(self) == (Document {
                        selection_state: SelectionState {
                            selected_cell: Some(c),
                            auto_scroll_to_selection: true,
                            ..old(self).selection_state
                        },
                        ..*old(self)
                    })
                &&& key == GridKey::Enter ==> {
                    &&& final(self).edit_state.editing_cell == Some((l, f))
                    &&& final(self).edit_state.editing_text@ == match resolved(old(self).timesheet.grid(), l as int, f as int) {
                        Some(v) => formatted(old(self).layer_type_of(l), v),
                        None => Seq::<char>::empty(),
                    }
                    &&& final(self).edit_state.batch_edit_range == (if old(self).selection() is Some {
                        old(self).selection()
                    } else {
                        old(self).edit_state.batch_edit_range
                    })
                    &&& final(self).timesheet == old(self).timesheet
                    &&& final(self).selection_state == old(self).selection_state
                    &&& final(self).undo_stack@ == old(self).undo_stack@
                    &&& final(self).is_modified == old(self).is_modified
                }
                &&& !handled ==> *final(self) == *old(self)
            },
    {
        let (layer, frame) = match self.selection_state.selected_cell {
            Some(c) => c,
            None => return false,
        };
        let target: Option<(usize, usize)> = match key {
            GridKey::Up => if frame > 0 { Some((layer, frame - 1)) } else { None },
            GridKey::Down => {
                let n = self.timesheet.total_frames();
                if n > 0 && frame < n - 1 { Some((layer, frame + 1)) } else { None }
            },
            GridKey::Left => if layer > 0 { Some((layer - 1, frame)) } else { None },
            GridKey::Right => if layer < self.timesheet.layer_count - 1 { Some((layer + 1, frame)) } else { None },
            GridKey::Enter => None,
        };
        match target {
            Some(c) => {
                self.selection_state.selected_cell = Some(c);
                self.selection_state.auto_scroll_to_selection = true;
                true
            },
            None => {
                if key == GridKey::Enter {
                    self.edit_selected(layer, frame);
                    true
                } else {
                    false
                }
            },
        }
    }

    /// Typing `text` on the selected cell while no cell is being edited: when every
    /// character of it is printable ASCII other than space, editing of the selected cell
    /// (the whole selected block when there is one) starts with `text` as the edit text.
    /// Returns whether editing started; without a selected cell nothing happens.
    pub fn type_on_selection(&mut self, text: &str) -> (started: bool)
        ensures
            started == (old(self).selection_state.selected_cell is Some
                && forall|i: int| 0 <= i < text@.len() ==> is_graphic(#[trigger] text@[i])),
            !started ==> *final(self) == *old(self),
            old(self).selection_state.selected_cell matches Some((l, f)) ==> started ==> {
                &&& final(self).edit_state.editing_cell == Some((l, f))
                &&& final(self).edit_state.editing_text@ == text@
                &&& final(self).edit_state.batch_edit_range == (if old(self).selection() is Some {
                    old(self).selection()
                } else {
                    old(self).edit_state.batch_edit_range
                })
                &&& final(self).timesheet == old(self).timesheet
                &&& final(self).selection_state == old(self).selection_state
                &&& final(self).undo_stack@ == old(self).undo_stack@
                &&& final(self).is_modified == old(self).is_modified
            },
    {
        let (layer, frame) = match self.selection_state.selected_cell {
            Some(c) => c,
            None => return false,
        };
        let chars = str_chars(text);
        let mut i: usize = 0;
        while i < chars.len()
            invariant
                chars@ == text@,
                i <= chars@.len(),
                forall|k: int| 0 <= k < i ==> is_graphic(#[trigger] text@[k]),
            decreases chars@.len() - i,
        {
            let u: u32 = chars[i] as u32;
            if u < 0x21 || u > 0x7e {
                return false;
            }
            i = i + 1;
        }
        self.edit_selected(layer, frame);
        self.edit_state.editing_text = string_from_chars(&chars);
        true
    }
}

} // verus!
