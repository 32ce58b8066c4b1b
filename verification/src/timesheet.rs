//! The timesheet model: a grid of cells indexed by layer and frame.

use vstd::prelude::*;
use crate::text::{push_char, string_from_chars};

verus! {

/// A cell value
#[derive(Debug, Clone, Copy, PartialEq, Eq, Structural)]
pub enum CellValue {
    /// A drawing number
    Number(u32),
    /// Same as the cell above (shown as "-")
    Same,
}

/// A timesheet: layers (columns) of frames (rows).
#[derive(Debug, Clone)]
pub struct TimeSheet {
    /// Name
    pub name: String,
    /// Frame rate
    pub framerate: u32,
    /// Frames per page
    pub frames_per_page: u32,
    /// Number of layers
    pub layer_count: usize,
    /// Layer names
    pub layer_names: Vec<String>,
    /// Cell data `[layer][frame]`; `None` is an empty cell
    pub cells: Vec<Vec<Option<CellValue>>>,
    /// Source width
    pub source_width: u32,
    /// Source height
    pub source_height: u32,
}

/// The letters of a spreadsheet-style column name (A..Z, AA, AB, ...).
pub open spec fn column_letters(n: nat) -> Seq<char>
    decreases n,
{
    if n < 26 {
        seq![(65 + n) as char]
    } else {
        column_letters((n / 26 - 1) as nat).push((65 + n % 26) as char)
    }
}

/// The row `row` after writing `v` at `frame`, growing it with empty cells when needed.
pub open spec fn row_with(row: Seq<Option<CellValue>>, frame: int, v: Option<CellValue>) -> Seq<Option<CellValue>> {
    row_grown(row, frame + 1).update(frame, v)
}

/// The row `row` padded with empty cells up to length `n` (unchanged when already long enough).
pub open spec fn row_grown(row: Seq<Option<CellValue>>, n: int) -> Seq<Option<CellValue>> {
    if row.len() < n {
        row + Seq::new((n - row.len()) as nat, |i: int| None::<CellValue>)
    } else {
        row
    }
}

/// The grid after setting the cell at (`l`, `f`) to `v` (growing that layer when needed);
/// unchanged when there is no layer `l`.
pub open spec fn grid_with(g: Seq<Seq<Option<CellValue>>>, l: int, f: int, v: Option<CellValue>) -> Seq<Seq<Option<CellValue>>> {
    if 0 <= l < g.len() {
        g.update(l, row_with(g[l], f, v))
    } else {
        g
    }
}

/// The cell value at (`l`, `f`) in a grid; `None` outside the grid.
pub open spec fn grid_cell(g: Seq<Seq<Option<CellValue>>>, l: int, f: int) -> Option<CellValue> {
    if 0 <= l < g.len() && 0 <= f < g[l].len() {
        g[l][f]
    } else {
        None
    }
}

/// The nearest number strictly above frame `f` in layer `l`, skipping any non-number cell.
pub open spec fn number_above(g: Seq<Seq<Option<CellValue>>>, l: int, f: int) -> Option<u32>
    decreases f,
{
    if f <= 0 {
        None
    } else {
        match grid_cell(g, l, f - 1) {
            Some(CellValue::Number(n)) => Some(n),
            _ => number_above(g, l, f - 1),
        }
    }
}

/// The value that a cell stands for: its number, or for "-" the nearest number above it.
pub open spec fn grid_actual_value(g: Seq<Seq<Option<CellValue>>>, l: int, f: int) -> Option<u32> {
    match grid_cell(g, l, f) {
        None => None,
        Some(CellValue::Number(n)) => Some(n),
        Some(CellValue::Same) => number_above(g, l, f),
    }
}

proof fn lemma_column_letters_len(n: nat)
    ensures
        column_letters(n).len() >= 1,
        n < 26 <==> column_letters(n).len() == 1,
    decreases n,
{
    if n >= 26 {
        lemma_column_letters_len((n / 26 - 1) as nat);
    }
}

/// Different column indices get different column names.
pub proof fn lemma_column_letters_injective(a: nat, b: nat)
    requires
        column_letters(a) == column_letters(b),
    ensures
        a == b,
    decreases a,
{
    lemma_column_letters_len(a);
    lemma_column_letters_len(b);
    let la = column_letters(a);
    let lb = column_letters(b);
    assert(la.last() == lb.last());
    let ca: int = if a >= 26 { (65 + a % 26) as int } else { (65 + a) as int };
    let cb: int = if b >= 26 { (65 + b % 26) as int } else { (65 + b) as int };
    assert(la.last() == ca as char);
    assert(lb.last() == cb as char);
    assert((ca as char) as int == ca);
    assert((cb as char) as int == cb);
    if a >= 26 && b >= 26 {
        assert(la.drop_last() =~= column_letters((a / 26 - 1) as nat));
        assert(lb.drop_last() =~= column_letters((b / 26 - 1) as nat));
        lemma_column_letters_injective((a / 26 - 1) as nat, (b / 26 - 1) as nat);
        assert(a % 26 == b % 26);
    }
}

/// The number that letters `A`..`Z` stand for in bijective base 26 (`A` = 1, ..., `Z` = 26,
/// `AA` = 27, ...).
pub open spec fn bijective_base26(s: Seq<char>) -> int
    decreases s.len(),
{
    if s.len() == 0 { 0 } else { 26 * bijective_base26(s.drop_last()) + ((s.last() as int) - 64) }
}

/// The name of column `n` is the bijective base-26 numeral of `n + 1` in the letters
/// `A`..`Z`; it has one letter exactly for the first 26 columns.
pub proof fn lemma_column_letters_numeral(n: nat)
    ensures
        column_letters(n).len() >= 1,
        n < 26 <==> column_letters(n).len() == 1,
        forall|i: int| 0 <= i < column_letters(n).len() ==> 65 <= (#[trigger] column_letters(n)[i] as int) <= 90,
        bijective_base26(column_letters(n)) == n + 1,
    decreases n,
{
    lemma_column_letters_len(n);
    let s = column_letters(n);
    if n < 26 {
        assert(((65 + n) as char) as int == 65 + n);
        assert(s.drop_last() =~= Seq::<char>::empty());
        assert(bijective_base26(s.drop_last()) == 0);
        assert(s.last() == (65 + n) as char);
    } else {
        let m = (n / 26 - 1) as nat;
        lemma_column_letters_numeral(m);
        let c = (65 + n % 26) as char;
        assert(c as int == 65 + n % 26);
        assert(s.drop_last() =~= column_letters(m));
        assert(s.last() == c);
        assert forall|i: int| 0 <= i < s.len() implies 65 <= (#[trigger] s[i] as int) <= 90 by {
            if i < s.len() - 1 {
                assert(s[i] == column_letters(m)[i]);
            }
        }
        assert(n == 26 * (n / 26) + n % 26);
        assert(bijective_base26(s) == 26 * bijective_base26(s.drop_last()) + ((s.last() as int) - 64));
        assert(bijective_base26(s.drop_last()) == m + 1);
        assert(m + 1 == n / 26);
    }
}

/// Reading a cell after setting it gives the value set (when the layer exists); every
/// other cell reads as before.
pub proof fn lemma_read_after_write(g: Seq<Seq<Option<CellValue>>>, l: int, f: int, v: Option<CellValue>, l2: int, f2: int)
    requires
        f >= 0,
    ensures
        grid_cell(grid_with(g, l, f, v), l2, f2) == (if l2 == l && f2 == f && 0 <= l < g.len() { v } else { grid_cell(g, l2, f2) }),
        grid_with(g, l, f, v).len() == g.len(),
{
}

/// Page and frame within the page give back the frame index.
pub proof fn lemma_page_and_frame_inverse(frame_index: int, frames_per_page: int, page: int, in_page: int)
    requires
        frame_index >= 0,
        frames_per_page > 0,
        page == frame_index / frames_per_page + 1,
        in_page == frame_index % frames_per_page + 1,
    ensures
        (page - 1) * frames_per_page + (in_page - 1) == frame_index,
        1 <= in_page <= frames_per_page,
{
    assert(frames_per_page * (frame_index / frames_per_page) + frame_index % frames_per_page == frame_index) by (nonlinear_arith)
        requires frames_per_page > 0;
    assert((page - 1) * frames_per_page == frames_per_page * (frame_index / frames_per_page)) by (nonlinear_arith)
        requires page - 1 == frame_index / frames_per_page;
}

/// Pads `row` with empty cells up to length `n`.
fn grow_row(row: &mut Vec<Option<CellValue>>, n: usize)
    ensures
        final(row)@ == row_grown(old(row)@, n as int),
{
    let ghost r0 = row@;
    while row.len() < n
        invariant
            r0.len() <= row@.len(),
            row@.len() <= n || row@.len() == r0.len(),
            row@ == row_grown(r0, row@.len() as int),
        decreases n - row.len(),
    {
        row.push(None);
        assert(row@ =~= row_grown(r0, row@.len() as int));
    }
    assert(row@ =~= row_grown(r0, n as int));
}

impl TimeSheet {
    /// The cells as a grid of sequences.
    pub open spec fn grid(&self) -> Seq<Seq<Option<CellValue>>> {
        Seq::new(self.cells@.len(), |i: int| self.cells@[i]@)
    }

    /// The layer names as character sequences.
    pub open spec fn names(&self) -> Seq<Seq<char>> {
        Seq::new(self.layer_names@.len(), |i: int| self.layer_names@[i]@)
    }

    /// The cell at (`l`, `f`).
    pub open spec fn cell(&self, l: int, f: int) -> Option<CellValue> {
        grid_cell(self.grid(), l, f)
    }

    /// The actual value of the cell at (`l`, `f`).
    pub open spec fn actual_value(&self, l: int, f: int) -> Option<u32> {
        grid_actual_value(self.grid(), l, f)
    }

    /// The number of frames: the length of the first layer.
    pub open spec fn frames(&self) -> nat {
        if self.cells@.len() == 0 { 0 } else { self.cells@[0]@.len() }
    }

    /// Layer count, layer names and cell rows agree.
    pub open spec fn wf(&self) -> bool {
        &&& self.cells@.len() == self.layer_count
        &&& self.layer_names@.len() == self.layer_count
    }

    /// Every layer has exactly `n` frames.
    pub open spec fn rows_have_len(&self, n: nat) -> bool {
        forall|l: int| 0 <= l < self.cells@.len() ==> #[trigger] self.cells@[l]@.len() == n
    }

    /// Everything but the cells is the same in `self` and `other`.
    pub open spec fn same_header(&self, other: &TimeSheet) -> bool {
        &&& self.name@ == other.name@
        &&& self.framerate == other.framerate
        &&& self.frames_per_page == other.frames_per_page
        &&& self.layer_count == other.layer_count
        &&& self.names() == other.names()
        &&& self.layer_names@.len() == other.layer_names@.len()
        &&& self.source_width == other.source_width
        &&& self.source_height == other.source_height
    }

    /// Creates a new timesheet with `layer_count` empty layers named A, B, C, ...
    pub fn new(name: String, framerate: u32, layer_count: usize, frames_per_page: u32) -> (ts: Self)
        ensures
            ts.wf(),
            ts.name@ == name@,
            ts.framerate == framerate,
            ts.frames_per_page == frames_per_page,
            ts.layer_count == layer_count,
            forall|i: int| 0 <= i < layer_count ==> #[trigger] ts.names()[i] == column_letters(i as nat),
            ts.rows_have_len(0),
            ts.source_width == 640,
            ts.source_height == 480,
    {
        let mut layer_names: Vec<String> = Vec::new();
        let mut cells: Vec<Vec<Option<CellValue>>> = Vec::new();
        let mut i: usize = 0;
        while i < layer_count
            invariant
                i <= layer_count,
                layer_names@.len() == i,
                cells@.len() == i,
                forall|j: int| 0 <= j < i ==> #[trigger] layer_names@[j]@ == column_letters(j as nat),
                forall|j: int| 0 <= j < i ==> #[trigger] cells@[j]@.len() == 0,
            decreases layer_count - i,
        {
            layer_names.push(Self::column_name(i));
            cells.push(Vec::new());
            i = i + 1;
        }
        let ts = TimeSheet {
            name,
            framerate,
            frames_per_page,
            layer_count,
            layer_names,
            cells,
            source_width: 640,
            source_height: 480,
        };
        assert forall|i: int| 0 <= i < layer_count implies #[trigger] ts.names()[i] == column_letters(i as nat) by {}
        ts
    }

    /// Generates a column name: 0 -> "A", 25 -> "Z", 26 -> "AA", 27 -> "AB", ...
    pub fn column_name(index: usize) -> (s: String)
        ensures
            s@ == column_letters(index as nat),
    {
        let mut rev: Vec<char> = Vec::new();
        let mut n: usize = index;
        loop
            invariant_except_break
                column_letters(index as nat) == column_letters(n as nat) + rev@.reverse(),
            ensures
                column_letters(index as nat) == rev@.reverse(),
            decreases n,
        {
            let c = ((65u8 + (n % 26) as u8) as char);
            rev.push(c);
            if n < 26 {
                proof {
                    assert(column_letters(n as nat) == seq![c]);
                    assert(rev@.reverse() =~= seq![c] + rev@.drop_last().reverse());
                }
                break;
            }
            proof {
                assert(column_letters(n as nat) == column_letters((n / 26 - 1) as nat).push(c));
                assert(rev@.reverse() =~= seq![c] + rev@.drop_last().reverse());
            }
            n = n / 26 - 1;
        }
        let mut out: Vec<char> = Vec::new();
        let mut k: usize = rev.len();
        while k > 0
            invariant
                k <= rev@.len(),
                out@ == rev@.subrange(k as int, rev@.len() as int).reverse(),
            decreases k,
        {
            k = k - 1;
            out.push(rev[k]);
            assert(out@ =~= rev@.subrange(k as int, rev@.len() as int).reverse());
        }
        assert(rev@.subrange(0, rev@.len() as int) =~= rev@);
        string_from_chars(&out)
    }

    /// Returns the cell at (`layer`, `frame`), or `None` when empty or outside the grid.
    pub fn get_cell(&self, layer: usize, frame: usize) -> (c: Option<&CellValue>)
        ensures
            match c {
                Some(v) => self.cell(layer as int, frame as int) == Some(*v),
                None => self.cell(layer as int, frame as int) is None,
            },
    {
        if layer < self.cells.len() {
            let row = &self.cells[layer];
            if frame < row.len() {
                return row[frame].as_ref();
            }
        }
        None
    }

    /// Sets the cell at (`layer`, `frame`), growing the layer when `frame` is beyond its end.
    /// Does nothing when `layer` does not exist.
    pub fn set_cell(&mut self, layer: usize, frame: usize, value: Option<CellValue>)
        requires
            frame < usize::MAX,
        ensures
            final(self).same_header(old(self)),
            final(self).cells@.len() == old(self).cells@.len(),
            final(self).grid() == grid_with(old(self).grid(), layer as int, frame as int, value),
    {
        if layer < self.cells.len() {
            let ghost g0 = self.grid();
            let mut row: Vec<Option<CellValue>> = Vec::new();
            std::mem::swap(&mut row, &mut self.cells[layer]);
            let ghost r0 = row@;
            assert(r0 == g0[layer as int]);
            grow_row(&mut row, frame + 1);
            row.set(frame, value);
            std::mem::swap(&mut row, &mut self.cells[layer]);
            assert(self.grid() =~= g0.update(layer as int, row_with(r0, frame as int, value)));
        }
    }

    /// The actual value of a cell: its number, or for "-" the nearest number above it.
    pub fn get_actual_value(&self, layer: usize, frame: usize) -> (r: Option<u32>)
        ensures
            r == self.actual_value(layer as int, frame as int),
    {
        let cell = self.get_cell(layer, frame);
        match cell {
            None => None,
            Some(CellValue::Number(n)) => Some(*n),
            Some(CellValue::Same) => {
                let mut prev: usize = frame;
                assert(self.actual_value(layer as int, frame as int) == number_above(self.grid(), layer as int, frame as int));
                while prev > 0
                    invariant
                        prev <= frame,
                        self.actual_value(layer as int, frame as int) == number_above(self.grid(), layer as int, frame as int),
                        number_above(self.grid(), layer as int, frame as int)
                            == number_above(self.grid(), layer as int, prev as int),
                    decreases prev,
                {
                    prev = prev - 1;
                    let c = self.get_cell(layer, prev);
                    if let Some(CellValue::Number(n)) = c {
                        assert(grid_cell(self.grid(), layer as int, prev as int) == Some(CellValue::Number(*n)));
                        assert(number_above(self.grid(), layer as int, prev + 1) == Some(*n));
                        return Some(*n);
                    }
                }
                None
            },
        }
    }

    /// Page number and frame within the page (both 1-indexed) of a 0-indexed frame.
    pub fn get_page_and_frame(&self, frame_index: usize) -> (r: (u32, u32))
        requires
            self.frames_per_page > 0,
            frame_index < u32::MAX,
        ensures
            r.0 == (frame_index as int) / (self.frames_per_page as int) + 1,
            r.1 == (frame_index as int) % (self.frames_per_page as int) + 1,
    {
        let frame_num = frame_index as u32 + 1;
        let page = (frame_num - 1) / self.frames_per_page + 1;
        let frame_in_page = (frame_num - 1) % self.frames_per_page + 1;
        (page, frame_in_page)
    }

    /// The number of frames (the length of the first layer; 0 without layers).
    pub fn total_frames(&self) -> (n: usize)
        ensures
            n == self.frames(),
    {
        if self.cells.len() == 0 { 0 } else { self.cells[0].len() }
    }

    /// Grows every layer with empty cells to at least `frame_count` frames.
    pub fn ensure_frames(&mut self, frame_count: usize)
        ensures
            final(self).same_header(old(self)),
            final(self).cells@.len() == old(self).cells@.len(),
            final(self).grid() == Seq::new(old(self).cells@.len(), |l: int| row_grown(old(self).grid()[l], frame_count as int)),
    {
        let ghost g0 = self.grid();
        let mut l: usize = 0;
        while l < self.cells.len()
            invariant
                self.same_header(old(self)),
                self.cells@.len() == g0.len(),
                l <= g0.len(),
                forall|i: int| 0 <= i < l ==> #[trigger] self.grid()[i] == row_grown(g0[i], frame_count as int),
                forall|i: int| l <= i < g0.len() ==> #[trigger] self.grid()[i] == g0[i],
            decreases g0.len() - l,
        {
            assert(self.grid()[l as int] == g0[l as int]);
            let ghost before = self.grid();
            let mut row: Vec<Option<CellValue>> = Vec::new();
            std::mem::swap(&mut row, &mut self.cells[l]);
            let ghost r0 = row@;
            assert(r0 == g0[l as int]);
            grow_row(&mut row, frame_count);
            std::mem::swap(&mut row, &mut self.cells[l]);
            assert(self.grid() =~= before.update(l as int, row_grown(r0, frame_count as int)));
            assert forall|i: int| 0 <= i < l + 1 implies #[trigger] self.grid()[i] == row_grown(g0[i], frame_count as int) by {
                if i < l {
                    assert(before[i] == row_grown(g0[i], frame_count as int));
                }
            }
            assert forall|i: int| l + 1 <= i < g0.len() implies #[trigger] self.grid()[i] == g0[i] by {
                assert(before[i] == g0[i]);
            }
            l = l + 1;
        }
        assert(self.grid() =~= Seq::new(g0.len(), |i: int| row_grown(g0[i], frame_count as int)));
    }

    /// Inserts an empty layer (as many frames as the sheet has, named by its column letters)
    /// before layer `index`. Does nothing when `index` is beyond the last layer.
    pub fn insert_layer(&mut self, index: usize)
        requires
            old(self).wf(),
        ensures
            final(self).wf(),
            final(self).name@ == old(self).name@,
            final(self).framerate == old(self).framerate,
            final(self).frames_per_page == old(self).frames_per_page,
            index <= old(self).layer_count ==> {
                &&& final(self).layer_count == old(self).layer_count + 1
                &&& final(self).grid() == old(self).grid().insert(index as int,
                        Seq::new(old(self).frames(), |f: int| None::<CellValue>))
                &&& final(self).names() == old(self).names().insert(index as int, column_letters(index as nat))
            },
            index > old(self).layer_count ==> *final(self) == *old(self),
    {
        if index <= self.cells.len() {
            let frames = self.total_frames();
            let mut row: Vec<Option<CellValue>> = Vec::new();
            grow_row(&mut row, frames);
            assert(row@ =~= Seq::new(old(self).frames(), |f: int| None::<CellValue>));
            let ghost g0 = self.grid();
            let ghost n0 = self.names();
            let name = Self::column_name(index);
            self.cells.insert(index, row);
            self.layer_names.insert(index, name);
            self.layer_count = self.cells.len();
            assert(self.grid() =~= g0.insert(index as int, Seq::new(old(self).frames(), |f: int| None::<CellValue>)));
            assert(self.names() =~= n0.insert(index as int, column_letters(index as nat)));
        }
    }

    /// Removes layer `index`, handing back its name and cells; `None` when there is no such layer.
    pub fn delete_layer(&mut self, index: usize) -> (r: Option<(String, Vec<Option<CellValue>>)>)
        requires
            old(self).wf(),
        ensures
            final(self).wf(),
            final(self).name@ == old(self).name@,
            final(self).framerate == old(self).framerate,
            final(self).frames_per_page == old(self).frames_per_page,
            index < old(self).layer_count ==> {
                &&& r matches Some((name, cells))
                &&& name@ == old(self).names()[index as int]
                &&& cells@ == old(self).grid()[index as int]
                &&& final(self).layer_count == old(self).layer_count - 1
                &&& final(self).grid() == old(self).grid().remove(index as int)
                &&& final(self).names() == old(self).names().remove(index as int)
            },
            index >= old(self).layer_count ==> r is None && *final(self) == *old(self),
    {
        if index < self.cells.len() {
            let ghost g0 = self.grid();
            let ghost n0 = self.names();
            let cells = self.cells.remove(index);
            let name = self.layer_names.remove(index);
            self.layer_count = self.layer_count - 1;
            assert(self.grid() =~= g0.remove(index as int));
            assert(self.names() =~= n0.remove(index as int));
            Some((name, cells))
        } else {
            None
        }
    }
}

impl Default for TimeSheet {
    /// A 12-layer sheet named "sheet1" at 24 fps with 144 frames per page and no frames.
    fn default() -> (ts: Self)
        ensures
            ts.wf(),
            ts.name@ == "sheet1"@,
            ts.framerate == 24,
            ts.frames_per_page == 144,
            ts.layer_count == 12,
            ts.rows_have_len(0),
    {
        Self::new("sheet1".to_string(), 24, 12, 144)
    }
}

} // verus!
