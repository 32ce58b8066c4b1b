//! Keyframe lists: ordering them by frame and filling a layer from them.

use vstd::prelude::*;
use crate::timesheet::{CellValue, TimeSheet, row_with, row_grown, column_letters};

verus! {

/// A keyframe: a frame index and the value that holds from it on.
pub type Keyframe = (usize, Option<CellValue>);

/// `row` with frames `a .. b` set to `v`, growing it to `b` frames when needed
/// (unchanged when `a >= b`).
pub open spec fn range_filled(row: Seq<Option<CellValue>>, a: int, b: int, v: Option<CellValue>) -> Seq<Option<CellValue>> {
    if a < b {
        Seq::new(if row.len() < b { b as nat } else { row.len() }, |f: int|
            if a <= f < b { v } else if f < row.len() { row[f] } else { None })
    } else {
        row
    }
}

/// Where keyframe `i` stops holding: at the next keyframe's frame, or at `frame_count`,
/// and never past `frame_count`.
pub open spec fn keyframe_end(kfs: Seq<Keyframe>, i: int, frame_count: nat) -> int {
    let e = if i + 1 < kfs.len() { kfs[i + 1].0 as int } else { frame_count as int };
    if e < frame_count { e } else { frame_count as int }
}

/// The grid after filling layer `layer` from the first `n` keyframes, one after another.
pub open spec fn fill_steps(g: Seq<Seq<Option<CellValue>>>, layer: int, kfs: Seq<Keyframe>, frame_count: nat, n: nat)
    -> Seq<Seq<Option<CellValue>>>
    decreases n,
{
    if n == 0 {
        g
    } else {
        let g1 = fill_steps(g, layer, kfs, frame_count, (n - 1) as nat);
        let i = n - 1;
        if 0 <= layer < g1.len() {
            g1.update(layer, range_filled(g1[layer], kfs[i].0 as int, keyframe_end(kfs, i, frame_count), kfs[i].1))
        } else {
            g1
        }
    }
}

proof fn lemma_fill_steps_len(g: Seq<Seq<Option<CellValue>>>, layer: int, kfs: Seq<Keyframe>, frame_count: nat, n: nat)
    ensures
        fill_steps(g, layer, kfs, frame_count, n).len() == g.len(),
    decreases n,
{
    if n > 0 {
        lemma_fill_steps_len(g, layer, kfs, frame_count, (n - 1) as nat);
    }
}

/// Filling a layer from keyframes in frame order: every frame from a keyframe's frame up to
/// the next keyframe's frame (for the last one, up to `frame_count`) holds that keyframe's
/// value, and every other layer is left as it was.
pub proof fn lemma_fill_holds(g: Seq<Seq<Option<CellValue>>>, layer: int, kfs: Seq<Keyframe>, frame_count: nat,
    n: nat, i: int, f: int, l2: int)
    requires
        frames_ascending(kfs),
        0 <= layer < g.len(),
        n <= kfs.len(),
        0 <= i < n,
        kfs[i].0 <= f < keyframe_end(kfs, i, frame_count),
    ensures
        f < fill_steps(g, layer, kfs, frame_count, n)[layer].len(),
        fill_steps(g, layer, kfs, frame_count, n)[layer][f] == kfs[i].1,
        0 <= l2 < g.len() && l2 != layer ==> fill_steps(g, layer, kfs, frame_count, n)[l2] == g[l2],
    decreases n,
{
    lemma_fill_steps_len(g, layer, kfs, frame_count, n);
    lemma_fill_steps_len(g, layer, kfs, frame_count, (n - 1) as nat);
    let g1 = fill_steps(g, layer, kfs, frame_count, (n - 1) as nat);
    let j = n - 1;
    if j == i {
        if n - 1 > 0 {
            lemma_fill_other_layers(g, layer, kfs, frame_count, (n - 1) as nat, l2);
        }
    } else {
        lemma_fill_holds(g, layer, kfs, frame_count, (n - 1) as nat, i, f, l2);
        assert(kfs[i + 1].0 <= kfs[j].0);
        assert(f < kfs[j].0);
    }
}

proof fn lemma_fill_other_layers(g: Seq<Seq<Option<CellValue>>>, layer: int, kfs: Seq<Keyframe>, frame_count: nat,
    n: nat, l2: int)
    requires
        n <= kfs.len(),
    ensures
        0 <= l2 < g.len() && l2 != layer ==> fill_steps(g, layer, kfs, frame_count, n)[l2] == g[l2],
    decreases n,
{
    if n > 0 {
        lemma_fill_steps_len(g, layer, kfs, frame_count, (n - 1) as nat);
        lemma_fill_other_layers(g, layer, kfs, frame_count, (n - 1) as nat, l2);
    }
}

/// Fills a timesheet layer from keyframes: each keyframe's value holds from its frame up to
/// the next keyframe's frame (the last one up to `frame_count`), never past `frame_count`.
pub fn fill_keyframes(
    timesheet: &mut TimeSheet,
    layer_idx: usize,
    keyframes: &[Keyframe],
    frame_count: usize,
)
    requires
        frame_count < usize::MAX,
    ensures
        final(timesheet).same_header(old(timesheet)),
        final(timesheet).cells@.len() == old(timesheet).cells@.len(),
        final(timesheet).grid() == fill_steps(old(timesheet).grid(), layer_idx as int, keyframes@,
            frame_count as nat, keyframes@.len()),
{
    let ghost g0 = timesheet.grid();
    let mut i: usize = 0;
    while i < keyframes.len()
        invariant
            frame_count < usize::MAX,
            i <= keyframes@.len(),
            timesheet.same_header(old(timesheet)),
            timesheet.cells@.len() == old(timesheet).cells@.len(),
            g0 == old(timesheet).grid(),
            timesheet.grid() == fill_steps(g0, layer_idx as int, keyframes@, frame_count as nat, i as nat),
        decreases keyframes.len() - i,
    {
        let (start_frame, value) = keyframes[i];
        let end_frame = if i + 1 < keyframes.len() { keyframes[i + 1].0 } else { frame_count };
        let ghost before = timesheet.grid();
        let ghost end = keyframe_end(keyframes@, i as int, frame_count as nat);
        proof { lemma_fill_steps_len(g0, layer_idx as int, keyframes@, frame_count as nat, i as nat); }
        let mut frame_idx: usize = start_frame;
        while frame_idx < end_frame
            invariant
                frame_count < usize::MAX,
                start_frame <= frame_idx,
                timesheet.same_header(old(timesheet)),
                timesheet.cells@.len() == before.len(),
                end == (if end_frame < frame_count { end_frame as int } else { frame_count as int }),
                timesheet.grid() == (if layer_idx < before.len() {
                    before.update(layer_idx as int, range_filled(before[layer_idx as int], start_frame as int,
                        if frame_idx < end { frame_idx as int } else { end }, value))
                } else {
                    before
                }),
            decreases end_frame - frame_idx,
        {
            if frame_idx < frame_count {
                let ghost g1 = timesheet.grid();
                timesheet.set_cell(layer_idx, frame_idx, value);
                proof {
                    if layer_idx < before.len() {
                        let r0 = before[layer_idx as int];
                        let r1 = range_filled(r0, start_frame as int, frame_idx as int, value);
                        let r2 = range_filled(r0, start_frame as int, frame_idx + 1, value);
                        assert(g1[layer_idx as int] == r1);
                        assert(row_with(r1, frame_idx as int, value) =~= r2);
                        assert(timesheet.grid() =~= before.update(layer_idx as int, r2));
                    }
                }
            }
            frame_idx = frame_idx + 1;
        }
        proof {
            if layer_idx < before.len() {
                let r0 = before[layer_idx as int];
                if start_frame as int >= end {
                    assert(range_filled(r0, start_frame as int, end, value) == r0);
                    assert(before.update(layer_idx as int, r0) =~= before);
                }
            }
        }
        i = i + 1;
    }
}

/// `sorted` (ordered by frame) with `x` inserted after every keyframe whose frame is not
/// greater than its own.
pub open spec fn insert_by_frame(sorted: Seq<Keyframe>, x: Keyframe) -> Seq<Keyframe>
    decreases sorted.len(),
{
    if sorted.len() == 0 {
        seq![x]
    } else if sorted.last().0 <= x.0 {
        sorted.push(x)
    } else {
        insert_by_frame(sorted.drop_last(), x).push(sorted.last())
    }
}

/// `kfs` in a stable order by frame (what `sort_by_key` on the frame gives).
pub open spec fn sorted_by_frame(kfs: Seq<Keyframe>) -> Seq<Keyframe>
    decreases kfs.len(),
{
    if kfs.len() == 0 {
        Seq::empty()
    } else {
        insert_by_frame(sorted_by_frame(kfs.drop_last()), kfs.last())
    }
}

/// Whether `s` is ordered by frame.
pub open spec fn frames_ascending(s: Seq<Keyframe>) -> bool {
    forall|i: int, j: int| 0 <= i <= j < s.len() ==> s[i].0 <= s[j].0
}

proof fn lemma_insert_by_frame(sorted: Seq<Keyframe>, x: Keyframe)
    requires
        frames_ascending(sorted),
    ensures
        frames_ascending(insert_by_frame(sorted, x)),
        insert_by_frame(sorted, x).len() == sorted.len() + 1,
        insert_by_frame(sorted, x).to_multiset() == sorted.to_multiset().insert(x),
    decreases sorted.len(),
{
    broadcast use vstd::seq_lib::group_to_multiset_ensures;
    if sorted.len() > 0 && sorted.last().0 > x.0 {
        let r = insert_by_frame(sorted.drop_last(), x);
        lemma_insert_by_frame(sorted.drop_last(), x);
        assert(sorted.drop_last().push(sorted.last()) =~= sorted);
        let res = r.push(sorted.last());
        assert forall|i: int, j: int| 0 <= i <= j < res.len() implies res[i].0 <= res[j].0 by {
            if j == res.len() - 1 && i < j {
                // every element of r is an element of sorted.drop_last() or x
                assert(r.to_multiset().count(r[i]) > 0);
                assert(r.to_multiset() == sorted.drop_last().to_multiset().insert(x));
                if r[i] != x {
                    assert(sorted.drop_last().to_multiset().count(r[i]) > 0);
                    let k = choose|k: int| 0 <= k < sorted.drop_last().len() && sorted.drop_last()[k] == r[i];
                    assert(sorted[k] == r[i]);
                }
            }
        }
    } else if sorted.len() > 0 {
        assert(sorted.drop_last().push(sorted.last()) =~= sorted);
    }
}

/// Sorting keyframes by frame orders them by frame and keeps exactly the same keyframes.
pub proof fn lemma_sorted_by_frame(kfs: Seq<Keyframe>)
    ensures
        frames_ascending(sorted_by_frame(kfs)),
        sorted_by_frame(kfs).to_multiset() == kfs.to_multiset(),
    decreases kfs.len(),
{
    broadcast use vstd::seq_lib::group_to_multiset_ensures;
    if kfs.len() > 0 {
        lemma_sorted_by_frame(kfs.drop_last());
        lemma_insert_by_frame(sorted_by_frame(kfs.drop_last()), kfs.last());
        assert(kfs.drop_last().push(kfs.last()) =~= kfs);
    } else {
        assert(kfs.to_multiset() =~= vstd::multiset::Multiset::empty());
        assert(sorted_by_frame(kfs).to_multiset() =~= vstd::multiset::Multiset::empty());
    }
}

/// Sorts keyframes by frame, keeping the order of keyframes with the same frame.
pub fn sort_by_frame(kfs: &mut Vec<Keyframe>)
    ensures
        final(kfs)@ == sorted_by_frame(old(kfs)@),
{
    let ghost k0 = kfs@;
    let mut i: usize = 1;
    if kfs.len() == 0 {
        return;
    }
    proof {
        let s1 = k0.subrange(0, 1);
        assert(s1.drop_last() =~= Seq::<Keyframe>::empty());
        assert(sorted_by_frame(s1.drop_last()) == Seq::<Keyframe>::empty());
        assert(insert_by_frame(Seq::<Keyframe>::empty(), s1.last()) == seq![s1.last()]);
        assert(kfs@.subrange(0, 1) =~= sorted_by_frame(s1));
        assert(kfs@.subrange(1, kfs@.len() as int) =~= k0.subrange(1, k0.len() as int));
    }
    while i < kfs.len()
        invariant
            1 <= i <= kfs@.len(),
            kfs@.len() == k0.len(),
            kfs@.subrange(0, i as int) == sorted_by_frame(k0.subrange(0, i as int)),
            kfs@.subrange(i as int, kfs@.len() as int) == k0.subrange(i as int, k0.len() as int),
        decreases kfs.len() - i,
    {
        // insert kfs[i] into the sorted prefix, moving it left past larger frames
        let ghost prefix = kfs@.subrange(0, i as int);
        let ghost x = kfs@[i as int];
        proof {
            let t = kfs@.subrange(i as int, kfs@.len() as int);
            assert(t[0] == x);
            assert(k0.subrange(i as int, k0.len() as int)[0] == k0[i as int]);
            assert(kfs@.subrange(i + 1, kfs@.len() as int) =~= t.subrange(1, t.len() as int));
            assert(k0.subrange(i + 1, k0.len() as int) =~= k0.subrange(i as int, k0.len() as int).subrange(1, t.len() as int));
        }
        let mut j: usize = i;
        while j > 0 && kfs[j - 1].0 > kfs[j].0
            invariant
                0 <= j <= i < kfs@.len(),
                kfs@.len() == k0.len(),
                kfs@[j as int] == x,
                kfs@.subrange(i + 1, kfs@.len() as int) == k0.subrange(i + 1, k0.len() as int),
                insert_by_frame(prefix, x) == insert_by_frame(kfs@.subrange(0, j as int), x)
                    + kfs@.subrange(j + 1, i + 1),
            decreases j,
        {
            let ghost before = kfs@;
            let a = kfs[j - 1];
            let b = kfs[j];
            kfs.set(j - 1, b);
            kfs.set(j, a);
            proof {
                let p = before.subrange(0, j as int);
                assert(p.last() == a);
                assert(p.drop_last() =~= kfs@.subrange(0, j - 1));
                assert(insert_by_frame(p, x) == insert_by_frame(p.drop_last(), x).push(a));
                assert(kfs@.subrange(j as int, i + 1) =~= seq![a] + before.subrange(j + 1, i + 1));
                assert(insert_by_frame(kfs@.subrange(0, j - 1), x).push(a) + before.subrange(j + 1, i + 1)
                    =~= insert_by_frame(kfs@.subrange(0, j - 1), x) + kfs@.subrange(j as int, i + 1));
            }
            j = j - 1;
        }
        proof {
            let p = kfs@.subrange(0, j as int);
            if j > 0 {
                assert(p.last() == kfs@[j - 1]);
            }
            assert(insert_by_frame(p, x) == p.push(x));
            assert(kfs@.subrange(0, i + 1) =~= p.push(x) + kfs@.subrange(j + 1, i + 1));
            assert(k0.subrange(0, i + 1).drop_last() =~= k0.subrange(0, i as int));
            assert(k0.subrange(0, i + 1).last() == x);
        }
        i = i + 1;
        assert(kfs@.subrange(i as int, kfs@.len() as int) =~= k0.subrange(i as int, k0.len() as int));
    }
    assert(kfs@.subrange(0, kfs@.len() as int) =~= kfs@);
    assert(k0.subrange(0, k0.len() as int) =~= k0);
}

/// An empty grid of `layers` layers of `frames` frames.
pub open spec fn empty_grid(layers: nat, frames: nat) -> Seq<Seq<Option<CellValue>>> {
    Seq::new(layers, |l: int| Seq::new(frames, |f: int| None::<CellValue>))
}

/// The grid after filling, track after track, the layer of each of the first `n` tracks
/// (a layer index and its keyframes) that lies below `layers`.
pub open spec fn apply_tracks(g: Seq<Seq<Option<CellValue>>>, tracks: Seq<(usize, Seq<Keyframe>)>, frames: nat,
    layers: nat, n: nat) -> Seq<Seq<Option<CellValue>>>
    decreases n,
{
    if n == 0 {
        g
    } else {
        let g1 = apply_tracks(g, tracks, frames, layers, (n - 1) as nat);
        let t = tracks[n - 1];
        if t.0 < layers {
            fill_steps(g1, t.0 as int, t.1, frames, t.1.len())
        } else {
            g1
        }
    }
}

proof fn lemma_apply_tracks_len(g: Seq<Seq<Option<CellValue>>>, tracks: Seq<(usize, Seq<Keyframe>)>, frames: nat,
    layers: nat, n: nat)
    requires
        n <= tracks.len(),
    ensures
        apply_tracks(g, tracks, frames, layers, n).len() == g.len(),
    decreases n,
{
    if n > 0 {
        lemma_apply_tracks_len(g, tracks, frames, layers, (n - 1) as nat);
        let t = tracks[n - 1];
        lemma_fill_steps_len(apply_tracks(g, tracks, frames, layers, (n - 1) as nat), t.0 as int, t.1, frames, t.1.len());
    }
}

/// Filling layers track after track: the keyframes of track `t`, in frame order, hold over
/// their ranges of its layer (each up to the next keyframe's frame, the last up to
/// `frames`) when no later track fills the same layer.
pub proof fn lemma_apply_tracks_holds(g: Seq<Seq<Option<CellValue>>>, tracks: Seq<(usize, Seq<Keyframe>)>, frames: nat,
    layers: nat, n: nat, t: int, i: int, f: int)
    requires
        0 <= t < n <= tracks.len(),
        tracks[t].0 < layers,
        (tracks[t].0 as int) < g.len(),
        forall|u: int| t < u < n ==> (#[trigger] tracks[u]).0 != tracks[t].0,
        frames_ascending(tracks[t].1),
        0 <= i < tracks[t].1.len(),
        tracks[t].1[i].0 <= f < keyframe_end(tracks[t].1, i, frames),
    ensures
        apply_tracks(g, tracks, frames, layers, n).len() == g.len(),
        f < apply_tracks(g, tracks, frames, layers, n)[tracks[t].0 as int].len(),
        apply_tracks(g, tracks, frames, layers, n)[tracks[t].0 as int][f] == tracks[t].1[i].1,
    decreases n,
{
    lemma_apply_tracks_len(g, tracks, frames, layers, n);
    lemma_apply_tracks_len(g, tracks, frames, layers, (n - 1) as nat);
    let g1 = apply_tracks(g, tracks, frames, layers, (n - 1) as nat);
    let tl = tracks[t].0 as int;
    if n - 1 == t {
        lemma_fill_holds(g1, tl, tracks[t].1, frames, tracks[t].1.len(), i, f, tl);
    } else {
        lemma_apply_tracks_holds(g, tracks, frames, layers, (n - 1) as nat, t, i, f);
        let u = tracks[n - 1];
        assert(u.0 != tracks[t].0);
        lemma_fill_other_layers(g1, u.0 as int, u.1, frames, u.1.len(), tl);
    }
}

/// The layer names of a sheet of `layers` layers whose first ones are `names`
/// (the rest keep their column letters).
pub open spec fn named_layers(names: Seq<Seq<char>>, layers: nat) -> Seq<Seq<char>> {
    Seq::new(layers, |i: int| if i < names.len() { names[i] } else { column_letters(i as nat) })
}

/// Builds a sheet (24 fps, 144 frames per page) of `layer_count` layers and `frame_count`
/// frames named from `names`, then fills it track by track from keyframe lists.
pub fn sheet_from_tracks(
    name: String,
    names: &Vec<String>,
    layer_count: usize,
    frame_count: usize,
    tracks: &Vec<(usize, Vec<Keyframe>)>,
) -> (ts: TimeSheet)
    requires
        names@.len() <= layer_count,
        frame_count < usize::MAX,
    ensures
        ts.wf(),
        ts.name@ == name@,
        ts.framerate == 24,
        ts.frames_per_page == 144,
        ts.layer_count == layer_count,
        ts.names() == named_layers(Seq::new(names@.len(), |i: int| names@[i]@), layer_count as nat),
        ts.grid() == apply_tracks(empty_grid(layer_count as nat, frame_count as nat),
            Seq::new(tracks@.len(), |i: int| (tracks@[i].0, tracks@[i].1@)), frame_count as nat,
            layer_count as nat, tracks@.len()),
        ts.source_width == 640,
        ts.source_height == 480,
{
    let ghost nv = Seq::new(names@.len(), |i: int| names@[i]@);
    let ghost tv = Seq::new(tracks@.len(), |i: int| (tracks@[i].0, tracks@[i].1@));
    let mut ts = TimeSheet::new(name, 24, layer_count, 144);
    let ghost g0 = ts.grid();
    ts.ensure_frames(frame_count);
    assert forall|l: int| 0 <= l < layer_count implies #[trigger] ts.grid()[l] == empty_grid(layer_count as nat, frame_count as nat)[l] by {
        assert(g0[l].len() == 0);
        assert(row_grown(g0[l], frame_count as int) =~= Seq::new(frame_count as nat, |f: int| None::<CellValue>));
    }
    assert(ts.grid() =~= empty_grid(layer_count as nat, frame_count as nat));
    let mut i: usize = 0;
    while i < names.len()
        invariant
            ts.wf(),
            ts.name@ == name@,
            ts.framerate == 24,
            ts.frames_per_page == 144,
            ts.layer_count == layer_count,
            ts.source_width == 640,
            ts.source_height == 480,
            names@.len() <= layer_count,
            nv == Seq::new(names@.len(), |i: int| names@[i]@),
            i <= names@.len(),
            ts.grid() == empty_grid(layer_count as nat, frame_count as nat),
            forall|j: int| 0 <= j < layer_count ==> #[trigger] ts.names()[j]
                == (if j < i { nv[j] } else { column_letters(j as nat) }),
        decreases names.len() - i,
    {
        let n = names[i].clone();
        let ghost before = ts.names();
        ts.layer_names.set(i, n);
        assert(ts.names() =~= before.update(i as int, nv[i as int]));
        i = i + 1;
    }
    assert(ts.names() =~= named_layers(nv, layer_count as nat));
    let mut t: usize = 0;
    while t < tracks.len()
        invariant
            ts.wf(),
            ts.name@ == name@,
            ts.framerate == 24,
            ts.frames_per_page == 144,
            ts.layer_count == layer_count,
            ts.source_width == 640,
            ts.source_height == 480,
            frame_count < usize::MAX,
            tv == Seq::new(tracks@.len(), |i: int| (tracks@[i].0, tracks@[i].1@)),
            ts.names() == named_layers(nv, layer_count as nat),
            t <= tracks@.len(),
            ts.grid() == apply_tracks(empty_grid(layer_count as nat, frame_count as nat), tv,
                frame_count as nat, layer_count as nat, t as nat),
        decreases tracks.len() - t,
    {
        let track = &tracks[t];
        if track.0 < layer_count {
            fill_keyframes(&mut ts, track.0, track.1.as_slice(), frame_count);
        }
        t = t + 1;
    }
    ts
}

/// The contents of a sheet: name, layer count, layer names and cells.
pub struct SheetSpec {
    /// Name
    pub name: Seq<char>,
    /// Number of layers
    pub layer_count: nat,
    /// Layer names
    pub names: Seq<Seq<char>>,
    /// Cells
    pub grid: Seq<Seq<Option<CellValue>>>,
}

/// The contents of `ts`.
pub open spec fn sheet_spec(ts: TimeSheet) -> SheetSpec {
    SheetSpec { name: ts.name@, layer_count: ts.layer_count as nat, names: ts.names(), grid: ts.grid() }
}

/// A well-formed sheet at 24 fps, 144 frames per page, with a 640x480 source.
pub open spec fn is_plain_sheet(ts: TimeSheet) -> bool {
    &&& ts.wf()
    &&& ts.framerate == 24
    &&& ts.frames_per_page == 144
    &&& ts.source_width == 640
    &&& ts.source_height == 480
}

} // verus!
