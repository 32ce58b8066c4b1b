//! The XDTS format (JSON after one header line): converting its time tables to timesheets.

use vstd::prelude::*;
use crate::limits::{MAX_FRAMES, MAX_LAYERS};
use crate::text::{parse_u32, parse_u32_spec, push_str_chars, push_chars, str_chars, string_from_chars, chars_eq};
use crate::timesheet::{CellValue, TimeSheet};
use crate::formats::keyframes::{Keyframe, frames_ascending, lemma_sorted_by_frame, lemma_apply_tracks_holds, sorted_by_frame, sort_by_frame, sheet_from_tracks, apply_tracks,
    empty_grid, named_layers, SheetSpec, sheet_spec, is_plain_sheet};
use crate::formats::tdts::{TableOutcome, combine, layers_of, lemma_apply_tracks_agree};

verus! {

/// The root of an XDTS document.
pub struct XdtsRoot {
    /// Time tables
    pub time_tables: Vec<XdtsTimeTable>,
}

/// An XDTS time table.
pub struct XdtsTimeTable {
    /// Name
    pub name: String,
    /// Number of frames
    pub duration: usize,
    /// Fields
    pub fields: Vec<XdtsField>,
    /// Track names per field id
    pub time_table_headers: Vec<XdtsTimeTableHeader>,
}

/// An XDTS field.
pub struct XdtsField {
    /// Field id
    pub field_id: u32,
    /// Tracks
    pub tracks: Vec<XdtsTrack>,
}

/// An XDTS track.
pub struct XdtsTrack {
    /// Track (layer) number
    pub track_no: usize,
    /// Keyframes
    pub frames: Vec<XdtsFrame>,
}

/// An XDTS keyframe.
pub struct XdtsFrame {
    /// Frame index
    pub frame: usize,
    /// Data entries
    pub data: Vec<XdtsData>,
}

/// An XDTS data entry.
pub struct XdtsData {
    /// Values
    pub values: Vec<String>,
}

/// Track names of a field.
pub struct XdtsTimeTableHeader {
    /// Field id
    pub field_id: u32,
    /// Names
    pub names: Vec<String>,
}

/// Why an XDTS document could not be converted.
#[derive(Debug, Clone, Copy, PartialEq, Eq, Structural)]
pub enum XdtsError {
    /// More layers than allowed
    TooManyLayers(usize),
    /// More frames than allowed
    TooManyFrames(usize),
}

/// What `regex::Regex::new(pattern)` followed by `find(text)` gives: the text of the
/// leftmost-first match, or `None` when there is none (or the pattern does not compile).
pub uninterp spec fn regex_find(pattern: Seq<char>, text: Seq<char>) -> Option<Seq<char>>;

/// Calls `regex::Regex::new` on `pattern` and `Regex::find` on `text`; the contract claims
/// only that the result is the matched text that these calls give (`None` when the pattern
/// does not compile or nothing matches).
#[verifier::external_body]
fn regex_first_match(pattern: &str, text: &str) -> (r: Option<String>)
    ensures
        match r {
            Some(m) => regex_find(pattern@, text@) == Some(m@),
            None => regex_find(pattern@, text@) is None,
        },
{
    match regex::Regex::new(pattern) {
        Ok(re) => re.find(text).map(|m| m.as_str().to_string()),
        Err(_) => None,
    }
}

/// The pattern of a trailing number.
pub open spec fn trailing_number_pattern() -> Seq<char> {
    seq!['\\', 'd', '+', '$']
}

/// The cell of an XDTS value: the null cell is drawing 0, tick and hyphen marks are no
/// keyframe at all, anything else is the number at its end (empty when there is none).
pub open spec fn xdts_cell(v: Seq<char>) -> Option<Option<CellValue>> {
    if v == "SYMBOL_NULL_CELL"@ {
        Some(Some(CellValue::Number(0)))
    } else if v == "SYMBOL_TICK_1"@ || v == "SYMBOL_TICK_2"@ || v == "SYMBOL_HYPHEN"@ {
        None
    } else {
        match regex_find(trailing_number_pattern(), v) {
            Some(m) => match parse_u32_spec(m) {
                Some(n) => Some(Some(CellValue::Number(n))),
                None => Some(None),
            },
            None => Some(None),
        }
    }
}

/// The first value of a keyframe's first data entry, if any.
pub open spec fn xdts_first_value(fr: XdtsFrame) -> Option<Seq<char>> {
    if fr.data@.len() > 0 && fr.data@[0].values@.len() > 0 {
        Some(fr.data@[0].values@[0]@)
    } else {
        None
    }
}

/// The keyframes of a track: frames below `frame_count` whose value gives a cell.
pub open spec fn xdts_track_keyframes(frames: Seq<XdtsFrame>, frame_count: nat) -> Seq<Keyframe>
    decreases frames.len(),
{
    if frames.len() == 0 {
        Seq::empty()
    } else {
        let rest = xdts_track_keyframes(frames.drop_last(), frame_count);
        let fr = frames.last();
        if (fr.frame as nat) < frame_count && xdts_first_value(fr) is Some
            && xdts_cell(xdts_first_value(fr)->Some_0) is Some
            && xdts_cell(xdts_first_value(fr)->Some_0)->Some_0 is Some {
            rest.push((fr.frame, xdts_cell(xdts_first_value(fr)->Some_0)->Some_0))
        } else {
            rest
        }
    }
}

/// Whether `v` is one of the tick or hyphen marks, which are no drawing.
pub open spec fn is_mark_symbol(v: Seq<char>) -> bool {
    v == "SYMBOL_TICK_1"@ || v == "SYMBOL_TICK_2"@ || v == "SYMBOL_HYPHEN"@
}

/// The keyframes of an XDTS track: every entry below the frame count whose first value is
/// the null-cell symbol is a keyframe of drawing 0 at its frame; and every keyframe comes
/// from an entry below the frame count at its frame whose first value is not a tick or
/// hyphen mark, and sets a cell (a keyframe never stands for "no keyframe").
pub proof fn lemma_xdts_track_keyframes(frames: Seq<XdtsFrame>, fc: nat)
    ensures
        forall|i: int| 0 <= i < frames.len() && (frames[i].frame as nat) < fc
            && #[trigger] xdts_first_value(frames[i]) == Some("SYMBOL_NULL_CELL"@)
            ==> exists|k: int| 0 <= k < xdts_track_keyframes(frames, fc).len()
                && #[trigger] xdts_track_keyframes(frames, fc)[k] == (frames[i].frame, Some(CellValue::Number(0))),
        forall|k: int| 0 <= k < xdts_track_keyframes(frames, fc).len() ==> {
            &&& (#[trigger] xdts_track_keyframes(frames, fc)[k]).1 is Some
            &&& exists|i: int| 0 <= i < frames.len() && frames[i].frame == xdts_track_keyframes(frames, fc)[k].0
                && (frames[i].frame as nat) < fc
                && #[trigger] xdts_first_value(frames[i]) is Some
                && !is_mark_symbol(xdts_first_value(frames[i])->Some_0)
                && xdts_track_keyframes(frames, fc)[k].1 == xdts_cell(xdts_first_value(frames[i])->Some_0)->Some_0
        },
    decreases frames.len(),
{
    reveal_strlit("SYMBOL_NULL_CELL");
    reveal_strlit("SYMBOL_TICK_1");
    reveal_strlit("SYMBOL_TICK_2");
    reveal_strlit("SYMBOL_HYPHEN");
    if frames.len() > 0 {
        let fs = frames.drop_last();
        lemma_xdts_track_keyframes(fs, fc);
        let rest = xdts_track_keyframes(fs, fc);
        let res = xdts_track_keyframes(frames, fc);
        let fr = frames.last();
        let pushed = (fr.frame as nat) < fc && xdts_first_value(fr) is Some
            && xdts_cell(xdts_first_value(fr)->Some_0) is Some
            && xdts_cell(xdts_first_value(fr)->Some_0)->Some_0 is Some;
        assert(forall|k: int| 0 <= k < rest.len() ==> res[k] == rest[k]);
        assert(pushed ==> res.len() == rest.len() + 1 && res[rest.len() as int] == (fr.frame, xdts_cell(xdts_first_value(fr)->Some_0)->Some_0));
        assert(!pushed ==> res.len() == rest.len());
        assert forall|i: int| 0 <= i < frames.len() && (frames[i].frame as nat) < fc
            && #[trigger] xdts_first_value(frames[i]) == Some("SYMBOL_NULL_CELL"@)
            implies exists|k: int| 0 <= k < res.len() && #[trigger] res[k] == (frames[i].frame, Some(CellValue::Number(0))) by {
            if i < frames.len() - 1 {
                assert(frames[i] == fs[i]);
                assert(xdts_first_value(fs[i]) == Some("SYMBOL_NULL_CELL"@));
                let k = choose|k: int| 0 <= k < rest.len() && #[trigger] rest[k] == (fs[i].frame, Some(CellValue::Number(0)));
                assert(res[k] == rest[k]);
            } else {
                assert(frames[i] == fr);
                assert(res[rest.len() as int] == (fr.frame, Some(CellValue::Number(0))));
            }
        }
        assert forall|k: int| 0 <= k < res.len() implies {
            &&& (#[trigger] res[k]).1 is Some
            &&& exists|i: int| 0 <= i < frames.len() && frames[i].frame == res[k].0
                && (frames[i].frame as nat) < fc
                && #[trigger] xdts_first_value(frames[i]) is Some
                && !is_mark_symbol(xdts_first_value(frames[i])->Some_0)
                && res[k].1 == xdts_cell(xdts_first_value(frames[i])->Some_0)->Some_0
        } by {
            if k < rest.len() {
                assert(res[k] == rest[k]);
                let i = choose|i: int| 0 <= i < fs.len() && fs[i].frame == rest[k].0
                    && (fs[i].frame as nat) < fc
                    && #[trigger] xdts_first_value(fs[i]) is Some
                    && !is_mark_symbol(xdts_first_value(fs[i])->Some_0)
                    && rest[k].1 == xdts_cell(xdts_first_value(fs[i])->Some_0)->Some_0;
                assert(frames[i] == fs[i]);
            } else {
                let j = frames.len() - 1;
                assert(frames[j] == fr);
                assert(pushed);
                let v = xdts_first_value(fr)->Some_0;
                assert("SYMBOL_TICK_1"@[7] != "SYMBOL_NULL_CELL"@[7]);
                assert("SYMBOL_TICK_2"@[7] != "SYMBOL_NULL_CELL"@[7]);
                assert("SYMBOL_TICK_1"@ != "SYMBOL_NULL_CELL"@);
                assert("SYMBOL_TICK_2"@ != "SYMBOL_NULL_CELL"@);
                assert("SYMBOL_HYPHEN"@ != "SYMBOL_NULL_CELL"@);
                assert(!is_mark_symbol(v));
                assert(xdts_first_value(frames[j]) is Some);
                assert(res[k].1 is Some);
            }
        }
    }
}

/// Whether `i` is the last position of `s` whose frame is `fr`, in a list ordered by frame.
spec fn last_at(s: Seq<Keyframe>, i: int, fr: usize) -> bool {
    s[i].0 == fr && (i + 1 == s.len() || s[i + 1].0 > fr)
}

proof fn lemma_last_at_frame(s: Seq<Keyframe>, j: int)
    requires
        frames_ascending(s),
        0 <= j < s.len(),
    ensures
        exists|i: int| j <= i < s.len() && #[trigger] last_at(s, i, s[j].0),
    decreases s.len() - j,
{
    if j + 1 < s.len() && s[j + 1].0 == s[j].0 {
        lemma_last_at_frame(s, j + 1);
        let i = choose|i: int| j + 1 <= i < s.len() && #[trigger] last_at(s, i, s[j + 1].0);
        assert(last_at(s, i, s[j].0));
    } else {
        if j + 1 < s.len() {
            assert(s[j].0 <= s[j + 1].0);
        }
        assert(last_at(s, j, s[j].0));
    }
}

/// In the sheet of an XDTS time table, the null-cell symbol blanks its track's layer to
/// drawing 0: when track `ti` (a layer of the sheet that no later track fills) has an entry below the
/// frame count at frame `fr` whose first value is the null-cell symbol, and every entry of
/// that track at `fr` is one, the layer's cell at `fr` is drawing 0.
pub proof fn lemma_xdts_null_cell_is_zero(t: XdtsTimeTable, file_name: Seq<char>, ti: int, e: int)
    requires
        xdts_table_outcome(t, file_name) is Sheet,
        t.fields@.len() > 0,
        0 <= ti < t.fields@[0].tracks@.len(),
        (t.fields@[0].tracks@[ti].track_no as nat) < xdts_table_outcome(t, file_name)->Sheet_0.layer_count,
        forall|u: int| ti < u < t.fields@[0].tracks@.len()
            ==> (#[trigger] t.fields@[0].tracks@[u]).track_no != t.fields@[0].tracks@[ti].track_no,
        0 <= e < t.fields@[0].tracks@[ti].frames@.len(),
        (t.fields@[0].tracks@[ti].frames@[e].frame as nat) < t.duration,
        xdts_first_value(t.fields@[0].tracks@[ti].frames@[e]) == Some("SYMBOL_NULL_CELL"@),
        forall|e2: int| 0 <= e2 < t.fields@[0].tracks@[ti].frames@.len()
            && (#[trigger] t.fields@[0].tracks@[ti].frames@[e2]).frame == t.fields@[0].tracks@[ti].frames@[e].frame
            ==> xdts_first_value(t.fields@[0].tracks@[ti].frames@[e2]) == Some("SYMBOL_NULL_CELL"@),
    ensures
        ({
            let spec = xdts_table_outcome(t, file_name)->Sheet_0;
            let layer = t.fields@[0].tracks@[ti].track_no as int;
            let fr = t.fields@[0].tracks@[ti].frames@[e].frame as int;
            &&& layer < spec.grid.len()
            &&& fr < spec.grid[layer].len()
            &&& spec.grid[layer][fr] == Some(CellValue::Number(0))
        }),
{
    reveal_strlit("SYMBOL_NULL_CELL");
    let tracks = t.fields@[0].tracks@;
    let fc = t.duration as nat;
    let hi = xdts_find_header(t.time_table_headers@, t.fields@[0].field_id, t.time_table_headers@.len());
    let names = t.time_table_headers@[hi->Some_0].names@;
    let layers = layers_of(tracks.len(), names.len());
    let tks = xdts_tracks_keyframes(tracks, fc);
    let frames = tracks[ti].frames@;
    let fr = frames[e].frame;
    let kf = xdts_track_keyframes(frames, fc);
    let keys = sorted_by_frame(kf);
    lemma_xdts_track_keyframes(frames, fc);
    lemma_sorted_by_frame(kf);
    kf.to_multiset_ensures();
    keys.to_multiset_ensures();
    assert(xdts_first_value(frames[e]) == Some("SYMBOL_NULL_CELL"@));
    let k = choose|k: int| 0 <= k < kf.len() && #[trigger] kf[k] == (fr, Some(CellValue::Number(0)));
    assert(kf.contains(kf[k]));
    assert(kf.to_multiset().count(kf[k]) > 0);
    assert(keys.to_multiset().count(kf[k]) > 0);
    assert(keys.contains((fr, Some(CellValue::Number(0)))));
    let j = choose|j: int| 0 <= j < keys.len() && keys[j] == (fr, Some(CellValue::Number(0)));
    lemma_last_at_frame(keys, j);
    let i = choose|i: int| j <= i < keys.len() && #[trigger] last_at(keys, i, keys[j].0);
    // the keyframe at i comes from an entry at `fr`, which is a null cell
    assert(keys.contains(keys[i]));
    assert(keys.to_multiset().count(keys[i]) > 0);
    assert(kf.to_multiset().count(keys[i]) > 0);
    assert(kf.contains(keys[i]));
    let k2 = choose|k2: int| 0 <= k2 < kf.len() && kf[k2] == keys[i];
    assert(kf[k2].1 is Some);
    let e2 = choose|e2: int| 0 <= e2 < frames.len() && frames[e2].frame == kf[k2].0
        && (frames[e2].frame as nat) < fc
        && #[trigger] xdts_first_value(frames[e2]) is Some
        && !is_mark_symbol(xdts_first_value(frames[e2])->Some_0)
        && kf[k2].1 == xdts_cell(xdts_first_value(frames[e2])->Some_0)->Some_0;
    assert(frames[e2].frame == fr);
    assert(xdts_first_value(frames[e2]) == Some("SYMBOL_NULL_CELL"@));
    assert(keys[i].1 == Some(CellValue::Number(0)));
    assert(tks[ti] == (tracks[ti].track_no, keys));
    assert forall|u: int| ti < u < tracks.len() implies (#[trigger] tks[u]).0 != tks[ti].0 by {
        assert(tks[u].0 == tracks[u].track_no);
    }
    assert((tracks[ti].track_no as nat) < layers);
    lemma_apply_tracks_holds(empty_grid(layers, fc), tks, fc, layers, tracks.len(), ti, i, fr as int);
}

/// The first header with field id `id`.
pub open spec fn xdts_find_header(hs: Seq<XdtsTimeTableHeader>, id: u32, n: nat) -> Option<int>
    decreases n,
{
    if n == 0 {
        None
    } else {
        match xdts_find_header(hs, id, (n - 1) as nat) {
            Some(i) => Some(i),
            None => if hs[n - 1].field_id == id { Some(n - 1) } else { None },
        }
    }
}

/// The sorted keyframe lists of the tracks of a table with `frames` frames.
pub open spec fn xdts_tracks_keyframes(tracks: Seq<XdtsTrack>, frames: nat) -> Seq<(usize, Seq<Keyframe>)> {
    Seq::new(tracks.len(), |i: int| (tracks[i].track_no, sorted_by_frame(xdts_track_keyframes(tracks[i].frames@, frames))))
}

/// What converting time table `t` gives (sheets named "file->table", no warnings).
pub open spec fn xdts_table_outcome(t: XdtsTimeTable, file_name: Seq<char>) -> TableOutcome {
    if t.fields@.len() == 0 {
        TableOutcome::Skip
    } else {
        let field = t.fields@[0];
        let hi = xdts_find_header(t.time_table_headers@, field.field_id, t.time_table_headers@.len());
        if hi is None {
            TableOutcome::Skip
        } else {
            let tracks = field.tracks@;
            let names = t.time_table_headers@[hi->Some_0].names@;
            let layers = layers_of(tracks.len(), names.len());
            let frames = t.duration as nat;
            if layers > MAX_LAYERS {
                TableOutcome::Fail(crate::formats::tdts::TdtsError::TooManyLayers(layers as usize))
            } else if frames > MAX_FRAMES {
                TableOutcome::Fail(crate::formats::tdts::TdtsError::TooManyFrames(t.duration))
            } else {
                TableOutcome::Sheet(
                    SheetSpec {
                        name: file_name + seq!['-', '>'] + t.name@,
                        layer_count: layers,
                        names: named_layers(Seq::new(names.len(), |i: int| names[i]@), layers),
                        grid: apply_tracks(empty_grid(layers, frames), xdts_tracks_keyframes(tracks, frames),
                            frames, layers, tracks.len()),
                    },
                    Seq::empty(),
                )
            }
        }
    }
}

/// The error of the library's own kind for a table failure.
pub open spec fn xdts_error_of(e: crate::formats::tdts::TdtsError) -> XdtsError {
    match e {
        crate::formats::tdts::TdtsError::TooManyLayers(n) => XdtsError::TooManyLayers(n),
        crate::formats::tdts::TdtsError::TooManyFrames(n) => XdtsError::TooManyFrames(n),
    }
}

fn xdts_value_cell(v: &String) -> (r: Option<Option<CellValue>>)
    ensures
        r == xdts_cell(v@),
{
    let chars = str_chars(v.as_str());
    if chars_eq(&chars, &str_chars("SYMBOL_NULL_CELL")) {
        return Some(Some(CellValue::Number(0)));
    }
    if chars_eq(&chars, &str_chars("SYMBOL_TICK_1")) || chars_eq(&chars, &str_chars("SYMBOL_TICK_2"))
        || chars_eq(&chars, &str_chars("SYMBOL_HYPHEN")) {
        return None;
    }
    let pattern = string_from_chars(&vec!['\\', 'd', '+', '$']);
    assert(pattern@ =~= trailing_number_pattern());
    match regex_first_match(pattern.as_str(), v.as_str()) {
        Some(m) => {
            let mc = str_chars(m.as_str());
            match parse_u32(&mc) {
                Some(n) => Some(Some(CellValue::Number(n))),
                None => Some(None),
            }
        },
        None => Some(None),
    }
}

fn xdts_first(fr: &XdtsFrame) -> (r: Option<&String>)
    ensures
        match r {
            Some(s) => xdts_first_value(*fr) == Some(s@),
            None => xdts_first_value(*fr) is None,
        },
{
    if fr.data.len() > 0 && fr.data[0].values.len() > 0 {
        Some(&fr.data[0].values[0])
    } else {
        None
    }
}

fn xdts_keyframes_of(track: &XdtsTrack, frame_count: usize) -> (kfs: Vec<Keyframe>)
    ensures
        kfs@ == xdts_track_keyframes(track.frames@, frame_count as nat),
{
    let mut kfs: Vec<Keyframe> = Vec::new();
    let mut i: usize = 0;
    while i < track.frames.len()
        invariant
            i <= track.frames@.len(),
            kfs@ == xdts_track_keyframes(track.frames@.subrange(0, i as int), frame_count as nat),
        decreases track.frames.len() - i,
    {
        let fr = &track.frames[i];
        let ghost sub = track.frames@.subrange(0, i + 1);
        assert(sub.drop_last() =~= track.frames@.subrange(0, i as int));
        if fr.frame < frame_count {
            match xdts_first(fr) {
                Some(v) => {
                    match xdts_value_cell(v) {
                        Some(Some(c)) => { kfs.push((fr.frame, Some(c))); },
                        _ => {},
                    }
                },
                None => {},
            }
        }
        i = i + 1;
    }
    assert(track.frames@.subrange(0, track.frames@.len() as int) =~= track.frames@);
    kfs
}

fn xdts_find_header_index(hs: &Vec<XdtsTimeTableHeader>, id: u32) -> (r: Option<usize>)
    ensures
        match r {
            Some(i) => xdts_find_header(hs@, id, hs@.len()) == Some(i as int) && i < hs@.len(),
            None => xdts_find_header(hs@, id, hs@.len()) is None,
        },
{
    let mut i: usize = 0;
    while i < hs.len()
        invariant
            i <= hs@.len(),
            xdts_find_header(hs@, id, i as nat) is None,
        decreases hs.len() - i,
    {
        if hs[i].field_id == id {
            proof { lemma_xdts_find_header_stable(hs@, id, (i + 1) as nat, hs@.len()); }
            return Some(i);
        }
        i = i + 1;
    }
    None
}

proof fn lemma_xdts_find_header_stable(hs: Seq<XdtsTimeTableHeader>, id: u32, m: nat, n: nat)
    requires
        m <= n,
        xdts_find_header(hs, id, m) is Some,
    ensures
        xdts_find_header(hs, id, n) == xdts_find_header(hs, id, m),
    decreases n - m,
{
    if m < n {
        lemma_xdts_find_header_stable(hs, id, m, (n - 1) as nat);
    }
}

fn xdts_table_to_sheet(table: &XdtsTimeTable, file_name: &str) -> (r: Result<Option<TimeSheet>, XdtsError>)
    ensures
        match xdts_table_outcome(*table, file_name@) {
            TableOutcome::Skip => r == Ok::<Option<TimeSheet>, XdtsError>(None),
            TableOutcome::Fail(e) => r == Err::<Option<TimeSheet>, XdtsError>(xdts_error_of(e)),
            TableOutcome::Sheet(sh, w) => r matches Ok(Some(ts)) && sheet_spec(ts) == sh && is_plain_sheet(ts),
        },
{
    if table.fields.len() == 0 {
        return Ok(None);
    }
    let field = &table.fields[0];
    let hi = match xdts_find_header_index(&table.time_table_headers, field.field_id) {
        Some(i) => i,
        None => { return Ok(None); },
    };
    let tracks = &field.tracks;
    let names = &table.time_table_headers[hi].names;
    let layer_count = if tracks.len() > names.len() { tracks.len() } else { names.len() };
    let frame_count = table.duration;
    if layer_count > MAX_LAYERS {
        return Err(XdtsError::TooManyLayers(layer_count));
    }
    if frame_count > MAX_FRAMES {
        return Err(XdtsError::TooManyFrames(frame_count));
    }
    let ghost frames = frame_count as nat;
    let ghost layers = layer_count as nat;
    let mut lists: Vec<(usize, Vec<Keyframe>)> = Vec::new();
    let mut t: usize = 0;
    while t < tracks.len()
        invariant
            t <= tracks@.len(),
            frame_count <= MAX_FRAMES,
            frames == frame_count as nat,
            lists@.len() == t,
            forall|j: int| 0 <= j < t ==> (#[trigger] lists@[j]).0 == tracks@[j].track_no,
            forall|j: int| 0 <= j < t && tracks@[j].track_no < layer_count ==>
                (#[trigger] lists@[j]).1@ == sorted_by_frame(xdts_track_keyframes(tracks@[j].frames@, frames)),
        decreases tracks.len() - t,
    {
        let track = &tracks[t];
        if track.track_no < layer_count {
            let mut kfs = xdts_keyframes_of(track, frame_count);
            sort_by_frame(&mut kfs);
            lists.push((track.track_no, kfs));
        } else {
            lists.push((track.track_no, Vec::new()));
        }
        t = t + 1;
    }
    let mut name_chars: Vec<char> = Vec::new();
    push_str_chars(&mut name_chars, file_name);
    name_chars.push('-');
    name_chars.push('>');
    let table_name = str_chars(table.name.as_str());
    push_chars(&mut name_chars, &table_name);
    let name = string_from_chars(&name_chars);
    let ts = sheet_from_tracks(name, names, layer_count, frame_count, &lists);
    proof {
        let lv = Seq::new(lists@.len(), |i: int| (lists@[i].0, lists@[i].1@));
        let tk = xdts_tracks_keyframes(tracks@, frames);
        lemma_apply_tracks_agree(empty_grid(layers, frames), lv, tk, frames, layers, tracks@.len());
        assert(ts.name@ =~= file_name@ + seq!['-', '>'] + table.name@);
    }
    Ok(Some(ts))
}

/// The result of converting the first `n` time tables.
pub open spec fn xdts_outcomes(tables: Seq<XdtsTimeTable>, file_name: Seq<char>) -> Seq<TableOutcome> {
    Seq::new(tables.len(), |i: int| xdts_table_outcome(tables[i], file_name))
}

proof fn lemma_combine_err_prefix(a: Seq<TableOutcome>, b: Seq<TableOutcome>)
    requires
        combine(a) is Err,
    ensures
        combine(a + b) == combine(a),
    decreases b.len(),
{
    if b.len() > 0 {
        lemma_combine_err_prefix(a, b.drop_last());
        assert((a + b).drop_last() =~= a + b.drop_last());
    } else {
        assert(a + b =~= a);
    }
}

/// Converts an XDTS document to timesheets, one per time table whose first field has
/// names; named "file->table". Fails when a table has more than 1000 layers or 100000 frames.
pub fn xdts_to_timesheets(root: &XdtsRoot, file_name: &str) -> (r: Result<Vec<TimeSheet>, XdtsError>)
    ensures
        match r {
            Ok(sheets) => {
                &&& combine(xdts_outcomes(root.time_tables@, file_name@)) matches Ok((specs, w))
                &&& specs == Seq::new(sheets@.len(), |i: int| sheet_spec(sheets@[i]))
                &&& forall|i: int| 0 <= i < sheets@.len() ==> is_plain_sheet(#[trigger] sheets@[i])
            },
            Err(e) => combine(xdts_outcomes(root.time_tables@, file_name@)) matches Err(f) && e == xdts_error_of(f),
        },
{
    let ghost os = xdts_outcomes(root.time_tables@, file_name@);
    let mut sheets: Vec<TimeSheet> = Vec::new();
    let ghost mut w: Seq<Seq<char>> = Seq::empty();
    let mut t: usize = 0;
    assert(Seq::new(sheets@.len(), |i: int| sheet_spec(sheets@[i])) =~= Seq::<SheetSpec>::empty());
    assert(os.subrange(0, 0) =~= Seq::<TableOutcome>::empty());
    while t < root.time_tables.len()
        invariant
            os == xdts_outcomes(root.time_tables@, file_name@),
            t <= root.time_tables@.len(),
            combine(os.subrange(0, t as int)) == Ok::<(Seq<SheetSpec>, Seq<Seq<char>>), crate::formats::tdts::TdtsError>((
                Seq::new(sheets@.len(), |i: int| sheet_spec(sheets@[i])), w)),
            forall|i: int| 0 <= i < sheets@.len() ==> is_plain_sheet(#[trigger] sheets@[i]),
        decreases root.time_tables.len() - t,
    {
        let ghost before = Seq::new(sheets@.len(), |i: int| sheet_spec(sheets@[i]));
        let ghost pre = os.subrange(0, (t + 1) as int);
        assert(pre.drop_last() =~= os.subrange(0, t as int));
        match xdts_table_to_sheet(&root.time_tables[t], file_name) {
            Err(e) => {
                proof {
                    lemma_combine_err_prefix(pre, os.subrange((t + 1) as int, os.len() as int));
                    assert(pre + os.subrange((t + 1) as int, os.len() as int) =~= os);
                }
                return Err(e);
            },
            Ok(None) => {},
            Ok(Some(ts)) => {
                sheets.push(ts);
                assert(Seq::new(sheets@.len(), |i: int| sheet_spec(sheets@[i])) =~= before.push(sheet_spec(ts)));
                proof { w = w + Seq::<Seq<char>>::empty(); }
            },
        }
        t = t + 1;
    }
    assert(os.subrange(0, os.len() as int) =~= os);
    Ok(sheets)
}

} // verus!
