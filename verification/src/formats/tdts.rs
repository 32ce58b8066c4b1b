//! The TDTS format (JSON after one header line): converting its time tables to timesheets.

use vstd::prelude::*;
use crate::limits::{MAX_FRAMES, MAX_LAYERS};
use crate::text::{decimal_digits, push_decimal, push_str_chars, push_chars, str_chars, string_from_chars};
use crate::timesheet::{CellValue, TimeSheet};
use crate::formats::keyframes::{Keyframe, sorted_by_frame, sort_by_frame, sheet_from_tracks, apply_tracks,
    empty_grid, named_layers, SheetSpec, sheet_spec, is_plain_sheet};
use crate::formats::sxf::value_cell;

verus! {

/// The root of a TDTS document.
pub struct TdtsRoot {
    /// The time sheets
    pub time_sheets: Vec<TdtsTimeSheet>,
}

/// A TDTS time sheet: a cut with its time tables.
pub struct TdtsTimeSheet {
    /// Header
    pub header: TdtsHeader,
    /// Time tables
    pub time_tables: Vec<TdtsTimeTable>,
}

/// A TDTS time sheet header.
pub struct TdtsHeader {
    /// Cut name
    pub cut: String,
}

/// A TDTS time table.
pub struct TdtsTimeTable {
    /// Name
    pub name: String,
    /// Number of frames
    pub duration: usize,
    /// Fields (tracks grouped by field id)
    pub fields: Vec<TdtsField>,
    /// Track names per field id
    pub time_table_headers: Vec<TdtsTimeTableHeader>,
}

/// A TDTS field.
pub struct TdtsField {
    /// Field id (4 holds the cel tracks)
    pub field_id: u32,
    /// Tracks
    pub tracks: Vec<TdtsTrack>,
}

/// A TDTS track.
pub struct TdtsTrack {
    /// Track (layer) number
    pub track_no: usize,
    /// Keyframes
    pub frames: Vec<TdtsFrame>,
}

/// A TDTS keyframe.
pub struct TdtsFrame {
    /// Frame index (may be negative in broken files)
    pub frame: i32,
    /// Data entries
    pub data: Vec<TdtsData>,
}

/// A TDTS data entry.
pub struct TdtsData {
    /// Values
    pub values: Vec<String>,
}

/// Track names of a field.
pub struct TdtsTimeTableHeader {
    /// Field id
    pub field_id: u32,
    /// Names
    pub names: Vec<String>,
}

/// Parse result containing timesheets and warnings
pub struct TdtsParseResult {
    /// One timesheet per usable time table
    pub timesheets: Vec<TimeSheet>,
    /// Warnings met while reading
    pub warnings: Vec<String>,
}

/// Why a TDTS document could not be converted.
#[derive(Debug, Clone, Copy, PartialEq, Eq, Structural)]
pub enum TdtsError {
    /// More layers than allowed
    TooManyLayers(usize),
    /// More frames than allowed
    TooManyFrames(usize),
}

/// The first value of a keyframe's first data entry, if any.
pub open spec fn first_value(fr: TdtsFrame) -> Option<Seq<char>> {
    if fr.data@.len() > 0 && fr.data@[0].values@.len() > 0 {
        Some(fr.data@[0].values@[0]@)
    } else {
        None
    }
}

/// The keyframes of a track: every keyframe at a frame in `0 .. frame_count` with a value.
pub open spec fn track_keyframes(frames: Seq<TdtsFrame>, frame_count: nat) -> Seq<Keyframe>
    decreases frames.len(),
{
    if frames.len() == 0 {
        Seq::empty()
    } else {
        let rest = track_keyframes(frames.drop_last(), frame_count);
        let fr = frames.last();
        if fr.frame >= 0 && (fr.frame as int) < frame_count && first_value(fr) is Some {
            rest.push((fr.frame as usize, value_cell(first_value(fr)->Some_0)))
        } else {
            rest
        }
    }
}

/// The warning for a negative frame.
pub open spec fn negative_frame_warning(frame: i32) -> Seq<char> {
    seq!['N', 'e', 'g', 'a', 't', 'i', 'v', 'e', ' ', 'f', 'r', 'a', 'm', 'e', ' ', '-']
        + decimal_digits((-frame) as nat)
        + seq![' ', 'f', 'o', 'u', 'n', 'd', ',', ' ', 's', 'k', 'i', 'p', 'p', 'i', 'n', 'g']
}

/// The warnings of a track: one per negative frame.
pub open spec fn track_warnings(frames: Seq<TdtsFrame>) -> Seq<Seq<char>>
    decreases frames.len(),
{
    if frames.len() == 0 {
        Seq::empty()
    } else {
        let rest = track_warnings(frames.drop_last());
        if frames.last().frame < 0 { rest.push(negative_frame_warning(frames.last().frame)) } else { rest }
    }
}

/// The first field with id 4.
pub open spec fn find_field(fields: Seq<TdtsField>, n: nat) -> Option<int>
    decreases n,
{
    if n == 0 {
        None
    } else {
        match find_field(fields, (n - 1) as nat) {
            Some(i) => Some(i),
            None => if fields[n - 1].field_id == 4 { Some(n - 1) } else { None },
        }
    }
}

/// The first header with field id `id`.
pub open spec fn find_header(hs: Seq<TdtsTimeTableHeader>, id: u32, n: nat) -> Option<int>
    decreases n,
{
    if n == 0 {
        None
    } else {
        match find_header(hs, id, (n - 1) as nat) {
            Some(i) => Some(i),
            None => if hs[n - 1].field_id == id { Some(n - 1) } else { None },
        }
    }
}

/// What converting one time table gives.
pub enum TableOutcome {
    /// The table has no usable data
    Skip,
    /// The table is too large
    Fail(TdtsError),
    /// A sheet and the warnings met while filling it
    Sheet(SheetSpec, Seq<Seq<char>>),
}

/// The name of the sheet made from a table.
pub open spec fn tdts_sheet_name(file_name: Seq<char>, cut: Seq<char>, table: Seq<char>) -> Seq<char> {
    file_name + seq!['-', '>'] + cut + seq!['-', '>'] + table
}

/// The layer count of a table: the larger of its track count and its name count.
pub open spec fn layers_of(tracks: nat, names: nat) -> nat {
    if tracks > names { tracks } else { names }
}

/// The warnings of the tracks `0 .. n` that lie below `layers`.
pub open spec fn tracks_warnings(tracks: Seq<TdtsTrack>, layers: nat, n: nat) -> Seq<Seq<char>>
    decreases n,
{
    if n == 0 {
        Seq::empty()
    } else {
        let rest = tracks_warnings(tracks, layers, (n - 1) as nat);
        if tracks[n - 1].track_no < layers { rest + track_warnings(tracks[n - 1].frames@) } else { rest }
    }
}

/// The sorted keyframe lists of the tracks of a table with `frames` frames.
pub open spec fn tracks_keyframes(tracks: Seq<TdtsTrack>, frames: nat) -> Seq<(usize, Seq<Keyframe>)> {
    Seq::new(tracks.len(), |i: int| (tracks[i].track_no, sorted_by_frame(track_keyframes(tracks[i].frames@, frames))))
}

/// What converting the time table `t` of cut `cut` gives.
pub open spec fn table_outcome(t: TdtsTimeTable, file_name: Seq<char>, cut: Seq<char>) -> TableOutcome {
    let fi = find_field(t.fields@, t.fields@.len());
    let hi = find_header(t.time_table_headers@, 4, t.time_table_headers@.len());
    if t.fields@.len() == 0 || fi is None || hi is None {
        TableOutcome::Skip
    } else {
        let tracks = t.fields@[fi->Some_0].tracks@;
        let names = t.time_table_headers@[hi->Some_0].names@;
        let layers = layers_of(tracks.len(), names.len());
        let frames = t.duration as nat;
        if layers > MAX_LAYERS {
            TableOutcome::Fail(TdtsError::TooManyLayers(layers as usize))
        } else if frames > MAX_FRAMES {
            TableOutcome::Fail(TdtsError::TooManyFrames(t.duration))
        } else {
            TableOutcome::Sheet(
                SheetSpec {
                    name: tdts_sheet_name(file_name, cut, t.name@),
                    layer_count: layers,
                    names: named_layers(Seq::new(names.len(), |i: int| names[i]@), layers),
                    grid: apply_tracks(empty_grid(layers, frames), tracks_keyframes(tracks, frames), frames,
                        layers, tracks.len()),
                },
                tracks_warnings(tracks, layers, tracks.len()),
            )
        }
    }
}

/// The outcomes of every time table of the first `n` time sheets, in order.
pub open spec fn outcomes(sheets: Seq<TdtsTimeSheet>, file_name: Seq<char>, n: nat) -> Seq<TableOutcome>
    decreases n,
{
    if n == 0 {
        Seq::empty()
    } else {
        let s = sheets[n - 1];
        outcomes(sheets, file_name, (n - 1) as nat)
            + Seq::new(s.time_tables@.len(), |i: int| table_outcome(s.time_tables@[i], file_name, s.header.cut@))
    }
}

/// The result of a list of outcomes: the first failure, or every sheet with all warnings.
pub open spec fn combine(os: Seq<TableOutcome>) -> Result<(Seq<SheetSpec>, Seq<Seq<char>>), TdtsError>
    decreases os.len(),
{
    if os.len() == 0 {
        Ok((Seq::empty(), Seq::empty()))
    } else {
        match combine(os.drop_last()) {
            Err(e) => Err(e),
            Ok((sheets, warnings)) => match os.last() {
                TableOutcome::Skip => Ok((sheets, warnings)),
                TableOutcome::Fail(e) => Err(e),
                TableOutcome::Sheet(sh, w) => Ok((sheets.push(sh), warnings + w)),
            },
        }
    }
}

/// The views of strings.
pub open spec fn strings_view(v: Seq<String>) -> Seq<Seq<char>> {
    Seq::new(v.len(), |i: int| v[i]@)
}

fn negative_warning(frame: i32) -> (s: String)
    requires
        frame < 0,
    ensures
        s@ == negative_frame_warning(frame),
{
    let mut v: Vec<char> = Vec::new();
    push_str_chars(&mut v, "Negative frame -");
    let magnitude: u64 = (-(frame as i64)) as u64;
    push_decimal(&mut v, magnitude);
    push_str_chars(&mut v, " found, skipping");
    proof {
        reveal_strlit("Negative frame -");
        reveal_strlit(" found, skipping");
    }
    assert(v@ =~= negative_frame_warning(frame));
    string_from_chars(&v)
}

fn frame_first_value(fr: &TdtsFrame) -> (r: Option<&String>)
    ensures
        match r {
            Some(s) => first_value(*fr) == Some(s@),
            None => first_value(*fr) is None,
        },
{
    if fr.data.len() > 0 && fr.data[0].values.len() > 0 {
        Some(&fr.data[0].values[0])
    } else {
        None
    }
}

fn track_keyframes_of(track: &TdtsTrack, frame_count: usize, warnings: &mut Vec<String>) -> (kfs: Vec<Keyframe>)
    ensures
        kfs@ == track_keyframes(track.frames@, frame_count as nat),
        strings_view(final(warnings)@) == strings_view(old(warnings)@) + track_warnings(track.frames@),
{
    let mut kfs: Vec<Keyframe> = Vec::new();
    let mut i: usize = 0;
    while i < track.frames.len()
        invariant
            i <= track.frames@.len(),
            kfs@ == track_keyframes(track.frames@.subrange(0, i as int), frame_count as nat),
            strings_view(warnings@) == strings_view(old(warnings)@) + track_warnings(track.frames@.subrange(0, i as int)),
        decreases track.frames.len() - i,
    {
        let fr = &track.frames[i];
        let ghost w0 = strings_view(warnings@);
        let ghost sub = track.frames@.subrange(0, i + 1);
        assert(sub.drop_last() =~= track.frames@.subrange(0, i as int));
        if fr.frame < 0 {
            warnings.push(negative_warning(fr.frame));
            assert(strings_view(warnings@) =~= w0.push(negative_frame_warning(fr.frame)));
        } else if (fr.frame as usize) < frame_count {
            match frame_first_value(fr) {
                Some(v) => {
                    let chars = str_chars(v.as_str());
                    let cell = match crate::text::parse_u32(&chars) {
                        Some(n) => Some(CellValue::Number(n)),
                        None => None,
                    };
                    kfs.push((fr.frame as usize, cell));
                },
                None => {},
            }
        }
        i = i + 1;
    }
    assert(track.frames@.subrange(0, track.frames@.len() as int) =~= track.frames@);
    kfs
}

fn find_field_index(fields: &Vec<TdtsField>) -> (r: Option<usize>)
    ensures
        match r {
            Some(i) => find_field(fields@, fields@.len()) == Some(i as int) && i < fields@.len(),
            None => find_field(fields@, fields@.len()) is None,
        },
{
    let mut i: usize = 0;
    while i < fields.len()
        invariant
            i <= fields@.len(),
            find_field(fields@, i as nat) is None,
        decreases fields.len() - i,
    {
        if fields[i].field_id == 4 {
            proof { lemma_find_field_stable(fields@, (i + 1) as nat, fields@.len()); }
            return Some(i);
        }
        i = i + 1;
    }
    None
}

proof fn lemma_find_field_stable(fields: Seq<TdtsField>, m: nat, n: nat)
    requires
        m <= n,
        find_field(fields, m) is Some,
    ensures
        find_field(fields, n) == find_field(fields, m),
    decreases n - m,
{
    if m < n {
        lemma_find_field_stable(fields, m, (n - 1) as nat);
    }
}

proof fn lemma_find_header_stable(hs: Seq<TdtsTimeTableHeader>, id: u32, m: nat, n: nat)
    requires
        m <= n,
        find_header(hs, id, m) is Some,
    ensures
        find_header(hs, id, n) == find_header(hs, id, m),
    decreases n - m,
{
    if m < n {
        lemma_find_header_stable(hs, id, m, (n - 1) as nat);
    }
}

fn find_header_index(hs: &Vec<TdtsTimeTableHeader>, id: u32) -> (r: Option<usize>)
    ensures
        match r {
            Some(i) => find_header(hs@, id, hs@.len()) == Some(i as int) && i < hs@.len(),
            None => find_header(hs@, id, hs@.len()) is None,
        },
{
    let mut i: usize = 0;
    while i < hs.len()
        invariant
            i <= hs@.len(),
            find_header(hs@, id, i as nat) is None,
        decreases hs.len() - i,
    {
        if hs[i].field_id == id {
            proof { lemma_find_header_stable(hs@, id, (i + 1) as nat, hs@.len()); }
            return Some(i);
        }
        i = i + 1;
    }
    None
}

/// Converts one time table (of cut `cut`) to a timesheet named "file->cut->table"; `None`
/// when it has no cel field (id 4) or no names for it. Warnings are appended to `warnings`.
fn table_to_sheet(table: &TdtsTimeTable, file_name: &str, cut: &str, warnings: &mut Vec<String>)
    -> (r: Result<Option<TimeSheet>, TdtsError>)
    ensures
        match table_outcome(*table, file_name@, cut@) {
            TableOutcome::Skip => r == Ok::<Option<TimeSheet>, TdtsError>(None) && final(warnings)@ == old(warnings)@,
            TableOutcome::Fail(e) => r == Err::<Option<TimeSheet>, TdtsError>(e),
            TableOutcome::Sheet(sh, w) => r matches Ok(Some(ts)) && sheet_spec(ts) == sh && is_plain_sheet(ts)
                && strings_view(final(warnings)@) == strings_view(old(warnings)@) + w,
        },
{
    if table.fields.len() == 0 {
        return Ok(None);
    }
    let fi = match find_field_index(&table.fields) { Some(i) => i, None => { return Ok(None); } };
    let hi = match find_header_index(&table.time_table_headers, 4) { Some(i) => i, None => { return Ok(None); } };
    let tracks = &table.fields[fi].tracks;
    let names = &table.time_table_headers[hi].names;
    let layer_count = if tracks.len() > names.len() { tracks.len() } else { names.len() };
    let frame_count = table.duration;
    if layer_count > MAX_LAYERS {
        return Err(TdtsError::TooManyLayers(layer_count));
    }
    if frame_count > MAX_FRAMES {
        return Err(TdtsError::TooManyFrames(frame_count));
    }
    let ghost frames = frame_count as nat;
    let ghost layers = layer_count as nat;

    let mut lists: Vec<(usize, Vec<Keyframe>)> = Vec::new();
    let mut t: usize = 0;
    while t < tracks.len()
        invariant
            t <= tracks@.len(),
            frame_count <= MAX_FRAMES,
            layers == layer_count as nat,
            frames == frame_count as nat,
            lists@.len() == t,
            forall|j: int| 0 <= j < t ==> (#[trigger] lists@[j]).0 == tracks@[j].track_no,
            forall|j: int| 0 <= j < t && tracks@[j].track_no < layer_count ==>
                (#[trigger] lists@[j]).1@ == sorted_by_frame(track_keyframes(tracks@[j].frames@, frames)),
            strings_view(warnings@) == strings_view(old(warnings)@) + tracks_warnings(tracks@, layers, t as nat),
        decreases tracks.len() - t,
    {
        let track = &tracks[t];
        if track.track_no < layer_count {
            let mut kfs = track_keyframes_of(track, frame_count, warnings);
            sort_by_frame(&mut kfs);
            lists.push((track.track_no, kfs));
        } else {
            lists.push((track.track_no, Vec::new()));
        }
        t = t + 1;
    }
    let mut name_chars: Vec<char> = Vec::new();
    push_str_chars(&mut name_chars, file_name);
    name_chars.push('-');
    name_chars.push('>');
    push_str_chars(&mut name_chars, cut);
    name_chars.push('-');
    name_chars.push('>');
    let table_name = str_chars(table.name.as_str());
    push_chars(&mut name_chars, &table_name);
    assert(name_chars@ =~= tdts_sheet_name(file_name@, cut@, table.name@));
    let name = string_from_chars(&name_chars);
    let ts = sheet_from_tracks(name, names, layer_count, frame_count, &lists);
    proof {
        let lv = Seq::new(lists@.len(), |i: int| (lists@[i].0, lists@[i].1@));
        let tk = tracks_keyframes(tracks@, frames);
        lemma_apply_tracks_agree(empty_grid(layers, frames), lv, tk, frames, layers, tracks@.len());
    }
    Ok(Some(ts))
}

/// Two track lists that agree on every track below `layers` fill the same grid.
pub proof fn lemma_apply_tracks_agree(g: Seq<Seq<Option<CellValue>>>, a: Seq<(usize, Seq<Keyframe>)>,
    b: Seq<(usize, Seq<Keyframe>)>, frames: nat, layers: nat, n: nat)
    requires
        a.len() >= n,
        b.len() >= n,
        forall|j: int| 0 <= j < n ==> (#[trigger] a[j]).0 == b[j].0,
        forall|j: int| 0 <= j < n && a[j].0 < layers ==> (#[trigger] a[j]).1 == b[j].1,
    ensures
        apply_tracks(g, a, frames, layers, n) == apply_tracks(g, b, frames, layers, n),
    decreases n,
{
    if n > 0 {
        lemma_apply_tracks_agree(g, a, b, frames, layers, (n - 1) as nat);
        assert(a[n - 1].0 == b[n - 1].0);
    }
}

/// Converts a TDTS document to timesheets, one per time table that has cel tracks
/// (field 4) and names for them; named "file->cut->table". Fails when a table has more
/// than 1000 layers or 100000 frames.
pub fn tdts_to_timesheets(root: &TdtsRoot, file_name: &str) -> (r: Result<TdtsParseResult, TdtsError>)
    ensures
        match r {
            Ok(res) => {
                &&& combine(outcomes(root.time_sheets@, file_name@, root.time_sheets@.len()))
                    == Ok::<(Seq<SheetSpec>, Seq<Seq<char>>), TdtsError>((
                        Seq::new(res.timesheets@.len(), |i: int| sheet_spec(res.timesheets@[i])),
                        strings_view(res.warnings@)))
                &&& forall|i: int| 0 <= i < res.timesheets@.len() ==> is_plain_sheet(#[trigger] res.timesheets@[i])
            },
            Err(e) => combine(outcomes(root.time_sheets@, file_name@, root.time_sheets@.len()))
                == Err::<(Seq<SheetSpec>, Seq<Seq<char>>), TdtsError>(e),
        },
{
    let mut timesheets: Vec<TimeSheet> = Vec::new();
    let mut warnings: Vec<String> = Vec::new();
    let ghost sheets = root.time_sheets@;
    let mut s: usize = 0;
    assert(Seq::new(timesheets@.len(), |i: int| sheet_spec(timesheets@[i])) =~= Seq::<SheetSpec>::empty());
    assert(strings_view(warnings@) =~= Seq::<Seq<char>>::empty());
    while s < root.time_sheets.len()
        invariant
            sheets == root.time_sheets@,
            s <= sheets.len(),
            combine(outcomes(sheets, file_name@, s as nat)) == Ok::<(Seq<SheetSpec>, Seq<Seq<char>>), TdtsError>((
                Seq::new(timesheets@.len(), |i: int| sheet_spec(timesheets@[i])), strings_view(warnings@))),
            forall|i: int| 0 <= i < timesheets@.len() ==> is_plain_sheet(#[trigger] timesheets@[i]),
        decreases sheets.len() - s,
    {
        let sheet = &root.time_sheets[s];
        let ghost base = outcomes(sheets, file_name@, s as nat);
        let ghost tabs = Seq::new(sheet.time_tables@.len(), |i: int|
            table_outcome(sheet.time_tables@[i], file_name@, sheet.header.cut@));
        assert(outcomes(sheets, file_name@, (s + 1) as nat) == base + tabs);
        let mut t: usize = 0;
        while t < sheet.time_tables.len()
            invariant
                sheets == root.time_sheets@,
                s < sheets.len(),
                *sheet == sheets[s as int],
                base == outcomes(sheets, file_name@, s as nat),
                t <= sheet.time_tables@.len(),
                tabs == Seq::new(sheet.time_tables@.len(), |i: int|
                    table_outcome(sheet.time_tables@[i], file_name@, sheet.header.cut@)),
                combine(base + tabs.subrange(0, t as int)) == Ok::<(Seq<SheetSpec>, Seq<Seq<char>>), TdtsError>((
                    Seq::new(timesheets@.len(), |i: int| sheet_spec(timesheets@[i])), strings_view(warnings@))),
                forall|i: int| 0 <= i < timesheets@.len() ==> is_plain_sheet(#[trigger] timesheets@[i]),
            decreases sheet.time_tables.len() - t,
        {
            let ghost before_ts = Seq::new(timesheets@.len(), |i: int| sheet_spec(timesheets@[i]));
            let ghost before_w = strings_view(warnings@);
            let ghost os = base + tabs.subrange(0, t + 1);
            assert(os.drop_last() =~= base + tabs.subrange(0, t as int));
            assert(os.last() == table_outcome(sheet.time_tables@[t as int], file_name@, sheet.header.cut@));
            match table_to_sheet(&sheet.time_tables[t], file_name, sheet.header.cut.as_str(), &mut warnings) {
                Err(e) => {
                    proof { lemma_combine_err_extends(os, sheets, file_name@, s as nat, t as nat); }
                    return Err(e);
                },
                Ok(None) => {},
                Ok(Some(ts)) => {
                    timesheets.push(ts);
                    assert(Seq::new(timesheets@.len(), |i: int| sheet_spec(timesheets@[i]))
                        =~= before_ts.push(sheet_spec(ts)));
                },
            }
            t = t + 1;
        }
        assert(tabs.subrange(0, sheet.time_tables@.len() as int) =~= tabs);
        s = s + 1;
    }
    Ok(TdtsParseResult { timesheets, warnings })
}

/// Once the outcomes so far fail, every longer list of outcomes fails the same way.
proof fn lemma_combine_err_prefix(a: Seq<TableOutcome>, b: Seq<TableOutcome>)
    requires
        combine(a) is Err,
    ensures
        combine(a + b) == combine(a),
    decreases b.len(),
{
    if b.len() > 0 {
        lemma_combine_err_prefix(a, b.drop_last());
        assert((a + b).drop_last() =~= a + b.drop_last());
    } else {
        assert(a + b =~= a);
    }
}

proof fn lemma_combine_err_extends(os: Seq<TableOutcome>, sheets: Seq<TdtsTimeSheet>, file_name: Seq<char>, s: nat, t: nat)
    requires
        s < sheets.len(),
        t < sheets[s as int].time_tables@.len(),
        os == outcomes(sheets, file_name, s) + Seq::new(sheets[s as int].time_tables@.len(), |i: int|
            table_outcome(sheets[s as int].time_tables@[i], file_name, sheets[s as int].header.cut@)).subrange(0, (t + 1) as int),
        combine(os) is Err,
    ensures
        combine(outcomes(sheets, file_name, sheets.len())) == combine(os),
    decreases sheets.len() - s,
{
    let tabs = Seq::new(sheets[s as int].time_tables@.len(), |i: int|
        table_outcome(sheets[s as int].time_tables@[i], file_name, sheets[s as int].header.cut@));
    let full = outcomes(sheets, file_name, (s + 1) as nat);
    assert(full == outcomes(sheets, file_name, s) + tabs);
    assert(full =~= os + tabs.subrange((t + 1) as int, tabs.len() as int));
    lemma_combine_err_prefix(os, tabs.subrange((t + 1) as int, tabs.len() as int));
    lemma_outcomes_err_extends(sheets, file_name, (s + 1) as nat);
}

proof fn lemma_outcomes_err_extends(sheets: Seq<TdtsTimeSheet>, file_name: Seq<char>, s: nat)
    requires
        s <= sheets.len(),
        combine(outcomes(sheets, file_name, s)) is Err,
    ensures
        combine(outcomes(sheets, file_name, sheets.len())) == combine(outcomes(sheets, file_name, s)),
    decreases sheets.len() - s,
{
    if s < sheets.len() {
        let tabs = Seq::new(sheets[s as int].time_tables@.len(), |i: int|
            table_outcome(sheets[s as int].time_tables@[i], file_name, sheets[s as int].header.cut@));
        lemma_combine_err_prefix(outcomes(sheets, file_name, s), tabs);
        lemma_outcomes_err_extends(sheets, file_name, (s + 1) as nat);
    }
}

} // verus!
