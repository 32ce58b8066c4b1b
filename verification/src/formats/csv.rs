//! The CSV timesheet format: a layer-name row, then one row per frame.
//!
//! Value rules:
//! - a number sets the cell to that number;
//! - an empty field (or one that is not a number) holds the layer's previous value;
//! - "×" empties the cell, and later empty fields keep it empty.

use vstd::prelude::*;
use crate::encoding::{TextEncoding, decode_bytes, encoding_decode};
use crate::limits::{MAX_FRAMES, MAX_LAYERS};
use crate::text::{trimmed, trim_chars, str_chars, parse_u32, parse_u32_spec};
use crate::timesheet::{CellValue, TimeSheet};

verus! {

/// The outside `csv` crate's error type.
#[verifier::external_type_specification]
#[verifier::external_body]
pub struct ExCsvError(csv::Error);

/// Why a CSV timesheet could not be read.
#[derive(Debug, Clone, Copy, PartialEq, Eq, Structural)]
pub enum CsvError {
    /// The text is not well-formed CSV (or its records differ in length)
    Malformed,
    /// Fewer than two rows after the header row
    TooFewRows,
    /// No layer column
    NoLayers,
    /// More layers than allowed
    TooManyLayers(usize),
    /// More frames than allowed
    TooManyFrames(usize),
}

/// The text of `bytes` decoded as UTF-8, else GBK, else Shift-JIS (the first that decodes
/// without error), else UTF-8 with replacement characters.
pub open spec fn fallback_decoded(bytes: Seq<u8>) -> Seq<char> {
    if !encoding_decode(TextEncoding::Utf8, bytes).1 {
        encoding_decode(TextEncoding::Utf8, bytes).0
    } else if !encoding_decode(TextEncoding::Gbk, bytes).1 {
        encoding_decode(TextEncoding::Gbk, bytes).0
    } else if !encoding_decode(TextEncoding::ShiftJis, bytes).1 {
        encoding_decode(TextEncoding::ShiftJis, bytes).0
    } else {
        encoding_decode(TextEncoding::Utf8, bytes).0
    }
}

/// Decodes bytes trying UTF-8, GBK and Shift-JIS in turn.
pub fn decode_with_fallback(bytes: &[u8]) -> (s: String)
    ensures
        s@ == fallback_decoded(bytes@),
{
    let (text, had_errors) = decode_bytes(TextEncoding::Utf8, bytes);
    if !had_errors {
        return text;
    }
    let (text, had_errors) = decode_bytes(TextEncoding::Gbk, bytes);
    if !had_errors {
        return text;
    }
    let (text, had_errors) = decode_bytes(TextEncoding::ShiftJis, bytes);
    if !had_errors {
        return text;
    }
    let (text, _) = decode_bytes(TextEncoding::Utf8, bytes);
    text
}

/// What a `csv::Reader` (default settings: a header row, commas, double quotes, equal
/// record lengths) reads from `text`: the fields of every record after the header row,
/// or `None` when it reports an error.
pub uninterp spec fn csv_records(text: Seq<char>) -> Option<Seq<Seq<Seq<char>>>>;

/// The views of rows of strings.
pub open spec fn rows_view(rows: Seq<Vec<String>>) -> Seq<Seq<Seq<char>>> {
    Seq::new(rows.len(), |i: int| Seq::new(rows[i]@.len(), |j: int| rows[i]@[j]@))
}

/// Calls `csv::Reader::from_reader` on the text and collects `records()`; the contract
/// claims only that the fields are what that reader yields (`None` for its error).
#[verifier::external_body]
fn read_csv_records(text: &str) -> (r: Result<Vec<Vec<String>>, csv::Error>)
    ensures
        match r {
            Ok(rows) => csv_records(text@) == Some(rows_view(rows@)),
            Err(_) => csv_records(text@) is None,
        },
{
    let mut reader = csv::Reader::from_reader(text.as_bytes());
    reader.records().map(|rec| rec.map(|fields| fields.iter().map(|f| f.to_string()).collect())).collect()
}

/// The cross that marks an empty cell.
pub open spec fn cross() -> Seq<char> {
    seq!['\u{00D7}']
}

/// Field `c` of a row, empty when the row is shorter.
pub open spec fn field_or_empty(row: Seq<Seq<char>>, c: int) -> Seq<char> {
    if 0 <= c < row.len() { row[c] } else { Seq::empty() }
}

/// The value of layer `l` at frame `f` of the data rows `data`.
pub open spec fn held_cell(data: Seq<Seq<Seq<char>>>, l: int, f: int) -> Option<CellValue>
    decreases f + 1,
{
    if f < 0 {
        None
    } else {
        let tok = trimmed(field_or_empty(data[f], l + 1));
        let prev = held_cell(data, l, f - 1);
        if tok == cross() {
            None
        } else if tok.len() == 0 {
            prev
        } else {
            match parse_u32_spec(tok) {
                Some(n) => Some(CellValue::Number(n)),
                None => prev,
            }
        }
    }
}

/// What reading the CSV records `recs` gives: the layer count, names and cells, or the error.
pub open spec fn csv_sheet(recs: Seq<Seq<Seq<char>>>) -> Result<(nat, Seq<Seq<char>>, Seq<Seq<Option<CellValue>>>), CsvError> {
    if recs.len() < 2 {
        Err(CsvError::TooFewRows)
    } else {
        let layers = if recs[0].len() > 0 { (recs[0].len() - 1) as nat } else { 0 };
        let frames = (recs.len() - 1) as nat;
        let data = recs.subrange(1, recs.len() as int);
        if layers == 0 {
            Err(CsvError::NoLayers)
        } else if layers > MAX_LAYERS {
            Err(CsvError::TooManyLayers(layers as usize))
        } else if frames > MAX_FRAMES {
            Err(CsvError::TooManyFrames(frames as usize))
        } else {
            Ok((layers, Seq::new(layers, |i: int| recs[0][i + 1]),
                Seq::new(layers, |l: int| Seq::new(frames, |f: int| held_cell(data, l, f)))))
        }
    }
}

/// Reading CSV records: layer `l` takes column `l + 1`, its name from the first record and
/// its cell at frame `f` from record `f + 1`, whose trimmed field is read as follows: "×"
/// empties the cell; a number is that drawing; an empty (or unreadable) field holds the cell
/// of the frame before, however many such fields follow (nothing at the first frame).
pub proof fn lemma_csv_cells(recs: Seq<Seq<Seq<char>>>, l: int, f: int)
    requires
        csv_sheet(recs) is Ok,
        0 <= l < csv_sheet(recs)->Ok_0.0,
        0 <= f < recs.len() - 1,
    ensures
        ({
            let (layers, names, grid) = csv_sheet(recs)->Ok_0;
            let tok = trimmed(field_or_empty(recs[f + 1], l + 1));
            let before = if f == 0 { None } else { grid[l][f - 1] };
            &&& layers == recs[0].len() - 1
            &&& names.len() == layers && names[l] == recs[0][l + 1]
            &&& grid.len() == layers && grid[l].len() == recs.len() - 1
            &&& grid[l][f] == (if tok == cross() {
                    None
                } else if tok.len() > 0 && parse_u32_spec(tok) is Some {
                    Some(CellValue::Number(parse_u32_spec(tok)->Some_0))
                } else {
                    before
                })
        }),
{
    let data = recs.subrange(1, recs.len() as int);
    assert(data[f] == recs[f + 1]);
    if f > 0 {
        assert(held_cell(data, l, f - 1) == csv_sheet(recs)->Ok_0.2[l][f - 1]);
    }
}

/// Reading CSV records fails with too few rows below two records, with no layers when the
/// first record has no column after the frame column, and with too many layers or frames
/// past the limits; otherwise it gives one layer per column after the first and one frame
/// per record after the first.
pub proof fn lemma_csv_outcome(recs: Seq<Seq<Seq<char>>>)
    ensures
        recs.len() < 2 ==> csv_sheet(recs) == Err::<(nat, Seq<Seq<char>>, Seq<Seq<Option<CellValue>>>), CsvError>(CsvError::TooFewRows),
        recs.len() >= 2 && recs[0].len() <= 1 ==> csv_sheet(recs) == Err::<(nat, Seq<Seq<char>>, Seq<Seq<Option<CellValue>>>), CsvError>(CsvError::NoLayers),
        recs.len() >= 2 && recs[0].len() > 1 && recs[0].len() - 1 > MAX_LAYERS
            ==> csv_sheet(recs) == Err::<(nat, Seq<Seq<char>>, Seq<Seq<Option<CellValue>>>), CsvError>(CsvError::TooManyLayers((recs[0].len() - 1) as usize)),
        recs.len() >= 2 && 1 < recs[0].len() <= MAX_LAYERS + 1 && recs.len() - 1 > MAX_FRAMES
            ==> csv_sheet(recs) == Err::<(nat, Seq<Seq<char>>, Seq<Seq<Option<CellValue>>>), CsvError>(CsvError::TooManyFrames((recs.len() - 1) as usize)),
        recs.len() >= 2 && 1 < recs[0].len() <= MAX_LAYERS + 1 && recs.len() - 1 <= MAX_FRAMES ==> (csv_sheet(recs) matches Ok((layers, names, grid))
            && layers == recs[0].len() - 1 && grid.len() == layers
            && forall|l: int| 0 <= l < layers ==> (#[trigger] grid[l]).len() == recs.len() - 1),
{
}

fn cell_token(row: &Vec<String>, col: usize) -> (t: Vec<char>)
    ensures
        t@ == trimmed(field_or_empty(Seq::new(row@.len(), |j: int| row@[j]@), col as int)),
{
    let raw: Vec<char> = if col < row.len() { str_chars(row[col].as_str()) } else { Vec::new() };
    trim_chars(&raw)
}

fn is_cross(t: &Vec<char>) -> (b: bool)
    ensures
        b == (t@ == cross()),
{
    let r = t.len() == 1 && t[0] == '\u{00D7}';
    assert(r ==> t@ =~= cross());
    r
}

/// Builds the timesheet of CSV records (the fields of every record after the header row):
/// the first record names the layers (its first column is the frame column), every later
/// record is a frame.
pub fn csv_records_to_timesheet(records: &Vec<Vec<String>>, file_name: &str) -> (r: Result<TimeSheet, CsvError>)
    ensures
        match r {
            Ok(ts) => {
                &&& csv_sheet(rows_view(records@)) matches Ok((layers, names, grid))
                &&& ts.wf()
                &&& ts.name@ == file_name@
                &&& ts.framerate == 24
                &&& ts.frames_per_page == 144
                &&& ts.layer_count == layers
                &&& ts.names() == names
                &&& ts.grid() == grid
                &&& ts.source_width == 640
                &&& ts.source_height == 480
            },
            Err(e) => csv_sheet(rows_view(records@)) == Err::<(nat, Seq<Seq<char>>, Seq<Seq<Option<CellValue>>>), CsvError>(e),
        },
{
    let ghost recs = rows_view(records@);
    if records.len() < 2 {
        return Err(CsvError::TooFewRows);
    }
    let header = &records[0];
    let layer_count = if header.len() > 0 { header.len() - 1 } else { 0 };
    let frame_count = records.len() - 1;
    if layer_count == 0 {
        return Err(CsvError::NoLayers);
    }
    if layer_count > MAX_LAYERS {
        return Err(CsvError::TooManyLayers(layer_count));
    }
    if frame_count > MAX_FRAMES {
        return Err(CsvError::TooManyFrames(frame_count));
    }
    let ghost data = recs.subrange(1, recs.len() as int);

    let mut names: Vec<String> = Vec::new();
    let mut i: usize = 0;
    while i < layer_count
        invariant
            recs == rows_view(records@),
            records@.len() >= 2,
            *header == records@[0],
            layer_count + 1 == header@.len(),
            i <= layer_count,
            names@.len() == i,
            forall|j: int| 0 <= j < i ==> #[trigger] names@[j]@ == recs[0][j + 1],
        decreases layer_count - i,
    {
        names.push(header[i + 1].clone());
        i = i + 1;
    }

    let mut cells: Vec<Vec<Option<CellValue>>> = Vec::new();
    let mut l: usize = 0;
    while l < layer_count
        invariant
            recs == rows_view(records@),
            data == recs.subrange(1, recs.len() as int),
            frame_count + 1 == records@.len(),
            l <= layer_count,
            cells@.len() == l,
            forall|j: int| 0 <= j < l ==> #[trigger] cells@[j]@ == Seq::new(frame_count as nat, |f: int| held_cell(data, j, f)),
        decreases layer_count - l,
    {
        let mut row: Vec<Option<CellValue>> = Vec::new();
        let mut last: Option<CellValue> = None;
        let mut f: usize = 0;
        while f < frame_count
            invariant
                recs == rows_view(records@),
                data == recs.subrange(1, recs.len() as int),
                frame_count + 1 == records@.len(),
                l < layer_count,
                f <= frame_count,
                row@.len() == f,
                last == held_cell(data, l as int, f - 1),
                forall|j: int| 0 <= j < f ==> #[trigger] row@[j] == held_cell(data, l as int, j),
            decreases frame_count - f,
        {
            let tok = cell_token(&records[f + 1], l + 1);
            assert(data[f as int] == recs[f + 1]);
            let value = if is_cross(&tok) {
                None
            } else if tok.len() == 0 {
                last
            } else {
                match parse_u32(&tok) {
                    Some(n) => Some(CellValue::Number(n)),
                    None => last,
                }
            };
            last = value;
            row.push(value);
            f = f + 1;
        }
        assert(row@ =~= Seq::new(frame_count as nat, |f: int| held_cell(data, l as int, f)));
        cells.push(row);
        l = l + 1;
    }
    let ts = TimeSheet {
        name: crate::text::string_from_chars(&str_chars(file_name)),
        framerate: 24,
        frames_per_page: 144,
        layer_count,
        layer_names: names,
        cells,
        source_width: 640,
        source_height: 480,
    };
    assert(ts.names() =~= Seq::new(layer_count as nat, |i: int| recs[0][i + 1]));
    assert(ts.grid() =~= Seq::new(layer_count as nat, |l: int| Seq::new(frame_count as nat, |f: int| held_cell(data, l, f))));
    Ok(ts)
}

/// Reads a timesheet from CSV text: the records that the `csv` reader yields, built into a
/// sheet by `csv_records_to_timesheet`.
pub fn parse_csv_text(content: &str, file_name: &str) -> (r: Result<TimeSheet, CsvError>)
    ensures
        match r {
            Ok(ts) => {
                &&& csv_records(content@) matches Some(recs)
                &&& csv_sheet(recs) matches Ok((layers, names, grid))
                &&& ts.wf()
                &&& ts.name@ == file_name@
                &&& ts.framerate == 24
                &&& ts.frames_per_page == 144
                &&& ts.layer_count == layers
                &&& ts.names() == names
                &&& ts.grid() == grid
                &&& ts.source_width == 640
                &&& ts.source_height == 480
            },
            Err(e) => match csv_records(content@) {
                None => e == CsvError::Malformed,
                Some(recs) => csv_sheet(recs) == Err::<(nat, Seq<Seq<char>>, Seq<Seq<Option<CellValue>>>), CsvError>(e),
            },
        },
{
    match read_csv_records(content) {
        Ok(records) => csv_records_to_timesheet(&records, file_name),
        Err(_) => Err(CsvError::Malformed),
    }
}

/// Reads a timesheet from the bytes of a CSV file, decoding them as UTF-8, GBK or Shift-JIS.
pub fn parse_csv_bytes(bytes: &[u8], file_name: &str) -> (r: Result<TimeSheet, CsvError>)
    ensures
        match r {
            Ok(ts) => {
                &&& csv_records(fallback_decoded(bytes@)) matches Some(recs)
                &&& csv_sheet(recs) matches Ok((layers, names, grid))
                &&& ts.wf()
                &&& ts.name@ == file_name@
                &&& ts.framerate == 24
                &&& ts.frames_per_page == 144
                &&& ts.layer_count == layers
                &&& ts.names() == names
                &&& ts.grid() == grid
            },
            Err(e) => match csv_records(fallback_decoded(bytes@)) {
                None => e == CsvError::Malformed,
                Some(recs) => csv_sheet(recs) == Err::<(nat, Seq<Seq<char>>, Seq<Seq<Option<CellValue>>>), CsvError>(e),
            },
        },
{
    let content = decode_with_fallback(bytes);
    parse_csv_text(content.as_str(), file_name)
}

} // verus!
