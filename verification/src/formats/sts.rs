//! The native STS (ShiraheiTimeSheet) binary format.
//!
//! Layout:
//! 1. a 23-byte header: `0x11`, "ShiraheiTimeSheet", the layer count (1 byte),
//!    the frame count (2 bytes, little-endian) and 2 bytes of padding;
//! 2. the frame data: layer_count × frame_count little-endian 16-bit words, layer by layer;
//! 3. the layer names: for each layer a length byte and that many Shift-JIS bytes.

use vstd::prelude::*;
use crate::encoding::{TextEncoding, decode_bytes, encode_text, encoding_decode, encoding_encode, is_valid_utf8};
use crate::text::{decimal_digits, push_decimal, string_from_chars};
use crate::timesheet::{CellValue, TimeSheet};

verus! {

/// Why an STS file could not be read or written.
#[derive(Debug, Clone, Copy, PartialEq, Eq, Structural)]
pub enum StsError {
    /// Fewer than 23 bytes
    TooSmall,
    /// The first byte is not 0x11
    InvalidSignature,
    /// The header string is not valid UTF-8
    InvalidHeaderString,
    /// The header string is not "ShiraheiTimeSheet"
    NotShiraheiTimeSheet,
    /// The layer count or the frame count is 0
    EmptyLayersOrFrames,
    /// The frame data is cut short
    IncompleteFrameData,
    /// More than 255 layers (writing)
    TooManyLayers(usize),
    /// More than 65535 frames (writing)
    TooManyFrames(usize),
}

/// The bytes of "ShiraheiTimeSheet".
pub open spec fn sts_magic() -> Seq<u8> {
    seq![0x53u8, 0x68, 0x69, 0x72, 0x61, 0x68, 0x65, 0x69, 0x54, 0x69, 0x6d, 0x65, 0x53, 0x68, 0x65, 0x65, 0x74]
}

/// The layer count in the header.
pub open spec fn sts_layers(b: Seq<u8>) -> nat {
    b[18] as nat
}

/// The frame count in the header.
pub open spec fn sts_frames(b: Seq<u8>) -> nat {
    b[19] as nat + 256 * (b[20] as nat)
}

/// Where the frame data ends and the layer names begin.
pub open spec fn sts_data_end(b: Seq<u8>) -> int {
    23 + 2 * ((sts_layers(b) * sts_frames(b)) as int)
}

/// The error that reading `b` gives, or `None` when `b` is an STS file.
pub open spec fn sts_error(b: Seq<u8>) -> Option<StsError> {
    if b.len() < 23 {
        Some(StsError::TooSmall)
    } else if b[0] != 0x11 {
        Some(StsError::InvalidSignature)
    } else if !vstd::utf8::valid_utf8(b.subrange(1, 18)) {
        Some(StsError::InvalidHeaderString)
    } else if b.subrange(1, 18) != sts_magic() {
        Some(StsError::NotShiraheiTimeSheet)
    } else if sts_layers(b) == 0 || sts_frames(b) == 0 {
        Some(StsError::EmptyLayersOrFrames)
    } else if b.len() < sts_data_end(b) {
        Some(StsError::IncompleteFrameData)
    } else {
        None
    }
}

/// The little-endian 16-bit word at `off`.
pub open spec fn le_word(b: Seq<u8>, off: int) -> nat {
    b[off] as nat + 256 * (b[off + 1] as nat)
}

/// A stored word as a cell: 0 is an empty cell, anything else a number.
pub open spec fn word_cell(w: nat) -> Option<CellValue> {
    if w > 0 { Some(CellValue::Number(w as u32)) } else { None }
}

/// Where the word of (`l`, `f`) lies in a file with `frames` frames per layer.
pub open spec fn cell_offset(frames: nat, l: int, f: int) -> int {
    23 + 2 * (l * frames + f)
}

/// The cells that the frame data of `b` holds.
pub open spec fn sts_grid(b: Seq<u8>) -> Seq<Seq<Option<CellValue>>> {
    Seq::new(sts_layers(b), |l: int| Seq::new(sts_frames(b), |f: int|
        word_cell(le_word(b, cell_offset(sts_frames(b), l, f)))))
}

/// The name given to layer `i` (0-based) when the file has none for it: "Layer" and `i + 1`.
pub open spec fn default_layer_name(i: nat) -> Seq<char> {
    seq!['L', 'a', 'y', 'e', 'r'] + decimal_digits(i + 1)
}

/// Default names for layers `i .. count`.
pub open spec fn default_layer_names(i: nat, count: nat) -> Seq<Seq<char>> {
    Seq::new((count - i) as nat, |k: int| default_layer_name((i + k) as nat))
}

/// The names of layers `i .. count`, read from `pos` on: a length byte and that many
/// Shift-JIS bytes each; once the data runs out, every remaining layer gets its default name.
pub open spec fn sts_name_entries(b: Seq<u8>, pos: int, i: nat, count: nat) -> Seq<Seq<char>>
    decreases count - i,
{
    if i >= count {
        Seq::empty()
    } else if pos < 0 || pos >= b.len() || pos + 1 + b[pos] > b.len() {
        default_layer_names(i, count)
    } else {
        seq![encoding_decode(TextEncoding::ShiftJis, b.subrange(pos + 1, pos + 1 + b[pos])).0]
            + sts_name_entries(b, pos + 1 + b[pos], i + 1, count)
    }
}

/// The layer names that `b` holds.
pub open spec fn sts_names(b: Seq<u8>) -> Seq<Seq<char>> {
    sts_name_entries(b, sts_data_end(b), 0, sts_layers(b))
}

/// The bytes of "ShiraheiTimeSheet".
fn magic_bytes() -> (v: Vec<u8>)
    ensures
        v@ == sts_magic(),
{
    let v: Vec<u8> = vec![0x53u8, 0x68, 0x69, 0x72, 0x61, 0x68, 0x65, 0x69, 0x54, 0x69, 0x6d, 0x65, 0x53, 0x68, 0x65, 0x65, 0x74];
    assert(v@ =~= sts_magic());
    v
}

/// "Layer" followed by `i + 1`.
fn default_name(i: usize) -> (s: String)
    requires
        i < u64::MAX,
    ensures
        s@ == default_layer_name(i as nat),
{
    let mut v: Vec<char> = vec!['L', 'a', 'y', 'e', 'r'];
    push_decimal(&mut v, (i as u64) + 1);
    assert(v@ =~= default_layer_name(i as nat));
    string_from_chars(&v)
}

proof fn lemma_cell_offset_bound(layers: nat, frames: nat, l: int, f: int)
    requires
        0 <= l < layers,
        0 <= f < frames,
    ensures
        0 <= l * frames + f < layers * frames,
        cell_offset(frames, l, f) + 1 < 23 + 2 * (layers * frames),
{
    assert(0 <= l * frames) by (nonlinear_arith)
        requires 0 <= l, 0 <= frames;
    assert((l + 1) * frames <= layers * frames) by (nonlinear_arith)
        requires 0 <= l < layers, 0 <= frames;
    assert((l + 1) * frames == l * frames + frames) by (nonlinear_arith);
}

/// Reads an STS file from its bytes; the sheet is named `sheet_name`, runs at 24 fps
/// and shows 144 frames per page.
pub fn parse_sts_bytes(buffer: &[u8], sheet_name: String) -> (r: Result<TimeSheet, StsError>)
    ensures
        match r {
            Ok(ts) => {
                &&& sts_error(buffer@) is None
                &&& ts.wf()
                &&& ts.name@ == sheet_name@
                &&& ts.framerate == 24
                &&& ts.frames_per_page == 144
                &&& ts.layer_count == sts_layers(buffer@)
                &&& ts.grid() == sts_grid(buffer@)
                &&& ts.names() == sts_names(buffer@)
                &&& ts.source_width == 640
                &&& ts.source_height == 480
            },
            Err(e) => sts_error(buffer@) == Some(e),
        },
{
    let ghost b = buffer@;
    if buffer.len() < 23 {
        return Err(StsError::TooSmall);
    }
    if buffer[0] != 0x11 {
        return Err(StsError::InvalidSignature);
    }
    let header = &buffer[1..18];
    if !is_valid_utf8(header) {
        return Err(StsError::InvalidHeaderString);
    }
    let magic = magic_bytes();
    let mut k: usize = 0;
    while k < 17
        invariant
            b == buffer@,
            b.len() >= 23,
            b[0] == 0x11,
            vstd::utf8::valid_utf8(b.subrange(1, 18)),
            header@ == b.subrange(1, 18),
            magic@ == sts_magic(),
            k <= 17,
            forall|j: int| 0 <= j < k ==> header@[j] == magic@[j],
        decreases 17 - k,
    {
        if header[k] != magic[k] {
            assert(header@[k as int] != sts_magic()[k as int]);
            return Err(StsError::NotShiraheiTimeSheet);
        }
        k = k + 1;
    }
    assert(b.subrange(1, 18) =~= sts_magic());

    let layer_count = buffer[18] as usize;
    let frame_count = buffer[19] as usize + 256 * (buffer[20] as usize);
    if layer_count == 0 || frame_count == 0 {
        return Err(StsError::EmptyLayersOrFrames);
    }
    assert(layer_count * frame_count <= 255 * 65535) by (nonlinear_arith)
        requires layer_count <= 255, frame_count <= 65535;
    let frame_data_end = 23 + 2 * (layer_count * frame_count);
    if buffer.len() < frame_data_end {
        return Err(StsError::IncompleteFrameData);
    }
    assert(sts_error(b) is None);

    // Frame data
    let mut cells: Vec<Vec<Option<CellValue>>> = Vec::new();
    let mut l: usize = 0;
    while l < layer_count
        invariant
            b == buffer@,
            layer_count == sts_layers(b),
            frame_count == sts_frames(b),
            frame_data_end == sts_data_end(b),
            frame_data_end <= buffer.len(),
            l <= layer_count,
            cells@.len() == l,
            forall|i: int| 0 <= i < l ==> #[trigger] cells@[i]@ == sts_grid(b)[i],
        decreases layer_count - l,
    {
        let mut row: Vec<Option<CellValue>> = Vec::new();
        let mut f: usize = 0;
        while f < frame_count
            invariant
                b == buffer@,
                layer_count == sts_layers(b),
                frame_count == sts_frames(b),
                frame_data_end == sts_data_end(b),
                frame_data_end <= buffer.len(),
                l < layer_count,
                f <= frame_count,
                row@.len() == f,
                forall|j: int| 0 <= j < f ==> #[trigger] row@[j] == sts_grid(b)[l as int][j],
            decreases frame_count - f,
        {
            proof { lemma_cell_offset_bound(layer_count as nat, frame_count as nat, l as int, f as int); }
            let offset = 23 + (l * frame_count + f) * 2;
            let word = buffer[offset] as u32 + 256 * (buffer[offset + 1] as u32);
            assert(word == le_word(b, cell_offset(frame_count as nat, l as int, f as int)));
            if word > 0 {
                row.push(Some(CellValue::Number(word)));
            } else {
                row.push(None);
            }
            f = f + 1;
        }
        assert(row@ =~= sts_grid(b)[l as int]);
        cells.push(row);
        l = l + 1;
    }

    // Layer names
    let mut layer_names: Vec<String> = Vec::new();
    let mut pos: usize = frame_data_end;
    let mut i: usize = 0;
    while i < layer_count
        invariant
            b == buffer@,
            layer_count == sts_layers(b),
            i <= layer_count,
            layer_names@.len() == i,
            Seq::new(i as nat, |j: int| layer_names@[j]@) + sts_name_entries(b, pos as int, i as nat, layer_count as nat)
                == sts_names(b),
        ensures
            i <= layer_count,
            layer_names@.len() == i,
            Seq::new(i as nat, |j: int| layer_names@[j]@) + sts_name_entries(b, pos as int, i as nat, layer_count as nat)
                == sts_names(b),
            i < layer_count ==> sts_name_entries(b, pos as int, i as nat, layer_count as nat)
                == default_layer_names(i as nat, layer_count as nat),
        decreases layer_count - i,
    {
        if pos >= buffer.len() {
            break;
        }
        let name_len = buffer[pos] as usize;
        if name_len >= buffer.len() - pos {
            break;
        }
        let ghost before = Seq::new(i as nat, |j: int| layer_names@[j]@);
        let (name, _) = decode_bytes(TextEncoding::ShiftJis, &buffer[pos + 1..pos + 1 + name_len]);
        layer_names.push(name);
        assert(Seq::new((i + 1) as nat, |j: int| layer_names@[j]@) =~= before.push(name@));
        pos = pos + 1 + name_len;
        i = i + 1;
    }
    let ghost named = i;
    while i < layer_count
        invariant
            named <= i <= layer_count,
            layer_names@.len() == i,
            Seq::new(i as nat, |j: int| layer_names@[j]@) + default_layer_names(i as nat, layer_count as nat)
                == sts_names(b),
        decreases layer_count - i,
    {
        let ghost before = Seq::new(i as nat, |j: int| layer_names@[j]@);
        let name = default_name(i);
        layer_names.push(name);
        assert(Seq::new((i + 1) as nat, |j: int| layer_names@[j]@) =~= before.push(name@));
        assert(default_layer_names(i as nat, layer_count as nat)
            =~= seq![default_layer_name(i as nat)] + default_layer_names((i + 1) as nat, layer_count as nat));
        i = i + 1;
    }

    let ts = TimeSheet {
        name: sheet_name,
        framerate: 24,
        frames_per_page: 144,
        layer_count,
        layer_names,
        cells,
        source_width: 640,
        source_height: 480,
    };
    assert(ts.grid() =~= sts_grid(b));
    assert(ts.names() =~= sts_names(b));
    Ok(ts)
}

/// The 16-bit word stored for (`l`, `f`): the cell's actual value cut to 16 bits, 0 for none.
pub open spec fn cell_word(ts: TimeSheet, l: int, f: int) -> nat {
    match ts.actual_value(l, f) {
        Some(n) => (n as nat) % 65536,
        None => 0,
    }
}

/// Byte `k` of the frame data written for `ts` with `frames` frames per layer.
pub open spec fn sts_frame_byte(ts: TimeSheet, frames: nat, k: int) -> u8 {
    let w = cell_word(ts, (k / 2) / (frames as int), (k / 2) % (frames as int));
    if k % 2 == 0 { (w % 256) as u8 } else { (w / 256) as u8 }
}

/// A name's Shift-JIS bytes, cut to at most 255.
pub open spec fn name_bytes(name: Seq<char>) -> Seq<u8> {
    let e = encoding_encode(TextEncoding::ShiftJis, name);
    if e.len() > 255 { e.subrange(0, 255) } else { e }
}

/// A name as written: its length byte, then its bytes.
pub open spec fn name_field(name: Seq<char>) -> Seq<u8> {
    seq![name_bytes(name).len() as u8] + name_bytes(name)
}

/// The name fields of `names`, one after another.
pub open spec fn names_region(names: Seq<Seq<char>>) -> Seq<u8>
    decreases names.len(),
{
    if names.len() == 0 {
        Seq::empty()
    } else {
        names_region(names.drop_last()) + name_field(names.last())
    }
}

/// The 23-byte header for `layers` layers and `frames` frames.
pub open spec fn sts_header(layers: nat, frames: nat) -> Seq<u8> {
    seq![0x11u8] + sts_magic() + seq![layers as u8, (frames % 256) as u8, (frames / 256) as u8, 0u8, 0u8]
}

/// What writing `ts` as an STS file gives: the bytes, or why it cannot be written.
pub open spec fn sts_encoding(ts: TimeSheet) -> Result<Seq<u8>, StsError> {
    let layers = ts.layer_count as nat;
    let frames = ts.frames();
    if layers > 255 {
        Err(StsError::TooManyLayers(ts.layer_count))
    } else if frames > 65535 {
        Err(StsError::TooManyFrames(frames as usize))
    } else {
        Ok(sts_header(layers, frames)
            + Seq::new(2 * (layers * frames), |k: int| sts_frame_byte(ts, frames, k))
            + names_region(ts.names().subrange(0, layers as int)))
    }
}

proof fn lemma_frame_byte_index(ts: TimeSheet, frames: nat, l: int, f: int)
    requires
        frames > 0,
        l >= 0,
        0 <= f < frames,
    ensures
        sts_frame_byte(ts, frames, 2 * (l * frames + f)) == (cell_word(ts, l, f) % 256) as u8,
        sts_frame_byte(ts, frames, 2 * (l * frames + f) + 1) == (cell_word(ts, l, f) / 256) as u8,
{
    let i = l * frames + f;
    assert((2 * i) / 2 == i && (2 * i) % 2 == 0 && (2 * i + 1) / 2 == i && (2 * i + 1) % 2 == 1) by (nonlinear_arith)
        requires i == l * frames + f;
    vstd::arithmetic::div_mod::lemma_fundamental_div_mod_converse_div(i, frames as int, l, f);
    vstd::arithmetic::div_mod::lemma_fundamental_div_mod_converse_mod(i, frames as int, l, f);
}

/// Appends `src` to `out`.
fn push_all(out: &mut Vec<u8>, src: &[u8])
    ensures
        final(out)@ == old(out)@ + src@,
{
    let ghost o0 = out@;
    let mut i: usize = 0;
    while i < src.len()
        invariant
            i <= src@.len(),
            out@ == o0 + src@.subrange(0, i as int),
        decreases src.len() - i,
    {
        out.push(src[i]);
        i = i + 1;
        assert(out@ =~= o0 + src@.subrange(0, i as int));
    }
    assert(src@.subrange(0, src@.len() as int) =~= src@);
}

/// Writes `timesheet` as the bytes of an STS file. Each cell is stored as its actual value
/// cut to 16 bits (0 for an empty cell); names are stored in Shift-JIS, cut to 255 bytes.
pub fn encode_sts(timesheet: &TimeSheet) -> (r: Result<Vec<u8>, StsError>)
    requires
        timesheet.layer_count <= 255 && timesheet.frames() <= 65535 ==> timesheet.layer_names@.len() >= timesheet.layer_count,
    ensures
        match r {
            Ok(bytes) => sts_encoding(*timesheet) == Ok::<Seq<u8>, StsError>(bytes@),
            Err(e) => sts_encoding(*timesheet) == Err::<Seq<u8>, StsError>(e),
        },
{
    let layer_count = timesheet.layer_count;
    let frame_count = timesheet.total_frames();
    if layer_count > 255 {
        return Err(StsError::TooManyLayers(layer_count));
    }
    if frame_count > 65535 {
        return Err(StsError::TooManyFrames(frame_count));
    }
    let ghost layers = layer_count as nat;
    let ghost frames = frame_count as nat;

    let mut out: Vec<u8> = Vec::new();
    out.push(0x11);
    let magic = magic_bytes();
    push_all(&mut out, magic.as_slice());
    out.push(layer_count as u8);
    out.push((frame_count % 256) as u8);
    out.push((frame_count / 256) as u8);
    out.push(0);
    out.push(0);
    let ghost header = out@;
    assert(header =~= sts_header(layers, frames));

    // Frame data
    let mut l: usize = 0;
    while l < layer_count
        invariant
            layer_count == timesheet.layer_count,
            frame_count == timesheet.frames(),
            frames == frame_count as nat,
            layer_count <= 255,
            frame_count <= 65535,
            l <= layer_count,
            out@ == header + Seq::new(2 * ((l as nat) * frames), |k: int| sts_frame_byte(*timesheet, frames, k)),
        decreases layer_count - l,
    {
        let mut f: usize = 0;
        while f < frame_count
            invariant
                layer_count == timesheet.layer_count,
                frame_count == timesheet.frames(),
                frames == frame_count as nat,
                layer_count <= 255,
                frame_count <= 65535,
                l < layer_count,
                f <= frame_count,
                out@ == header + Seq::new(2 * ((l as nat) * frames + (f as nat)), |k: int| sts_frame_byte(*timesheet, frames, k)),
            decreases frame_count - f,
        {
            let w: u32 = match timesheet.get_actual_value(l, f) {
                Some(n) => n % 65536,
                None => 0,
            };
            let ghost before = out@;
            out.push((w % 256) as u8);
            out.push((w / 256) as u8);
            proof {
                lemma_frame_byte_index(*timesheet, frames, l as int, f as int);
                assert(w == cell_word(*timesheet, l as int, f as int));
                assert(out@ =~= header + Seq::new(2 * ((l as nat) * frames + (f as nat) + 1), |k: int| sts_frame_byte(*timesheet, frames, k)));
            }
            f = f + 1;
        }
        assert((l as nat) * frames + frames == ((l + 1) as nat) * frames) by (nonlinear_arith);
        l = l + 1;
    }
    let ghost data = Seq::new(2 * (layers * frames), |k: int| sts_frame_byte(*timesheet, frames, k));
    assert(out@ == header + data);

    // Layer names
    let mut i: usize = 0;
    while i < layer_count
        invariant
            layer_count == timesheet.layer_count,
            layer_count <= timesheet.layer_names@.len(),
            i <= layer_count,
            out@ == header + data + names_region(timesheet.names().subrange(0, i as int)),
        decreases layer_count - i,
    {
        let encoded = encode_text(TextEncoding::ShiftJis, timesheet.layer_names[i].as_str());
        let cut: &[u8] = if encoded.len() > 255 { &encoded.as_slice()[0..255] } else { encoded.as_slice() };
        assert(cut@ == name_bytes(timesheet.names()[i as int]));
        out.push(cut.len() as u8);
        push_all(&mut out, cut);
        proof {
            let ns = timesheet.names().subrange(0, i + 1);
            assert(ns.drop_last() =~= timesheet.names().subrange(0, i as int));
            assert(out@ =~= header + data + names_region(ns));
        }
        i = i + 1;
    }
    Ok(out)
}

proof fn lemma_ascii_valid_utf8(s: Seq<u8>)
    requires
        forall|i: int| 0 <= i < s.len() ==> #[trigger] s[i] < 0x80,
    ensures
        vstd::utf8::valid_utf8(s),
    decreases s.len(),
{
    if s.len() > 0 {
        let rest = vstd::utf8::pop_first_scalar(s);
        assert(rest =~= s.subrange(1, s.len() as int));
        assert forall|i: int| 0 <= i < rest.len() implies #[trigger] rest[i] < 0x80 by {
            assert(rest[i] == s[i + 1]);
        }
        lemma_ascii_valid_utf8(rest);
    }
}

proof fn lemma_region_prefix(ns: Seq<Seq<char>>, m: int, n: int)
    requires
        0 <= m <= n <= ns.len(),
    ensures
        names_region(ns.subrange(0, m)).len() <= names_region(ns.subrange(0, n)).len(),
        names_region(ns.subrange(0, n)).subrange(0, names_region(ns.subrange(0, m)).len() as int)
            == names_region(ns.subrange(0, m)),
    decreases n - m,
{
    if m < n {
        lemma_region_prefix(ns, m, n - 1);
        assert(ns.subrange(0, n).drop_last() =~= ns.subrange(0, n - 1));
        let a = names_region(ns.subrange(0, m));
        let b = names_region(ns.subrange(0, n - 1));
        let c = names_region(ns.subrange(0, n));
        assert(c == b + name_field(ns[n - 1]));
        assert(c.subrange(0, a.len() as int) =~= b.subrange(0, a.len() as int));
    } else {
        assert(names_region(ns.subrange(0, n)).subrange(0, names_region(ns.subrange(0, m)).len() as int)
            =~= names_region(ns.subrange(0, m)));
    }
}

proof fn lemma_name_entries_of_region(b: Seq<u8>, start: int, ns: Seq<Seq<char>>, j: nat)
    requires
        0 <= start,
        j <= ns.len(),
        b.len() == start + names_region(ns).len(),
        b.subrange(start, b.len() as int) == names_region(ns),
    ensures
        sts_name_entries(b, start + names_region(ns.subrange(0, j as int)).len(), j, ns.len())
            == Seq::new((ns.len() - j) as nat, |k: int| encoding_decode(TextEncoding::ShiftJis, name_bytes(ns[j + k])).0),
    decreases ns.len() - j,
{
    let want = Seq::new((ns.len() - j) as nat, |k: int| encoding_decode(TextEncoding::ShiftJis, name_bytes(ns[j + k])).0);
    if j < ns.len() {
        let pj = names_region(ns.subrange(0, j as int)).len() as int;
        let nb = name_bytes(ns[j as int]);
        lemma_region_prefix(ns, j as int, (j + 1) as int);
        lemma_region_prefix(ns, (j + 1) as int, ns.len() as int);
        assert(ns.subrange(0, ns.len() as int) =~= ns);
        assert(ns.subrange(0, (j + 1) as int).drop_last() =~= ns.subrange(0, j as int));
        let rj1 = names_region(ns.subrange(0, (j + 1) as int));
        assert(rj1 == names_region(ns.subrange(0, j as int)) + name_field(ns[j as int]));
        assert(rj1.len() == pj + 1 + nb.len());
        // the bytes of field j inside b
        assert(rj1[pj] == nb.len() as u8);
        assert(names_region(ns)[pj] == rj1[pj]);
        assert(b[start + pj] == names_region(ns)[pj]);
        assert(b[start + pj] as int == nb.len());
        assert(start + pj + 1 + nb.len() <= b.len());
        assert(b.subrange(start + pj + 1, start + pj + 1 + nb.len()) =~= nb) by {
            assert forall|k: int| 0 <= k < nb.len() implies
                b.subrange(start + pj + 1, start + pj + 1 + nb.len())[k] == nb[k] by {
                assert(rj1[pj + 1 + k] == nb[k]);
                assert(names_region(ns)[pj + 1 + k] == rj1[pj + 1 + k]);
                assert(b[start + pj + 1 + k] == names_region(ns)[pj + 1 + k]);
            }
        }
        lemma_name_entries_of_region(b, start, ns, j + 1);
        assert(sts_name_entries(b, start + pj, j, ns.len())
            == seq![encoding_decode(TextEncoding::ShiftJis, nb).0]
                + sts_name_entries(b, start + pj + 1 + nb.len(), j + 1, ns.len()));
        assert(sts_name_entries(b, start + pj, j, ns.len()) =~= want);
    } else {
        assert(sts_name_entries(b, start + names_region(ns.subrange(0, j as int)).len(), j, ns.len()) =~= want);
    }
}

/// Reading an STS file: the cell of layer `l` at frame `f` is the little-endian 16-bit word
/// stored at byte `23 + 2 * (l * frames + f)` (low byte first), where the header holds the
/// layer count at byte 18 and the frame count little-endian at bytes 19-20; a word of 0 is an
/// empty cell, any other word is that drawing number.
pub proof fn lemma_sts_cells_little_endian(b: Seq<u8>, l: int, f: int)
    requires
        sts_error(b) is None,
        0 <= l < b[18] as int,
        0 <= f < b[19] as int + 256 * (b[20] as int),
    ensures
        ({
            let frames = b[19] as int + 256 * (b[20] as int);
            let off = 23 + 2 * (l * frames + f);
            let w = b[off] as int + 256 * (b[off + 1] as int);
            &&& 0 <= off && off + 1 < b.len()
            &&& sts_grid(b).len() == b[18] as int
            &&& sts_grid(b)[l].len() == frames
            &&& sts_grid(b)[l][f] == (if w == 0 { None } else { Some(CellValue::Number(w as u32)) })
        }),
{
    lemma_cell_offset_bound(sts_layers(b), sts_frames(b), l, f);
}

/// Layer names of an STS file: they follow the frame data, each a length byte and that many
/// Shift-JIS bytes, so the first name is the decoding of the bytes after the length byte
/// at the end of the frame data; when the file ends with the frame data, layer `i` (from 0)
/// is named "Layer" followed by `i + 1`.
pub proof fn lemma_sts_names(b: Seq<u8>, i: int)
    requires
        sts_error(b) is None,
        0 <= i < b[18] as int,
    ensures
        ({
            let end = 23 + 2 * (b[18] as int) * (b[19] as int + 256 * (b[20] as int));
            &&& sts_names(b).len() == b[18] as int
            &&& b.len() == end ==> sts_names(b)[i] == seq!['L', 'a', 'y', 'e', 'r'] + decimal_digits((i + 1) as nat)
            &&& end < b.len() && end + 1 + b[end] <= b.len()
                ==> sts_names(b)[0] == encoding_decode(TextEncoding::ShiftJis, b.subrange(end + 1, end + 1 + b[end])).0
        }),
{
    let end = sts_data_end(b);
    assert(end == 23 + 2 * (b[18] as int) * (b[19] as int + 256 * (b[20] as int))) by (nonlinear_arith)
        requires end == 23 + 2 * ((b[18] as nat * (b[19] as nat + 256 * (b[20] as nat))) as int);
    lemma_name_entries_len(b, end, 0, sts_layers(b));
}

proof fn lemma_name_entries_len(b: Seq<u8>, pos: int, i: nat, count: nat)
    ensures
        sts_name_entries(b, pos, i, count).len() == if i < count { count - i } else { 0 },
    decreases count - i,
{
    if i < count && !(pos < 0 || pos >= b.len() || pos + 1 + b[pos] > b.len()) {
        lemma_name_entries_len(b, pos + 1 + b[pos], i + 1, count);
    }
}

/// Writing an STS file: the header holds the layer count at byte 18 and the frame count
/// little-endian at bytes 19-20, and the word of layer `l` at frame `f`, stored at byte
/// `23 + 2 * (l * frames + f)`, is the cell's actual value cut to 16 bits (0 for none) with
/// its low byte first.
pub proof fn lemma_sts_writes_little_endian(ts: TimeSheet, l: int, f: int)
    requires
        ts.layer_count <= 255,
        ts.frames() <= 65535,
        0 <= l < ts.layer_count,
        0 <= f < ts.frames(),
    ensures
        sts_encoding(ts) matches Ok(b) && {
            let frames = ts.frames() as int;
            let off = 23 + 2 * (l * frames + f);
            let v: int = match ts.actual_value(l, f) { Some(n) => n as int % 65536, None => 0 };
            &&& b[18] as int == ts.layer_count
            &&& b[19] as int == frames % 256
            &&& b[20] as int == frames / 256
            &&& 0 <= off && off + 1 < b.len()
            &&& b[off] as int == v % 256
            &&& b[off + 1] as int == v / 256
        },
{
    let layers = ts.layer_count as nat;
    let frames = ts.frames();
    let h = sts_header(layers, frames);
    let d = Seq::new(2 * (layers * frames), |k: int| sts_frame_byte(ts, frames, k));
    let r = names_region(ts.names().subrange(0, layers as int));
    let b = h + d + r;
    assert(sts_encoding(ts) == Ok::<Seq<u8>, StsError>(b));
    lemma_cell_offset_bound(layers, frames, l, f);
    lemma_frame_byte_index(ts, frames, l, f);
    let k = 2 * (l * frames + f);
    assert(b[23 + k] == d[k]);
    assert(b[23 + k + 1] == d[k + 1]);
    assert(b[18] == h[18]);
    assert(b[19] == h[19]);
    assert(b[20] == h[20]);
}

/// Reading back what writing produced gives the same sheet: as many layers and frames,
/// every cell holding the number that the written cell stood for (cut to 16 bits; 0 reads
/// as an empty cell), and every layer name decoded from its written Shift-JIS bytes.
pub proof fn lemma_sts_write_read(ts: TimeSheet)
    requires
        ts.layer_names@.len() >= ts.layer_count,
        1 <= ts.layer_count <= 255,
        1 <= ts.frames() <= 65535,
    ensures
        sts_encoding(ts) is Ok,
        sts_error(sts_encoding(ts)->Ok_0) is None,
        sts_layers(sts_encoding(ts)->Ok_0) == ts.layer_count,
        sts_frames(sts_encoding(ts)->Ok_0) == ts.frames(),
        sts_grid(sts_encoding(ts)->Ok_0) == Seq::new(ts.layer_count as nat, |l: int|
            Seq::new(ts.frames(), |f: int| word_cell(cell_word(ts, l, f)))),
        sts_names(sts_encoding(ts)->Ok_0) == Seq::new(ts.layer_count as nat, |l: int|
            encoding_decode(TextEncoding::ShiftJis, name_bytes(ts.names()[l])).0),
{
    let layers = ts.layer_count as nat;
    let frames = ts.frames();
    let h = sts_header(layers, frames);
    let d = Seq::new(2 * (layers * frames), |k: int| sts_frame_byte(ts, frames, k));
    let ns = ts.names().subrange(0, layers as int);
    let r = names_region(ns);
    let b = h + d + r;
    assert(sts_encoding(ts) == Ok::<Seq<u8>, StsError>(b));
    assert(b.len() >= 23);
    assert(b[0] == 0x11);
    assert(b.subrange(1, 18) =~= sts_magic());
    lemma_ascii_valid_utf8(sts_magic());
    assert(sts_layers(b) == layers);
    assert(sts_frames(b) == frames);
    assert(sts_data_end(b) == h.len() + d.len());
    assert(sts_error(b) is None);

    // cells
    assert forall|l: int, f: int| 0 <= l < layers && 0 <= f < frames implies
        #[trigger] word_cell(le_word(b, cell_offset(frames, l, f))) == word_cell(cell_word(ts, l, f)) by {
        lemma_cell_offset_bound(layers, frames, l, f);
        lemma_frame_byte_index(ts, frames, l, f);
        let k = 2 * (l * frames + f);
        assert(b[23 + k] == d[k]);
        assert(b[23 + k + 1] == d[k + 1]);
        let w = cell_word(ts, l, f);
        assert(w < 65536);
        assert(le_word(b, cell_offset(frames, l, f)) == w % 256 + 256 * (w / 256));
    }
    assert(sts_grid(b) =~= Seq::new(layers, |l: int| Seq::new(frames, |f: int| word_cell(cell_word(ts, l, f))))) by {
        assert forall|l: int| 0 <= l < layers implies
            #[trigger] sts_grid(b)[l] =~= Seq::new(frames, |f: int| word_cell(cell_word(ts, l, f))) by {
            assert forall|f: int| 0 <= f < frames implies
                sts_grid(b)[l][f] == word_cell(cell_word(ts, l, f)) by {
                assert(word_cell(le_word(b, cell_offset(frames, l, f))) == word_cell(cell_word(ts, l, f)));
            }
        }
    }

    // names
    let start = (h.len() + d.len()) as int;
    assert(b.subrange(start, b.len() as int) =~= r);
    assert(ns.subrange(0, 0) =~= Seq::<Seq<char>>::empty());
    assert(names_region(ns.subrange(0, 0)).len() == 0);
    lemma_name_entries_of_region(b, start, ns, 0);
    assert(sts_names(b) =~= Seq::new(layers, |l: int|
        encoding_decode(TextEncoding::ShiftJis, name_bytes(ts.names()[l])).0));
}

} // verus!
