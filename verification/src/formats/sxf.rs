//! The SXF timesheet format: the WBSC binary layout (sections of layer groups).

use vstd::prelude::*;
use crate::text::{trimmed, trim_chars, string_from_chars, str_chars, parse_u32, parse_u32_spec, decimal_digits,
    push_decimal, push_chars, chars_eq, lemma_flatten_new_step, lemma_trimmed_idempotent, lemma_trimmed_is_core, is_white};
use crate::timesheet::{CellValue, TimeSheet};

verus! {

/// A group of layers (one binary section).
pub struct LayerGroup {
    /// Group name
    pub name: String,
    /// The layers of the group
    pub layers: Vec<LayerData>,
}

/// One layer: its name and a value per frame (a digit, or empty before the first key drawing).
pub struct LayerData {
    /// Layer name
    pub name: String,
    /// Frame values
    pub frames: Vec<String>,
}

impl View for LayerData {
    type V = (Seq<char>, Seq<Seq<char>>);

    open spec fn view(&self) -> (Seq<char>, Seq<Seq<char>>) {
        (self.name@, Seq::new(self.frames@.len(), |i: int| self.frames@[i]@))
    }
}

impl View for LayerGroup {
    type V = (Seq<char>, Seq<(Seq<char>, Seq<Seq<char>>)>);

    open spec fn view(&self) -> (Seq<char>, Seq<(Seq<char>, Seq<Seq<char>>)>) {
        (self.name@, Seq::new(self.layers@.len(), |i: int| self.layers@[i]@))
    }
}

/// Why SXF data could not be read.
#[derive(Debug, Clone, Copy, PartialEq, Eq, Structural)]
pub enum SxfError {
    /// Reading two bytes at `offset` runs past `len`
    OffsetOutOfRange { offset: usize, len: usize },
    /// The 02 DB 00 01 marker holds an impossible name length
    InvalidShortNameLength(usize),
    /// Neither name length field is plausible
    InvalidNameLength,
    /// The name length field cannot be read
    CannotReadNameLength,
    /// The name runs past the section
    NameBeyondSection,
    /// The name is empty (after trimming)
    EmptyLayerName,
    /// The frame data would start past the section
    FrameDataBeyondSection,
    /// Not one whole 40-byte frame slot
    NoFrameData,
    /// The file has fewer than 20 bytes
    FileTooSmall(usize),
    /// The file does not start with "WBSC"
    InvalidMagic,
    /// Neither layer section was found
    NoLayerGroups,
    /// There are no groups to convert
    NoGroups,
    /// The groups hold no layer data
    NoLayerData,
}

/// The big-endian 16-bit word at `offset`, or the error of reading past the end.
pub open spec fn u16_be_at(data: Seq<u8>, offset: int) -> Result<u16, SxfError> {
    if offset + 2 > data.len() {
        Err(SxfError::OffsetOutOfRange { offset: offset as usize, len: data.len() as usize })
    } else {
        Ok((256 * (data[offset] as nat) + data[offset + 1] as nat) as u16)
    }
}

/// Reads a big-endian u16 at `offset`.
pub fn read_u16_be(data: &[u8], offset: usize) -> (r: Result<u16, SxfError>)
    ensures
        r == u16_be_at(data@, offset as int),
{
    if offset > data.len() || data.len() - offset < 2 {
        return Err(SxfError::OffsetOutOfRange { offset, len: data.len() });
    }
    Ok((256 * (data[offset] as u32) + data[offset + 1] as u32) as u16)
}

/// The size of one frame slot.
pub open spec fn frame_slot_size() -> nat {
    40
}

/// Whether the bytes at `pos` are the 02 DB 00 01 layer marker.
pub open spec fn short_marker_at(d: Seq<u8>, pos: int) -> bool {
    &&& pos + 4 < d.len()
    &&& d[pos] == 0x02
    &&& d[pos + 1] == 0xDB
    &&& d[pos + 2] == 0x00
    &&& d[pos + 3] == 0x01
}

/// Where the name of the layer at `pos` starts and how long it is.
pub open spec fn layer_name_span(d: Seq<u8>, pos: int) -> Result<(int, int), SxfError> {
    if short_marker_at(d, pos) {
        Ok((pos + 4, 1))
    } else {
        match u16_be_at(d, pos + 2) {
            Err(_) => Err(SxfError::CannotReadNameLength),
            Ok(len) => if 0 < len && len < 1000 {
                Ok((pos + 4, len as int))
            } else {
                match u16_be_at(d, pos + 6) {
                    Err(e) => Err(e),
                    Ok(alt) => if 0 < alt && alt < 1000 {
                        Ok((pos + 8, alt as int))
                    } else {
                        Err(SxfError::InvalidNameLength)
                    },
                }
            },
        }
    }
}

/// Whether `v` is a recognised frame mark: a digit, ○ (0x02), ● (0x04) or × (0x08).
pub open spec fn is_frame_mark(v: u8) -> bool {
    (0x30 <= v && v <= 0x39) || v == 0x02 || v == 0x04 || v == 0x08
}

/// The first frame mark (the byte after a 00 01 pair) within the slot starting at `s`,
/// looking at pairs that start at `s + i .. s + 38`.
pub open spec fn slot_mark_from(d: Seq<u8>, s: int, i: int) -> Option<u8>
    decreases 38 - i,
{
    if i >= 38 || i < 0 {
        None
    } else if d[s + i] == 0x00 && d[s + i + 1] == 0x01 && is_frame_mark(d[s + i + 2]) {
        Some(d[s + i + 2])
    } else {
        slot_mark_from(d, s, i + 1)
    }
}

/// The mark of frame slot `k` for frames starting at `start`.
pub open spec fn slot_mark(d: Seq<u8>, start: int, k: int) -> Option<u8> {
    slot_mark_from(d, start + 40 * k, 0)
}

/// The value held at frame slot `k`: the digit of the latest slot up to `k` marked with a
/// digit, or empty when there is none.
pub open spec fn held_value(d: Seq<u8>, start: int, k: int) -> Seq<char>
    decreases k + 1,
{
    if k < 0 {
        Seq::empty()
    } else {
        match slot_mark(d, start, k) {
            Some(v) if 0x30 <= v && v <= 0x39 => seq![v as char],
            _ => held_value(d, start, k - 1),
        }
    }
}

/// What `String::from_utf8_lossy` gives for `bytes`.
pub uninterp spec fn utf8_lossy(bytes: Seq<u8>) -> Seq<char>;

/// Calls `String::from_utf8_lossy`; the contract claims only that the text is what that
/// call returns (invalid sequences replaced by U+FFFD).
#[verifier::external_body]
fn lossy_utf8(bytes: &[u8]) -> (s: String)
    ensures
        s@ == utf8_lossy(bytes@),
{
    String::from_utf8_lossy(bytes).into_owned()
}

/// The layer that `parse_single_layer` reads at `pos`.
pub open spec fn single_layer(d: Seq<u8>, pos: int, total_frames: nat) -> Result<(Seq<char>, Seq<Seq<char>>), SxfError> {
    match layer_name_span(d, pos) {
        Err(e) => Err(e),
        Ok((off, len)) => if off + len > d.len() {
            Err(SxfError::NameBeyondSection)
        } else {
            layer_after_name(d, utf8_lossy(d.subrange(off, off + len)), off + len, total_frames)
        },
    }
}

/// The layer with decoded name text `raw` whose frame slots start at `start`: the name
/// trimmed, then one value per frame (see `held_value`), padded to `total_frames`.
pub open spec fn layer_after_name(d: Seq<u8>, raw: Seq<char>, start: int, total_frames: nat) -> Result<(Seq<char>, Seq<Seq<char>>), SxfError> {
            let name = trimmed(raw);
            if name.len() == 0 {
                Err(SxfError::EmptyLayerName)
            } else if start >= d.len() {
                Err(SxfError::FrameDataBeyondSection)
            } else {
                let avail = ((d.len() - start) / 40) as nat;
                let max_frames = if avail < total_frames { avail } else { total_frames };
                if max_frames == 0 {
                    Err(SxfError::NoFrameData)
                } else {
                    Ok((name, Seq::new(total_frames, |k: int|
                        held_value(d, start, if k < max_frames { k } else { max_frames - 1 }))))
                }
            }
}

/// The value held at a slot is empty or one ASCII digit.
proof fn lemma_held_value_digit(d: Seq<u8>, start: int, k: int)
    ensures
        held_value(d, start, k).len() == 0 || (held_value(d, start, k).len() == 1
            && 0x30 <= (held_value(d, start, k)[0] as u32) <= 0x39),
    decreases k + 1,
{
    if k >= 0 {
        match slot_mark(d, start, k) {
            Some(v) if 0x30 <= v && v <= 0x39 => {
                assert((v as char) as u32 == v as u32);
            },
            _ => lemma_held_value_digit(d, start, k - 1),
        }
    }
}

/// Once a slot holds a digit, every later slot holds one.
proof fn lemma_held_value_stays(d: Seq<u8>, start: int, i: int, j: int)
    requires
        i <= j,
        held_value(d, start, i).len() > 0,
    ensures
        held_value(d, start, j).len() > 0,
    decreases j - i,
{
    if i < j {
        lemma_held_value_stays(d, start, i, j - 1);
        assert(j >= 0);
        match slot_mark(d, start, j) {
            Some(v) if 0x30 <= v && v <= 0x39 => {},
            _ => {},
        }
    }
}

/// A layer that reads has a non-empty name with no white space at either end, and one
/// value per frame, each empty or one ASCII digit; values are empty only before the first
/// digit, and a digit from then on.
pub proof fn lemma_single_layer_shape(d: Seq<u8>, pos: int, total_frames: nat)
    ensures
        single_layer(d, pos, total_frames) matches Ok((name, frames)) ==> {
            &&& name.len() > 0
            &&& trimmed(name) == name
            &&& frames.len() == total_frames
            &&& forall|k: int| 0 <= k < frames.len() ==> (#[trigger] frames[k]).len() == 0
                || (frames[k].len() == 1 && 0x30 <= (frames[k][0] as u32) <= 0x39)
            &&& forall|i: int, j: int| 0 <= i <= j < frames.len() && (#[trigger] frames[i]).len() > 0
                ==> (#[trigger] frames[j]).len() > 0
        },
{
    if let Ok((off, len)) = layer_name_span(d, pos) {
        if off + len <= d.len() {
            let raw = utf8_lossy(d.subrange(off, off + len));
            lemma_trimmed_idempotent(raw);
            let start = off + len;
            if let Ok((name, frames)) = single_layer(d, pos, total_frames) {
                let avail = ((d.len() - start) / 40) as nat;
                let max_frames = if avail < total_frames { avail } else { total_frames };
                let idx = |k: int| if k < max_frames { k } else { max_frames - 1 };
                assert forall|k: int| 0 <= k < frames.len() implies (#[trigger] frames[k]).len() == 0
                    || (frames[k].len() == 1 && 0x30 <= (frames[k][0] as u32) <= 0x39) by {
                    lemma_held_value_digit(d, start, idx(k));
                }
                assert forall|i: int, j: int| 0 <= i <= j < frames.len() && (#[trigger] frames[i]).len() > 0
                    implies (#[trigger] frames[j]).len() > 0 by {
                    lemma_held_value_stays(d, start, idx(i), idx(j));
                }
            }
        }
    }
}

/// Whether a 00 01 pair followed by a frame mark starts at position `p` of the slot at `s`.
pub open spec fn mark_pair_at(d: Seq<u8>, s: int, p: int) -> bool {
    d[s + p] == 0x00 && d[s + p + 1] == 0x01 && is_frame_mark(d[s + p + 2])
}

proof fn lemma_slot_mark_from_first(d: Seq<u8>, s: int, i: int)
    requires
        0 <= i <= 38,
    ensures
        slot_mark_from(d, s, i) matches Some(v) ==> exists|p: int| i <= p < 38 && #[trigger] mark_pair_at(d, s, p)
            && d[s + p + 2] == v && forall|q: int| i <= q < p ==> !#[trigger] mark_pair_at(d, s, q),
        slot_mark_from(d, s, i) is None ==> forall|q: int| i <= q < 38 ==> !#[trigger] mark_pair_at(d, s, q),
    decreases 38 - i,
{
    if i < 38 {
        lemma_slot_mark_from_first(d, s, i + 1);
        if mark_pair_at(d, s, i) {
            assert(mark_pair_at(d, s, i) && d[s + i + 2] == slot_mark_from(d, s, i)->Some_0);
        } else {
            if slot_mark_from(d, s, i) is Some {
                let v = slot_mark_from(d, s, i)->Some_0;
                let p = choose|p: int| i + 1 <= p < 38 && #[trigger] mark_pair_at(d, s, p)
                    && d[s + p + 2] == v && forall|q: int| i + 1 <= q < p ==> !#[trigger] mark_pair_at(d, s, q);
                assert forall|q: int| i <= q < p implies !#[trigger] mark_pair_at(d, s, q) by {
                    if q > i {}
                }
            }
        }
    }
}

/// The mark of frame slot `k` (the slot at `start + 40 * k`) is the mark after the first
/// 00 01 pair among its first 38 positions that is followed by a frame mark (a digit, or
/// 02, 04, 08); a slot without such a pair has no mark.
pub proof fn lemma_slot_mark_is_first(d: Seq<u8>, start: int, k: int)
    ensures
        ({
            let s = start + 40 * k;
            &&& slot_mark(d, start, k) matches Some(v) ==> exists|p: int| 0 <= p < 38 && #[trigger] mark_pair_at(d, s, p)
                && d[s + p + 2] == v && forall|q: int| 0 <= q < p ==> !#[trigger] mark_pair_at(d, s, q)
            &&& slot_mark(d, start, k) is None ==> forall|q: int| 0 <= q < 38 ==> !#[trigger] mark_pair_at(d, s, q)
        }),
{
    lemma_slot_mark_from_first(d, start + 40 * k, 0);
}

/// A layer read after its name: the name is the decoded name text without the white space
/// around it; reading fails when that leaves nothing, when the frame data would start at or
/// past the end of the section, and when there is not one whole 40-byte slot or no frame;
/// otherwise there is a value for every one of the `total_frames` frames.
pub proof fn lemma_layer_after_name_outcome(d: Seq<u8>, raw: Seq<char>, start: int, total_frames: nat)
    ensures
        ({
            let r = layer_after_name(d, raw, start, total_frames);
            let blank = forall|k: int| 0 <= k < raw.len() ==> is_white(#[trigger] raw[k]);
            &&& blank ==> r == Err::<(Seq<char>, Seq<Seq<char>>), SxfError>(SxfError::EmptyLayerName)
            &&& !blank && start >= d.len() ==> r == Err::<(Seq<char>, Seq<Seq<char>>), SxfError>(SxfError::FrameDataBeyondSection)
            &&& !blank && start < d.len() && (d.len() - start < 40 || total_frames == 0)
                ==> r == Err::<(Seq<char>, Seq<Seq<char>>), SxfError>(SxfError::NoFrameData)
            &&& !blank && start < d.len() && d.len() - start >= 40 && total_frames > 0 ==> (r matches Ok((name, frames)) && {
                &&& frames.len() == total_frames
                &&& name.len() > 0
                &&& !is_white(name[0]) && !is_white(name.last())
                &&& exists|a: int, b: int| 0 <= a <= b <= raw.len() && #[trigger] raw.subrange(a, b) == name
                    && (forall|k: int| 0 <= k < a ==> is_white(#[trigger] raw[k]))
                    && (forall|k: int| b <= k < raw.len() ==> is_white(#[trigger] raw[k]))
            })
        }),
{
    lemma_trimmed_is_core(raw);
    lemma_trimmed_idempotent(raw);
    if start < d.len() && d.len() - start >= 40 {
        assert((d.len() - start) / 40 >= 1);
    }
    if start < d.len() && d.len() - start < 40 {
        assert((d.len() - start) / 40 == 0);
    }
}

/// The frame values of a layer follow the key drawings marked in its 40-byte slots: a slot
/// marked with a digit (the first 00 01 pair followed by a frame mark, e.g. right at the slot's
/// start) takes that digit, a new key drawing; a slot without a digit mark holds the value of
/// the slot before (nothing before the first key drawing); frames past the slots present
/// hold the value of the last slot read.
pub proof fn lemma_sxf_frames_follow_marks(d: Seq<u8>, raw: Seq<char>, start: int, total_frames: nat, k: int)
    requires
        layer_after_name(d, raw, start, total_frames) is Ok,
        0 <= k < total_frames,
    ensures
        ({
            let frames = layer_after_name(d, raw, start, total_frames)->Ok_0.1;
            let avail = (d.len() - start) / 40;
            let m = if avail < total_frames { avail } else { total_frames as int };
            let s = start + 40 * k;
            let digit = slot_mark(d, start, k) matches Some(v) && 0x30 <= v <= 0x39;
            &&& frames.len() == total_frames
            &&& 0 < m
            &&& (k < m && s + 2 < d.len() && d[s] == 0 && d[s + 1] == 1 && is_frame_mark(d[s + 2])
                ==> slot_mark(d, start, k) == Some(d[s + 2]))
            &&& (k < m && digit ==> frames[k] == seq![slot_mark(d, start, k)->Some_0 as char])
            &&& (k < m && !digit && k > 0 ==> frames[k] == frames[k - 1])
            &&& (k < m && !digit && k == 0 ==> frames[k].len() == 0)
            &&& (k >= m ==> frames[k] == frames[m - 1])
        }),
{
    let avail = (d.len() - start) / 40;
    let m = if avail < total_frames { avail } else { total_frames as int };
    let frames = layer_after_name(d, raw, start, total_frames)->Ok_0.1;
    let s = start + 40 * k;
    assert(frames.len() == total_frames);
    assert(0 < m);
    assert(k < m && s + 2 < d.len() && d[s] == 0 && d[s + 1] == 1 && is_frame_mark(d[s + 2])
                ==> slot_mark(d, start, k) == Some(d[s + 2]));
    if k >= m {
        assert(frames[m - 1] == held_value(d, start, m - 1));
        assert(frames[k] == frames[m - 1]);
    } else {
        assert(frames[k] == held_value(d, start, k));
        if k > 0 {
            assert(frames[k - 1] == held_value(d, start, k - 1));
        }
        let digit = slot_mark(d, start, k) matches Some(v) && 0x30 <= v <= 0x39;
        assert(digit ==> frames[k] == seq![slot_mark(d, start, k)->Some_0 as char]);
        assert(!digit && k > 0 ==> frames[k] == frames[k - 1]);
        assert(held_value(d, start, -1).len() == 0);
        assert(!digit && k == 0 ==> frames[k].len() == 0);
    }
}

/// A frame value as a string: the digit, or empty.
fn held_string(v: Option<u8>) -> (s: String)
    requires
        v matches Some(c) ==> 0x30 <= c <= 0x39,
    ensures
        s@ == (match v { Some(c) => seq![c as char], None => Seq::<char>::empty() }),
{
    let mut chars: Vec<char> = Vec::new();
    if let Some(c) = v {
        chars.push(c as char);
    }
    assert(chars@ =~= (match v { Some(c) => seq![c as char], None => Seq::<char>::empty() }));
    string_from_chars(&chars)
}

/// Parses a single layer whose marker is at `pos`: its name, then one value per frame
/// (read from 40-byte slots, holding the last key drawing), padded to `total_frames`.
pub fn parse_single_layer(section_data: &[u8], pos: usize, total_frames: usize) -> (r: Result<LayerData, SxfError>)
    requires
        pos + 8 <= usize::MAX,
    ensures
        match r {
            Ok(layer) => single_layer(section_data@, pos as int, total_frames as nat) == Ok::<_, SxfError>(layer@),
            Err(e) => single_layer(section_data@, pos as int, total_frames as nat) == Err::<(Seq<char>, Seq<Seq<char>>), _>(e),
        },
{
    let ghost d = section_data@;
    let len = section_data.len();
    let (name_offset, name_len): (usize, usize) = if pos + 4 < len
        && section_data[pos] == 0x02
        && section_data[pos + 1] == 0xDB
        && section_data[pos + 2] == 0x00
        && section_data[pos + 3] == 0x01
    {
        (pos + 4, 1)
    } else {
        match read_u16_be(section_data, pos + 2) {
            Ok(l) => {
                if l > 0 && l < 1000 {
                    (pos + 4, l as usize)
                } else {
                    match read_u16_be(section_data, pos + 6) {
                        Err(e) => { return Err(e); },
                        Ok(alt) => {
                            if alt > 0 && alt < 1000 {
                                (pos + 8, alt as usize)
                            } else {
                                return Err(SxfError::InvalidNameLength);
                            }
                        },
                    }
                }
            },
            Err(_) => { return Err(SxfError::CannotReadNameLength); },
        }
    };
    assert(layer_name_span(d, pos as int) == Ok::<(int, int), SxfError>((name_offset as int, name_len as int)));
    if name_offset > len || name_len > len - name_offset {
        return Err(SxfError::NameBeyondSection);
    }
    let raw = lossy_utf8(&section_data[name_offset..name_offset + name_len]);
    layer_from_name(section_data, raw.as_str(), name_offset + name_len, total_frames)
}

/// Reads a layer from its decoded name text `raw_name` and the 40-byte frame slots of
/// `section_data` from `start` (see `layer_after_name`).
pub fn layer_from_name(section_data: &[u8], raw_name: &str, start: usize, total_frames: usize) -> (r: Result<LayerData, SxfError>)
    ensures
        match r {
            Ok(layer) => layer_after_name(section_data@, raw_name@, start as int, total_frames as nat) == Ok::<_, SxfError>(layer@),
            Err(e) => layer_after_name(section_data@, raw_name@, start as int, total_frames as nat) == Err::<(Seq<char>, Seq<Seq<char>>), _>(e),
        },
{
    let ghost d = section_data@;
    let len = section_data.len();
    let raw_chars = str_chars(raw_name);
    let name_chars = trim_chars(&raw_chars);
    if name_chars.len() == 0 {
        return Err(SxfError::EmptyLayerName);
    }
    let name = string_from_chars(&name_chars);
    if start >= len {
        return Err(SxfError::FrameDataBeyondSection);
    }
    let avail = (len - start) / 40;
    let max_frames = if avail < total_frames { avail } else { total_frames };
    if max_frames == 0 {
        return Err(SxfError::NoFrameData);
    }
    assert(start + 40 * max_frames <= len) by (nonlinear_arith)
        requires avail == (len - start) / 40, max_frames <= avail, start < len;

    let mut frames: Vec<String> = Vec::new();
    let mut last: Option<u8> = None;
    let mut k: usize = 0;
    while k < max_frames
        invariant
            d == section_data@,
            len == d.len(),
            start + 40 * max_frames <= len,
            max_frames <= total_frames,
            k <= max_frames,
            frames@.len() == k,
            last matches Some(c) ==> 0x30 <= c <= 0x39,
            held_value(d, start as int, k - 1) == (match last { Some(c) => seq![c as char], None => Seq::<char>::empty() }),
            forall|j: int| 0 <= j < k ==> #[trigger] frames@[j]@ == held_value(d, start as int, j),
        decreases max_frames - k,
    {
        let slot_start = start + k * 40;
        assert(slot_start + 40 <= len) by (nonlinear_arith)
            requires slot_start == start + k * 40, k < max_frames, start + 40 * max_frames <= len;
        let mut i: usize = 0;
        let mut found: Option<u8> = None;
        while i < 38
            invariant_except_break
                found is None,
            invariant
                d == section_data@,
                len == d.len(),
                slot_start + 40 <= len,
                slot_start == start + 40 * k,
                i <= 38,
                slot_mark(d, start as int, k as int) == slot_mark_from(d, slot_start as int, i as int),
            ensures
                found == slot_mark(d, start as int, k as int),
            decreases 38 - i,
        {
            let b0 = section_data[slot_start + i];
            let b1 = section_data[slot_start + i + 1];
            let v = section_data[slot_start + i + 2];
            if b0 == 0x00 && b1 == 0x01 && ((0x30 <= v && v <= 0x39) || v == 0x02 || v == 0x04 || v == 0x08) {
                found = Some(v);
                break;
            }
            i = i + 1;
        }
        if let Some(v) = found {
            if 0x30 <= v && v <= 0x39 {
                last = Some(v);
            }
        }
        let s = held_string(last);
        frames.push(s);
        k = k + 1;
    }
    let ghost held_last = held_value(d, start as int, max_frames - 1);
    while k < total_frames
        invariant
            max_frames <= k <= total_frames,
            max_frames > 0,
            frames@.len() == k,
            held_value(d, start as int, max_frames - 1) == (match last { Some(c) => seq![c as char], None => Seq::<char>::empty() }),
            last matches Some(c) ==> 0x30 <= c <= 0x39,
            forall|j: int| 0 <= j < k ==> #[trigger] frames@[j]@ == held_value(d, start as int, if j < max_frames { j } else { max_frames - 1 }),
        decreases total_frames - k,
    {
        let s = held_string(last);
        frames.push(s);
        k = k + 1;
    }
    let layer = LayerData { name, frames };
    assert(layer@.1 =~= Seq::new(total_frames as nat, |j: int|
        held_value(d, start as int, if j < max_frames { j } else { max_frames - 1 })));
    Ok(layer)
}

/// The views of a vector of layers.
pub open spec fn layers_view(v: Seq<LayerData>) -> Seq<(Seq<char>, Seq<Seq<char>>)> {
    Seq::new(v.len(), |i: int| v[i]@)
}

/// Whether a layer marker starts at `i`: a 0x0B byte or the 02 DB 00 01 marker,
/// with more than 10 bytes after it.
pub open spec fn layer_candidate(d: Seq<u8>, i: int) -> bool {
    &&& i + 10 < d.len()
    &&& (d[i] == 0x0B || short_marker_at(d, i))
}

/// Every layer that parses at a marker position at or after `i`, in order.
pub open spec fn layers_from(d: Seq<u8>, total: nat, i: int) -> Seq<(Seq<char>, Seq<Seq<char>>)>
    decreases d.len() - i,
{
    if i < 0 || i >= d.len() {
        Seq::empty()
    } else if layer_candidate(d, i) && single_layer(d, i, total) is Ok {
        seq![single_layer(d, i, total)->Ok_0] + layers_from(d, total, i + 1)
    } else {
        layers_from(d, total, i + 1)
    }
}

/// The layers of a section: the first ten that parse.
pub open spec fn section_layers(d: Seq<u8>, total: nat) -> Seq<(Seq<char>, Seq<Seq<char>>)> {
    let all = layers_from(d, total, 0);
    if all.len() > 10 { all.subrange(0, 10) } else { all }
}

/// Parses the layers of a section: every marker position is tried in order and the
/// first ten layers that parse are kept.
pub fn parse_layer_data_detailed(section_data: &[u8], total_frames: usize) -> (r: Result<Vec<LayerData>, SxfError>)
    ensures
        r matches Ok(layers) && layers_view(layers@) == section_layers(section_data@, total_frames as nat),
{
    let ghost d = section_data@;
    let len = section_data.len();
    let mut layers: Vec<LayerData> = Vec::new();
    let mut i: usize = 0;
    while i < len
        invariant_except_break
            layers@.len() < 10,
        invariant
            d == section_data@,
            len == d.len(),
            i <= len,
            layers_from(d, total_frames as nat, 0) == layers_view(layers@) + layers_from(d, total_frames as nat, i as int),
        ensures
            layers_view(layers@) == section_layers(d, total_frames as nat),
        decreases len - i,
    {
        let ghost before = layers_view(layers@);
        let candidate = len - i > 10 && (section_data[i] == 0x0B || (len - i > 4
            && section_data[i] == 0x02 && section_data[i + 1] == 0xDB
            && section_data[i + 2] == 0x00 && section_data[i + 3] == 0x01));
        assert(candidate == layer_candidate(d, i as int));
        if candidate {
            match parse_single_layer(section_data, i, total_frames) {
                Ok(layer) => {
                    layers.push(layer);
                    assert(layers_view(layers@) =~= before.push(single_layer(d, i as int, total_frames as nat)->Ok_0));
                },
                Err(_) => {},
            }
        }
        i = i + 1;
        if layers.len() >= 10 {
            assert(layers_from(d, total_frames as nat, 0).subrange(0, 10) =~= layers_view(layers@));
            break;
        }
    }
    proof {
        if i >= len {
            assert(layers_from(d, total_frames as nat, i as int) =~= Seq::empty());
            assert(layers_from(d, total_frames as nat, 0) =~= layers_view(layers@));
        }
    }
    Ok(layers)
}

/// The first position of an 0xFF byte at or after `i` that is followed by `tag`.
pub open spec fn find_section_from(d: Seq<u8>, tag: u8, i: int) -> Option<int>
    decreases d.len() - i,
{
    if i < 0 || i >= d.len() {
        None
    } else if d[i] == 0xFF && i + 1 < d.len() && d[i + 1] == tag {
        Some(i)
    } else {
        find_section_from(d, tag, i + 1)
    }
}

/// The first position of an 0xFF byte at or after `i`, or the end of the data.
pub open spec fn next_marker_from(d: Seq<u8>, i: int) -> int
    decreases d.len() - i,
{
    if i < 0 || i >= d.len() {
        d.len() as int
    } else if d[i] == 0xFF {
        i
    } else {
        next_marker_from(d, i + 1)
    }
}

/// The group read from the section tagged `tag`, if the file has one.
pub open spec fn section_group(d: Seq<u8>, tag: u8, name: Seq<char>) -> Seq<(Seq<char>, Seq<(Seq<char>, Seq<Seq<char>>)>)> {
    match find_section_from(d, tag, 0) {
        Some(p) => seq![(name, section_layers(d.subrange(p, next_marker_from(d, p + 1)), 256 * (d[18] as nat) + d[19] as nat))],
        None => Seq::empty(),
    }
}

/// The name of the key-drawing group.
pub open spec fn genga_name() -> Seq<char> {
    seq!['\u{539F}', '\u{753B}']
}

/// The name of the in-between group.
pub open spec fn douga_name() -> Seq<char> {
    seq!['\u{52A8}', '\u{753B}']
}

/// The groups that an SXF binary file holds, or why it cannot be read.
pub open spec fn sxf_groups(d: Seq<u8>) -> Result<Seq<(Seq<char>, Seq<(Seq<char>, Seq<Seq<char>>)>)>, SxfError> {
    if d.len() < 20 {
        Err(SxfError::FileTooSmall(d.len() as usize))
    } else if d.subrange(0, 4) != seq![0x57u8, 0x42, 0x53, 0x43] {
        Err(SxfError::InvalidMagic)
    } else {
        let gs = section_group(d, 3, genga_name()) + section_group(d, 4, douga_name());
        if gs.len() == 0 { Err(SxfError::NoLayerGroups) } else { Ok(gs) }
    }
}

/// The views of a vector of groups.
pub open spec fn groups_view(v: Seq<LayerGroup>) -> Seq<(Seq<char>, Seq<(Seq<char>, Seq<Seq<char>>)>)> {
    Seq::new(v.len(), |i: int| v[i]@)
}

fn find_section(data: &[u8], tag: u8) -> (r: Option<usize>)
    ensures
        match r {
            Some(p) => find_section_from(data@, tag, 0) == Some(p as int) && p + 1 < data@.len(),
            None => find_section_from(data@, tag, 0) is None,
        },
{
    let mut i: usize = 0;
    while i < data.len()
        invariant
            i <= data@.len(),
            find_section_from(data@, tag, 0) == find_section_from(data@, tag, i as int),
        decreases data.len() - i,
    {
        if data[i] == 0xFF && i + 1 < data.len() && data[i + 1] == tag {
            return Some(i);
        }
        i = i + 1;
    }
    None
}

fn next_marker(data: &[u8], from: usize) -> (r: usize)
    requires
        from <= data@.len(),
    ensures
        r == next_marker_from(data@, from as int),
        from <= r <= data@.len(),
{
    let mut i: usize = from;
    while i < data.len()
        invariant
            from <= i <= data@.len(),
            next_marker_from(data@, from as int) == next_marker_from(data@, i as int),
        decreases data.len() - i,
    {
        if data[i] == 0xFF {
            return i;
        }
        i = i + 1;
    }
    i
}

fn chars_string(cs: &[char]) -> (s: String)
    ensures
        s@ == cs@,
{
    let mut v: Vec<char> = Vec::new();
    let mut i: usize = 0;
    while i < cs.len()
        invariant
            i <= cs@.len(),
            v@ == cs@.subrange(0, i as int),
        decreases cs.len() - i,
    {
        v.push(cs[i]);
        i = i + 1;
        assert(v@ =~= cs@.subrange(0, i as int));
    }
    assert(cs@.subrange(0, cs@.len() as int) =~= cs@);
    string_from_chars(&v)
}

/// Reads the layer groups of an SXF binary (WBSC) file from its bytes: the key-drawing
/// section (0xFF 0x03) and the in-between section (0xFF 0x04), each up to the next 0xFF.
pub fn parse_sxf_groups_bytes(data: &[u8]) -> (r: Result<Vec<LayerGroup>, SxfError>)
    ensures
        match r {
            Ok(gs) => sxf_groups(data@) == Ok::<_, SxfError>(groups_view(gs@)),
            Err(e) => sxf_groups(data@) == Err::<Seq<(Seq<char>, Seq<(Seq<char>, Seq<Seq<char>>)>)>, _>(e),
        },
{
    let ghost d = data@;
    if data.len() < 20 {
        return Err(SxfError::FileTooSmall(data.len()));
    }
    if !(data[0] == 0x57 && data[1] == 0x42 && data[2] == 0x53 && data[3] == 0x43) {
        assert(d.subrange(0, 4) != seq![0x57u8, 0x42, 0x53, 0x43]) by {
            if d.subrange(0, 4) == seq![0x57u8, 0x42, 0x53, 0x43] {
                assert(d.subrange(0, 4)[0] == d[0]);
                assert(d.subrange(0, 4)[1] == d[1]);
                assert(d.subrange(0, 4)[2] == d[2]);
                assert(d.subrange(0, 4)[3] == d[3]);
            }
        }
        return Err(SxfError::InvalidMagic);
    }
    assert(d.subrange(0, 4) =~= seq![0x57u8, 0x42, 0x53, 0x43]);
    let total_frames = 256 * (data[18] as usize) + data[19] as usize;
    let mut groups: Vec<LayerGroup> = Vec::new();
    match find_section(data, 3) {
        Some(p) => {
            let end = next_marker(data, p + 1);
            let layers = match parse_layer_data_detailed(&data[p..end], total_frames) {
                Ok(l) => l,
                Err(_) => Vec::new(),
            };
            let name = chars_string(&['\u{539F}', '\u{753B}']);
            assert(name@ =~= genga_name());
            groups.push(LayerGroup { name, layers });
        },
        None => {},
    }
    let ghost first = groups_view(groups@);
    assert(first =~= section_group(d, 3, genga_name()));
    match find_section(data, 4) {
        Some(p) => {
            let end = next_marker(data, p + 1);
            let layers = match parse_layer_data_detailed(&data[p..end], total_frames) {
                Ok(l) => l,
                Err(_) => Vec::new(),
            };
            let name = chars_string(&['\u{52A8}', '\u{753B}']);
            assert(name@ =~= douga_name());
            groups.push(LayerGroup { name, layers });
        },
        None => {},
    }
    assert(groups_view(groups@) =~= section_group(d, 3, genga_name()) + section_group(d, 4, douga_name()));
    if groups.len() == 0 {
        return Err(SxfError::NoLayerGroups);
    }
    Ok(groups)
}

/// A layer view.
pub type LayerView = (Seq<char>, Seq<Seq<char>>);

/// A group view.
pub type GroupView = (Seq<char>, Seq<(Seq<char>, Seq<Seq<char>>)>);

/// All layers of all groups in order, each with the name of its group.
pub open spec fn flat_layers(gs: Seq<GroupView>) -> Seq<(Seq<char>, LayerView)>
    decreases gs.len(),
{
    if gs.len() == 0 {
        Seq::empty()
    } else {
        flat_layers(gs.drop_last()) + Seq::new(gs.last().1.len(), |i: int| (gs.last().0, gs.last().1[i]))
    }
}

/// A frame value as a cell: a number when it parses as one, else empty.
pub open spec fn value_cell(v: Seq<char>) -> Option<CellValue> {
    match parse_u32_spec(v) {
        Some(n) => Some(CellValue::Number(n)),
        None => None,
    }
}

/// The frame count of the sheet made from `gs`: that of the first layer of the first group.
pub open spec fn groups_frame_count(gs: Seq<GroupView>) -> nat {
    if gs.len() > 0 && gs[0].1.len() > 0 { gs[0].1[0].1.len() } else { 0 }
}

/// The name of a combined layer: its group's name, "_", its own name.
pub open spec fn combined_name(e: (Seq<char>, LayerView)) -> Seq<char> {
    e.0 + seq!['_'] + e.1.0
}

/// The row of a combined layer in a sheet of `frames` frames.
pub open spec fn combined_row(e: (Seq<char>, LayerView), frames: nat) -> Seq<Option<CellValue>> {
    Seq::new(frames, |f: int| if f < e.1.1.len() { value_cell(e.1.1[f]) } else { None })
}

fn value_to_cell(v: &String) -> (c: Option<CellValue>)
    ensures
        c == value_cell(v@),
{
    let chars = str_chars(v.as_str());
    match parse_u32(&chars) {
        Some(n) => Some(CellValue::Number(n)),
        None => None,
    }
}

proof fn lemma_flat_step(gs: Seq<GroupView>, gi: int)
    requires
        0 <= gi < gs.len(),
    ensures
        flat_layers(gs.subrange(0, gi + 1)) == flat_layers(gs.subrange(0, gi))
            + Seq::new(gs[gi].1.len(), |i: int| (gs[gi].0, gs[gi].1[i])),
{
    assert(gs.subrange(0, gi + 1).drop_last() =~= gs.subrange(0, gi));
}

/// Combines all layers of all groups into one timesheet: each layer is named
/// "group_layer", the sheet has as many frames as the first layer of the first group,
/// and each frame value that parses as a number becomes that number.
pub fn groups_to_timesheet(groups: &[LayerGroup], filename: &str) -> (r: Result<TimeSheet, SxfError>)
    ensures
        ({
            let gs = groups_view(groups@);
            let flat = flat_layers(gs);
            let frames = groups_frame_count(gs);
            match r {
                Ok(ts) => {
                    &&& gs.len() > 0 && flat.len() > 0 && frames > 0
                    &&& ts.wf()
                    &&& ts.name@ == filename@
                    &&& ts.framerate == 24
                    &&& ts.frames_per_page == (if frames < 144 { frames } else { 144 })
                    &&& ts.layer_count == flat.len()
                    &&& ts.names() == Seq::new(flat.len(), |i: int| combined_name(flat[i]))
                    &&& ts.grid() == Seq::new(flat.len(), |i: int| combined_row(flat[i], frames))
                    &&& ts.source_width == 640
                    &&& ts.source_height == 480
                },
                Err(e) => {
                    &&& gs.len() == 0 ==> e == SxfError::NoGroups
                    &&& gs.len() > 0 ==> e == SxfError::NoLayerData && (flat.len() == 0 || frames == 0)
                },
            }
        }),
{
    let ghost gs = groups_view(groups@);
    if groups.len() == 0 {
        return Err(SxfError::NoGroups);
    }
    let frame_count: usize = if groups[0].layers.len() > 0 { groups[0].layers[0].frames.len() } else { 0 };
    assert(frame_count == groups_frame_count(gs));

    let mut names: Vec<String> = Vec::new();
    let mut cells: Vec<Vec<Option<CellValue>>> = Vec::new();
    let mut gi: usize = 0;
    while gi < groups.len()
        invariant
            gs == groups_view(groups@),
            frame_count == groups_frame_count(gs),
            gi <= groups@.len(),
            names@.len() == cells@.len(),
            names@.len() == flat_layers(gs.subrange(0, gi as int)).len(),
            forall|i: int| 0 <= i < names@.len() ==>
                #[trigger] names@[i]@ == combined_name(flat_layers(gs.subrange(0, gi as int))[i]),
            forall|i: int| 0 <= i < cells@.len() ==>
                #[trigger] cells@[i]@ == combined_row(flat_layers(gs.subrange(0, gi as int))[i], frame_count as nat),
        decreases groups.len() - gi,
    {
        let group = &groups[gi];
        proof { lemma_flat_step(gs, gi as int); }
        let ghost base = flat_layers(gs.subrange(0, gi as int));
        let ghost g = gs[gi as int];
        assert(g == group@);
        let mut li: usize = 0;
        while li < group.layers.len()
            invariant
                g == group@,
                frame_count == groups_frame_count(gs),
                li <= group.layers@.len(),
                names@.len() == cells@.len(),
                names@.len() == base.len() + li,
                forall|i: int| 0 <= i < base.len() ==>
                    #[trigger] names@[i]@ == combined_name(base[i]),
                forall|i: int| 0 <= i < base.len() ==>
                    #[trigger] cells@[i]@ == combined_row(base[i], frame_count as nat),
                forall|i: int| base.len() <= i < names@.len() ==>
                    #[trigger] names@[i]@ == combined_name((g.0, g.1[i - base.len()])),
                forall|i: int| base.len() <= i < cells@.len() ==>
                    #[trigger] cells@[i]@ == combined_row((g.0, g.1[i - base.len()]), frame_count as nat),
            decreases group.layers.len() - li,
        {
            let layer = &group.layers[li];
            assert(layer@ == g.1[li as int]);
            let mut name_chars = str_chars(group.name.as_str());
            name_chars.push('_');
            let layer_chars = str_chars(layer.name.as_str());
            let mut k: usize = 0;
            let ghost prefix = name_chars@;
            while k < layer_chars.len()
                invariant
                    k <= layer_chars@.len(),
                    name_chars@ == prefix + layer_chars@.subrange(0, k as int),
                decreases layer_chars.len() - k,
            {
                name_chars.push(layer_chars[k]);
                k = k + 1;
                assert(name_chars@ =~= prefix + layer_chars@.subrange(0, k as int));
            }
            assert(layer_chars@.subrange(0, layer_chars@.len() as int) =~= layer_chars@);
            let name = string_from_chars(&name_chars);
            assert(name@ =~= combined_name((g.0, g.1[li as int])));

            let mut row: Vec<Option<CellValue>> = Vec::new();
            let mut f: usize = 0;
            while f < frame_count
                invariant
                    layer@ == g.1[li as int],
                    f <= frame_count,
                    row@.len() == f,
                    forall|j: int| 0 <= j < f ==> #[trigger] row@[j]
                        == (if j < layer@.1.len() { value_cell(layer@.1[j]) } else { None }),
                decreases frame_count - f,
            {
                if f < layer.frames.len() {
                    row.push(value_to_cell(&layer.frames[f]));
                } else {
                    row.push(None);
                }
                f = f + 1;
            }
            assert(row@ =~= combined_row((g.0, g.1[li as int]), frame_count as nat));
            names.push(name);
            cells.push(row);
            li = li + 1;
        }
        assert(flat_layers(gs.subrange(0, gi + 1)) =~= base + Seq::new(g.1.len(), |i: int| (g.0, g.1[i])));
        gi = gi + 1;
    }
    assert(gs.subrange(0, groups@.len() as int) =~= gs);
    let ghost flat = flat_layers(gs);
    if names.len() == 0 || frame_count == 0 {
        return Err(SxfError::NoLayerData);
    }
    let fpp: u32 = if frame_count < 144 { frame_count as u32 } else { 144 };
    let layer_count = names.len();
    let ts = TimeSheet {
        name: string_from_chars(&str_chars(filename)),
        framerate: 24,
        frames_per_page: fpp,
        layer_count,
        layer_names: names,
        cells,
        source_width: 640,
        source_height: 480,
    };
    assert(ts.names() =~= Seq::new(flat.len(), |i: int| combined_name(flat[i])));
    assert(ts.grid() =~= Seq::new(flat.len(), |i: int| combined_row(flat[i], frame_count as nat)));
    Ok(ts)
}

/// `s` in double quotes.
pub open spec fn quoted(s: Seq<char>) -> Seq<char> {
    seq!['"'] + s + seq!['"']
}

/// A CSV field after a comma.
pub open spec fn field(s: Seq<char>) -> Seq<char> {
    seq![','] + quoted(s)
}

/// The name of the dialogue column.
pub open spec fn taici_name() -> Seq<char> {
    seq!['\u{53F0}', '\u{8BCD}']
}

/// The header cells of a group: its name, a blank per further layer, and after the
/// key-drawing group a blank and the dialogue header.
pub open spec fn group_header(g: GroupView) -> Seq<char> {
    field(g.0)
        + Seq::new(if g.1.len() > 1 { (g.1.len() - 1) as nat } else { 0 }, |i: int| field(Seq::empty())).flatten()
        + (if g.0 == genga_name() { field(Seq::empty()) + field(taici_name()) } else { Seq::empty() })
}

/// The layer-name cells of a group (and a blank after the key-drawing group).
pub open spec fn group_names(g: GroupView) -> Seq<char> {
    Seq::new(g.1.len(), |i: int| field(g.1[i].0)).flatten()
        + (if g.0 == genga_name() { field(Seq::empty()) } else { Seq::empty() })
}

/// The value of a layer at frame `idx`, empty past its end.
pub open spec fn frame_at(l: LayerView, idx: int) -> Seq<char> {
    if 0 <= idx < l.1.len() { l.1[idx] } else { Seq::empty() }
}

/// How many layers of a group have data columns: at most six for the in-between group.
pub open spec fn data_count(g: GroupView) -> nat {
    if g.0 == douga_name() && g.1.len() > 6 { 6 } else { g.1.len() }
}

/// The data cells of a group at frame `idx` (and the dialogue column, a copy of the first
/// layer, after the key-drawing group).
pub open spec fn group_data(g: GroupView, idx: int) -> Seq<char> {
    Seq::new(data_count(g), |i: int| field(frame_at(g.1[i], idx))).flatten()
        + (if g.0 == genga_name() {
            field(if g.1.len() > 0 { frame_at(g.1[0], idx) } else { Seq::empty() })
        } else {
            Seq::empty()
        })
}

/// The longest frame list among `flat`.
pub open spec fn max_frame_len(flat: Seq<(Seq<char>, LayerView)>) -> nat
    decreases flat.len(),
{
    if flat.len() == 0 {
        0
    } else {
        let m = max_frame_len(flat.drop_last());
        if flat.last().1.1.len() > m { flat.last().1.1.len() } else { m }
    }
}

/// The text of the CSV export of `gs`: a group header row, a layer name row, and one row
/// per frame numbered from 1.
pub open spec fn groups_csv(gs: Seq<GroupView>) -> Seq<char> {
    quoted(seq!['F', 'r', 'a', 'm', 'e']) + Seq::new(gs.len(), |i: int| group_header(gs[i])).flatten() + seq!['\n']
        + quoted(Seq::empty()) + Seq::new(gs.len(), |i: int| group_names(gs[i])).flatten() + seq!['\n']
        + Seq::new(max_frame_len(flat_layers(gs)), |idx: int| data_row(gs, idx)).flatten()
}

/// The CSV row of frame `idx`.
pub open spec fn data_row(gs: Seq<GroupView>, idx: int) -> Seq<char> {
    quoted(decimal_digits((idx + 1) as nat)) + Seq::new(gs.len(), |i: int| group_data(gs[i], idx)).flatten()
        + seq!['\n']
}

fn push_field(out: &mut Vec<char>, s: &Vec<char>)
    ensures
        final(out)@ == old(out)@ + field(s@),
{
    out.push(',');
    out.push('"');
    push_chars(out, s);
    out.push('"');
    assert(out@ =~= old(out)@ + field(s@));
}

fn genga_chars() -> (v: Vec<char>)
    ensures
        v@ == genga_name(),
{
    let v = vec!['\u{539F}', '\u{753B}'];
    assert(v@ =~= genga_name());
    v
}

fn douga_chars() -> (v: Vec<char>)
    ensures
        v@ == douga_name(),
{
    let v = vec!['\u{52A8}', '\u{753B}'];
    assert(v@ =~= douga_name());
    v
}

fn header_cells(g: &LayerGroup, out: &mut Vec<char>)
    ensures
        final(out)@ == old(out)@ + group_header(g@),
{
    let ghost o0 = out@;
    let name = str_chars(g.name.as_str());
    push_field(out, &name);
    let blanks: usize = if g.layers.len() > 1 { g.layers.len() - 1 } else { 0 };
    let empty: Vec<char> = Vec::new();
    let mut i: usize = 0;
    while i < blanks
        invariant
            i <= blanks,
            empty@ == Seq::<char>::empty(),
            out@ == o0 + field(g@.0) + Seq::new(i as nat, |k: int| field(Seq::<char>::empty())).flatten(),
        decreases blanks - i,
    {
        push_field(out, &empty);
        proof { lemma_flatten_new_step(|k: int| field(Seq::<char>::empty()), i as nat); }
        i = i + 1;
        assert(out@ =~= o0 + field(g@.0) + Seq::new(i as nat, |k: int| field(Seq::<char>::empty())).flatten());
    }
    if chars_eq(&name, &genga_chars()) {
        push_field(out, &empty);
        let t = vec!['\u{53F0}', '\u{8BCD}'];
        assert(t@ =~= taici_name());
        push_field(out, &t);
    }
    assert(out@ =~= o0 + group_header(g@));
}

fn name_cells(g: &LayerGroup, out: &mut Vec<char>)
    ensures
        final(out)@ == old(out)@ + group_names(g@),
{
    let ghost o0 = out@;
    let ghost gv = g@;
    let mut i: usize = 0;
    while i < g.layers.len()
        invariant
            gv == g@,
            i <= g.layers@.len(),
            out@ == o0 + Seq::new(i as nat, |k: int| field(gv.1[k].0)).flatten(),
        decreases g.layers.len() - i,
    {
        let n = str_chars(g.layers[i].name.as_str());
        assert(n@ == gv.1[i as int].0);
        let ghost before = out@;
        push_field(out, &n);
        proof { lemma_flatten_new_step(|k: int| field(gv.1[k].0), i as nat); }
        i = i + 1;
        assert(out@ =~= o0 + Seq::new(i as nat, |k: int| field(gv.1[k].0)).flatten());
    }
    let name = str_chars(g.name.as_str());
    if chars_eq(&name, &genga_chars()) {
        let empty: Vec<char> = Vec::new();
        push_field(out, &empty);
    }
    assert(out@ =~= o0 + group_names(g@));
}

fn frame_chars(l: &LayerData, idx: usize) -> (v: Vec<char>)
    ensures
        v@ == frame_at(l@, idx as int),
{
    if idx < l.frames.len() {
        str_chars(l.frames[idx].as_str())
    } else {
        Vec::new()
    }
}

fn data_cells(g: &LayerGroup, idx: usize, out: &mut Vec<char>)
    ensures
        final(out)@ == old(out)@ + group_data(g@, idx as int),
{
    let ghost o0 = out@;
    let ghost gv = g@;
    let name = str_chars(g.name.as_str());
    let count: usize = if chars_eq(&name, &douga_chars()) && g.layers.len() > 6 { 6 } else { g.layers.len() };
    assert(count == data_count(gv));
    let mut i: usize = 0;
    while i < count
        invariant
            gv == g@,
            count <= g.layers@.len(),
            i <= count,
            out@ == o0 + Seq::new(i as nat, |k: int| field(frame_at(gv.1[k], idx as int))).flatten(),
        decreases count - i,
    {
        let v = frame_chars(&g.layers[i], idx);
        push_field(out, &v);
        proof { lemma_flatten_new_step(|k: int| field(frame_at(gv.1[k], idx as int)), i as nat); }
        i = i + 1;
        assert(out@ =~= o0 + Seq::new(i as nat, |k: int| field(frame_at(gv.1[k], idx as int))).flatten());
    }
    if chars_eq(&name, &genga_chars()) {
        let v: Vec<char> = if g.layers.len() > 0 { frame_chars(&g.layers[0], idx) } else { Vec::new() };
        push_field(out, &v);
    }
    assert(out@ =~= o0 + group_data(g@, idx as int));
}

/// The CSV export of groups (the text that `write_groups_to_csv` writes): a header row of
/// group names (with a dialogue column after the key-drawing group), a row of layer names,
/// then per frame its 1-based number and each layer's value (at most six in-between layers;
/// the dialogue column repeats the first key-drawing layer).
pub fn groups_to_csv_text(groups: &[LayerGroup]) -> (s: String)
    ensures
        s@ == groups_csv(groups_view(groups@)),
{
    let ghost gs = groups_view(groups@);
    let mut out: Vec<char> = Vec::new();

    // longest frame list
    let mut max_frames: usize = 0;
    let mut gi: usize = 0;
    while gi < groups.len()
        invariant
            gs == groups_view(groups@),
            gi <= groups@.len(),
            max_frames == max_frame_len(flat_layers(gs.subrange(0, gi as int))),
        decreases groups.len() - gi,
    {
        proof { lemma_flat_step(gs, gi as int); }
        let ghost base = flat_layers(gs.subrange(0, gi as int));
        let ghost g = gs[gi as int];
        let mut li: usize = 0;
        while li < groups[gi].layers.len()
            invariant
                gs == groups_view(groups@),
                gi < groups@.len(),
                g == groups@[gi as int]@,
                li <= groups@[gi as int].layers@.len(),
                max_frames == max_frame_len(base + Seq::new(li as nat, |i: int| (g.0, g.1[i]))),
            decreases groups[gi as int].layers.len() - li,
        {
            let n = groups[gi].layers[li].frames.len();
            proof {
                let a = base + Seq::new(li as nat, |i: int| (g.0, g.1[i]));
                let b = base + Seq::new((li + 1) as nat, |i: int| (g.0, g.1[i]));
                assert(b.drop_last() =~= a);
            }
            if n > max_frames {
                max_frames = n;
            }
            li = li + 1;
        }
        assert(base + Seq::new(g.1.len(), |i: int| (g.0, g.1[i])) =~= flat_layers(gs.subrange(0, gi + 1)));
        gi = gi + 1;
    }
    assert(gs.subrange(0, groups@.len() as int) =~= gs);

    // header row
    out.push('"');
    out.push('F');
    out.push('r');
    out.push('a');
    out.push('m');
    out.push('e');
    out.push('"');
    let mut i: usize = 0;
    assert(out@ =~= quoted(seq!['F', 'r', 'a', 'm', 'e']) + Seq::new(0, |k: int| group_header(gs[k])).flatten());
    while i < groups.len()
        invariant
            gs == groups_view(groups@),
            i <= groups@.len(),
            out@ == quoted(seq!['F', 'r', 'a', 'm', 'e']) + Seq::new(i as nat, |k: int| group_header(gs[k])).flatten(),
        decreases groups.len() - i,
    {
        header_cells(&groups[i], &mut out);
        proof { lemma_flatten_new_step(|k: int| group_header(gs[k]), i as nat); }
        i = i + 1;
        assert(out@ =~= quoted(seq!['F', 'r', 'a', 'm', 'e']) + Seq::new(i as nat, |k: int| group_header(gs[k])).flatten());
    }
    out.push('\n');
    let ghost row1 = out@;

    // layer names row
    out.push('"');
    out.push('"');
    let mut i: usize = 0;
    assert(out@ =~= row1 + quoted(Seq::empty()) + Seq::new(0, |k: int| group_names(gs[k])).flatten());
    while i < groups.len()
        invariant
            gs == groups_view(groups@),
            i <= groups@.len(),
            out@ == row1 + quoted(Seq::empty()) + Seq::new(i as nat, |k: int| group_names(gs[k])).flatten(),
        decreases groups.len() - i,
    {
        name_cells(&groups[i], &mut out);
        proof { lemma_flatten_new_step(|k: int| group_names(gs[k]), i as nat); }
        i = i + 1;
        assert(out@ =~= row1 + quoted(Seq::empty()) + Seq::new(i as nat, |k: int| group_names(gs[k])).flatten());
    }
    out.push('\n');
    let ghost rows12 = out@;
    assert(rows12 =~= quoted(seq!['F', 'r', 'a', 'm', 'e']) + Seq::new(gs.len(), |i: int| group_header(gs[i])).flatten() + seq!['\n']
        + quoted(Seq::empty()) + Seq::new(gs.len(), |i: int| group_names(gs[i])).flatten() + seq!['\n']);

    // data rows
    let mut idx: usize = 0;
    assert(out@ =~= rows12 + Seq::new(0, |r: int| data_row(gs, r)).flatten());
    while idx < max_frames
        invariant
            gs == groups_view(groups@),
            idx <= max_frames,
            out@ == rows12 + Seq::new(idx as nat, |r: int| data_row(gs, r)).flatten(),
        decreases max_frames - idx,
    {
        let ghost before = out@;
        out.push('"');
        push_decimal(&mut out, (idx as u64) + 1);
        out.push('"');
        let ghost start = out@;
        let mut i: usize = 0;
        assert(out@ =~= start + Seq::new(0, |k: int| group_data(gs[k], idx as int)).flatten());
        while i < groups.len()
            invariant
                gs == groups_view(groups@),
                i <= groups@.len(),
                out@ == start + Seq::new(i as nat, |k: int| group_data(gs[k], idx as int)).flatten(),
            decreases groups.len() - i,
        {
            data_cells(&groups[i], idx, &mut out);
            proof { lemma_flatten_new_step(|k: int| group_data(gs[k], idx as int), i as nat); }
            i = i + 1;
            assert(out@ =~= start + Seq::new(i as nat, |k: int| group_data(gs[k], idx as int)).flatten());
        }
        out.push('\n');
        assert(out@ =~= before + data_row(gs, idx as int));
        proof { lemma_flatten_new_step(|r: int| data_row(gs, r), idx as nat); }
        idx = idx + 1;
        assert(out@ =~= rows12 + Seq::new(idx as nat, |r: int| data_row(gs, r)).flatten());
    }
    assert(out@ =~= groups_csv(gs));
    string_from_chars(&out)
}

} // verus!
