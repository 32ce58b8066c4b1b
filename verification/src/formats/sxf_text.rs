//! The line-based SXF layout: after mapping its control bytes to marker characters and
//! decoding, each line ends with a layer name marker and holds frame values in
//! ten-character columns.

use vstd::prelude::*;
use crate::text::{trimmed, trim_chars, lines_seq, lines_chars, parse_u32, parse_u32_spec, string_from_chars, str_chars};
use crate::timesheet::{CellValue, TimeSheet};
use crate::formats::csv::{fallback_decoded, decode_with_fallback};
use crate::formats::sxf::{sxf_groups, flat_layers, groups_frame_count, combined_name, combined_row, parse_sxf_groups_bytes, groups_to_timesheet};

verus! {

/// Why the line-based layout cannot be read.
#[derive(Debug, Clone, Copy, PartialEq, Eq, Structural)]
pub enum SxfTextError {
    /// The decoded text is over 1,000,000 bytes long
    TextTooLarge,
    /// The decoded text has more than 10,000 lines (the count)
    TooManyLines(usize),
    /// No layer name or no frame row was found (line, name and frame row counts)
    NoData { lines: usize, cells: usize, frames: usize },
}

/// The bytes a raw byte becomes before decoding: 01 is '#', 00 is '~', 02 is '○',
/// 04 is '●' and 08 is '×' (in UTF-8); a space is dropped; any other byte stays.
pub open spec fn byte_image(x: u8) -> Seq<u8> {
    if x == 1 {
        seq![35u8]
    } else if x == 0 {
        seq![126u8]
    } else if x == 2 {
        seq![0xE2u8, 0x97u8, 0x8Bu8]
    } else if x == 4 {
        seq![0xE2u8, 0x97u8, 0x8Fu8]
    } else if x == 8 {
        seq![0xC3u8, 0x97u8]
    } else if x == 32 {
        Seq::empty()
    } else {
        seq![x]
    }
}

/// The bytes of a file after mapping each byte (see `byte_image`).
pub open spec fn text_bytes(b: Seq<u8>) -> Seq<u8>
    decreases b.len(),
{
    if b.len() == 0 { Seq::empty() } else { text_bytes(b.drop_last()) + byte_image(b.last()) }
}

/// The number of bytes of `c` in UTF-8.
pub open spec fn utf8_width(c: char) -> nat {
    let u = c as u32;
    if u < 0x80 { 1 } else if u < 0x800 { 2 } else if u < 0x10000 { 3 } else { 4 }
}

/// The number of bytes of `s` in UTF-8.
pub open spec fn utf8_len(s: Seq<char>) -> nat
    decreases s.len(),
{
    if s.len() == 0 { 0 } else { utf8_len(s.drop_last()) + utf8_width(s.last()) }
}

/// Whether `pat` occurs in `s` at position `i`.
pub open spec fn occurs_at(s: Seq<char>, pat: Seq<char>, i: int) -> bool {
    0 <= i && i + pat.len() <= s.len() && s.subrange(i, i + pat.len()) == pat
}

/// The last position at or before `i` where `pat` occurs in `s`.
pub open spec fn last_occurrence_from(s: Seq<char>, pat: Seq<char>, i: int) -> Option<int>
    decreases i + 1,
{
    if i < 0 { None } else if occurs_at(s, pat, i) { Some(i) } else { last_occurrence_from(s, pat, i - 1) }
}

/// The last position where `pat` occurs in `s` (as `str::rfind`, counted in characters).
pub open spec fn last_occurrence(s: Seq<char>, pat: Seq<char>) -> Option<int> {
    last_occurrence_from(s, pat, s.len() - pat.len())
}

/// The layer name marker "~~~#~~~".
pub open spec fn hash_marker() -> Seq<char> {
    seq!['~', '~', '~', '#', '~', '~', '~']
}

/// The layer name marker "~~~~~~".
pub open spec fn tilde_marker() -> Seq<char> {
    seq!['~', '~', '~', '~', '~', '~']
}

/// Characters that end a layer name before a "~~~~~~" marker.
pub open spec fn name_stop(c: char) -> bool {
    c == '#' || c == '~' || c == '○' || c == '●' || c == '×' || c == '%'
}

/// The last position before `i` of a '#' in `s`.
pub open spec fn last_hash_before(s: Seq<char>, i: int) -> Option<int>
    decreases i,
{
    if i <= 0 { None } else if s[i - 1] == '#' { Some(i - 1) } else { last_hash_before(s, i - 1) }
}

/// The last position before `i` of a name stop in `s`.
pub open spec fn last_stop_before(s: Seq<char>, i: int) -> Option<int>
    decreases i,
{
    if i <= 0 { None } else if name_stop(s[i - 1]) { Some(i - 1) } else { last_stop_before(s, i - 1) }
}

/// The last position before `i` of a character of `s` that is not a name stop.
pub open spec fn last_name_char_before(s: Seq<char>, i: int) -> Option<int>
    decreases i,
{
    if i <= 0 { None } else if !name_stop(s[i - 1]) { Some(i - 1) } else { last_name_char_before(s, i - 1) }
}

/// A line split at its layer name marker: its frame characters and its layer name (empty
/// when it has none). Before a "~~~#~~~" marker the name follows the last '#'; before a
/// "~~~~~~" marker it is the last run of characters that are not name stops.
pub open spec fn split_line(line: Seq<char>) -> (Seq<char>, Seq<char>) {
    match last_occurrence(line, hash_marker()) {
        Some(p) => {
            let before = line.take(p);
            match last_hash_before(before, p) {
                Some(h) => (before.take(h), trimmed(before.subrange(h + 1, p))),
                None => (before, Seq::empty()),
            }
        },
        None => match last_occurrence(line, tilde_marker()) {
            Some(p) => {
                let before = line.take(p);
                let name_end = match last_name_char_before(before, p) { Some(i) => i + 1, None => p };
                let name_start = match last_stop_before(before, name_end) { Some(i) => i + 1, None => 0 };
                (before.take(name_start), trimmed(before.subrange(name_start, name_end)))
            },
            None => (line, Seq::empty()),
        },
    }
}

/// `s` with every "BG" (left to right) replaced by "1".
pub open spec fn replace_bg(s: Seq<char>) -> Seq<char>
    decreases s.len(),
{
    if s.len() < 2 {
        s
    } else if s[0] == 'B' && s[1] == 'G' {
        seq!['1'] + replace_bg(s.subrange(2, s.len() as int))
    } else {
        seq![s[0]] + replace_bg(s.drop_first())
    }
}

/// Whether `s` holds an ASCII capital letter other than 'G' (the end of the frame columns).
pub open spec fn has_stop_letter(s: Seq<char>) -> bool {
    exists|i: int| 0 <= i < s.len() && 'A' <= #[trigger] s[i] <= 'Z' && s[i] != 'G'
}

/// The characters of `s` before its first '~'.
pub open spec fn before_tilde(s: Seq<char>) -> Seq<char>
    decreases s.len(),
{
    if s.len() == 0 { s } else if s[0] == '~' { Seq::empty() } else { seq![s[0]] + before_tilde(s.drop_first()) }
}

/// Whether `c` belongs to a frame value: a digit, '○', '●' or '×'.
pub open spec fn value_char(c: char) -> bool {
    ('0' <= c <= '9') || c == '○' || c == '●' || c == '×'
}

/// The characters of `s` that belong to a frame value (or, with `digits_only`, that are
/// digits), in order.
pub open spec fn kept(s: Seq<char>, digits_only: bool) -> Seq<char>
    decreases s.len(),
{
    if s.len() == 0 {
        s
    } else {
        let k = kept(s.drop_last(), digits_only);
        let c = s.last();
        if (if digits_only { '0' <= c <= '9' } else { value_char(c) }) { k.push(c) } else { k }
    }
}

/// The frame values of a line's frame characters from column `k` on: columns of ten
/// characters starting at character 1, at most `max`, up to the first column holding a
/// stop letter (after "BG" becomes "1"); each value is the digits and marks before its
/// first '~'.
pub open spec fn frame_values_from(fc: Seq<char>, k: nat, max: nat) -> Seq<Seq<char>>
    decreases max - k,
{
    if k >= max || 11 + 10 * k > fc.len() {
        Seq::empty()
    } else {
        let col = replace_bg(fc.subrange(1 + 10 * k as int, 11 + 10 * k as int));
        if has_stop_letter(col) {
            Seq::empty()
        } else {
            seq![kept(before_tilde(col), false)] + frame_values_from(fc, k + 1, max)
        }
    }
}

/// The frame values of a line's frame characters (at most 1000 columns).
pub open spec fn frame_values(fc: Seq<char>) -> Seq<Seq<char>> {
    frame_values_from(fc, 0, if fc.len() / 10 < 1000 { fc.len() / 10 } else { 1000 })
}

/// The layer names and frame rows found so far, after one more line: lines over 10,000
/// bytes are skipped; a line's frame values are kept once a layer name has been seen
/// (when it has more than one frame character and at least one value); its layer name is
/// kept when not empty.
pub open spec fn line_step(st: (Seq<Seq<char>>, Seq<Seq<Seq<char>>>), line: Seq<char>) -> (Seq<Seq<char>>, Seq<Seq<Seq<char>>>) {
    if utf8_len(line) > 10_000 {
        st
    } else {
        let parts = split_line(line);
        let fv = frame_values(parts.0);
        (
            if parts.1.len() > 0 { st.0.push(parts.1) } else { st.0 },
            if st.0.len() > 0 && parts.0.len() > 1 && fv.len() > 0 { st.1.push(fv) } else { st.1 },
        )
    }
}

/// The layer names and frame rows of the first `n` lines.
pub open spec fn scan_lines(lines: Seq<Seq<char>>, n: nat) -> (Seq<Seq<char>>, Seq<Seq<Seq<char>>>)
    decreases n,
{
    if n == 0 { (Seq::empty(), Seq::empty()) } else { line_step(scan_lines(lines, (n - 1) as nat), lines[n - 1]) }
}

/// What a frame value means: nothing when empty or a lone mark; else its number, or the
/// number its digits make.
pub open spec fn text_value_cell(v: Seq<char>) -> Option<CellValue> {
    if v.len() == 0 || v == seq!['×'] || v == seq!['○'] || v == seq!['●'] {
        None
    } else {
        match parse_u32_spec(v) {
            Some(n) => Some(CellValue::Number(n)),
            None => match parse_u32_spec(kept(v, true)) {
                Some(n) => Some(CellValue::Number(n)),
                None => None,
            },
        }
    }
}

/// The grid of the line-based layout: a layer per name, as many frames as the first frame
/// row, the frame rows' values in order.
pub open spec fn text_grid(cells: Seq<Seq<char>>, frames: Seq<Seq<Seq<char>>>) -> Seq<Seq<Option<CellValue>>> {
    Seq::new(cells.len(), |i: int| Seq::new(frames[0].len(), |j: int|
        if i < frames.len() && j < frames[i].len() { text_value_cell(frames[i][j]) } else { None }))
}

proof fn lemma_utf8_len_prefix(s: Seq<char>, k: int)
    requires
        0 <= k <= s.len(),
    ensures
        utf8_len(s.take(k)) <= utf8_len(s),
    decreases s.len() - k,
{
    if k < s.len() {
        lemma_utf8_len_prefix(s, k + 1);
        assert(s.take(k + 1).drop_last() =~= s.take(k));
    } else {
        assert(s.take(k) =~= s);
    }
}

/// Whether `s` is longer than `limit` bytes in UTF-8.
fn utf8_len_exceeds(s: &Vec<char>, limit: usize) -> (b: bool)
    requires
        limit <= 1_000_000,
    ensures
        b == (utf8_len(s@) > limit),
{
    let mut total: usize = 0;
    let mut i: usize = 0;
    while i < s.len()
        invariant
            limit <= 1_000_000,
            i <= s@.len(),
            total == utf8_len(s@.take(i as int)),
            total <= limit,
        decreases s.len() - i,
    {
        let u = s[i] as u32;
        let w: usize = if u < 0x80 { 1 } else if u < 0x800 { 2 } else if u < 0x10000 { 3 } else { 4 };
        assert(s@.take(i + 1).drop_last() =~= s@.take(i as int));
        total = total + w;
        i = i + 1;
        if total > limit {
            proof { lemma_utf8_len_prefix(s@, i as int); }
            return true;
        }
    }
    assert(s@.take(s@.len() as int) =~= s@);
    false
}

/// The bytes of a file after mapping each byte (see `byte_image`).
fn map_text_bytes(bytes: &[u8]) -> (r: Vec<u8>)
    ensures
        r@ == text_bytes(bytes@),
{
    let mut out: Vec<u8> = Vec::new();
    let mut i: usize = 0;
    while i < bytes.len()
        invariant
            i <= bytes@.len(),
            out@ == text_bytes(bytes@.take(i as int)),
        decreases bytes.len() - i,
    {
        let b = bytes[i];
        assert(bytes@.take(i + 1).drop_last() =~= bytes@.take(i as int));
        let ghost before = out@;
        if b == 1 {
            out.push(35);
        } else if b == 0 {
            out.push(126);
        } else if b == 2 {
            out.push(0xE2);
            out.push(0x97);
            out.push(0x8B);
        } else if b == 4 {
            out.push(0xE2);
            out.push(0x97);
            out.push(0x8F);
        } else if b == 8 {
            out.push(0xC3);
            out.push(0x97);
        } else if b == 32 {
        } else {
            out.push(b);
        }
        assert(out@ =~= before + byte_image(b));
        i = i + 1;
    }
    assert(bytes@.take(bytes@.len() as int) =~= bytes@);
    out
}

/// Characters `a..b` of `s`.
fn sub_chars(s: &Vec<char>, a: usize, b: usize) -> (r: Vec<char>)
    requires
        a <= b <= s@.len(),
    ensures
        r@ == s@.subrange(a as int, b as int),
{
    let mut r: Vec<char> = Vec::new();
    let mut i: usize = a;
    while i < b
        invariant
            a <= i <= b <= s@.len(),
            r@ == s@.subrange(a as int, i as int),
        decreases b - i,
    {
        r.push(s[i]);
        i = i + 1;
        assert(r@ =~= s@.subrange(a as int, i as int));
    }
    r
}

/// Whether `pat` occurs in `s` at `i`.
fn occurs_at_exec(s: &Vec<char>, pat: &Vec<char>, i: usize) -> (b: bool)
    ensures
        b == occurs_at(s@, pat@, i as int),
{
    if i > s.len() || pat.len() > s.len() - i {
        return false;
    }
    let mut k: usize = 0;
    while k < pat.len()
        invariant
            i <= s@.len(),
            i + pat@.len() <= s@.len(),
            k <= pat@.len(),
            forall|q: int| 0 <= q < k ==> s@[i + q] == #[trigger] pat@[q],
        decreases pat.len() - k,
    {
        let sl = s.len();
        assert(i + k < sl);
        if s[i + k] != pat[k] {
            assert(s@.subrange(i as int, i + pat@.len())[k as int] != pat@[k as int]);
            return false;
        }
        k = k + 1;
    }
    assert(s@.subrange(i as int, i + pat@.len()) =~= pat@);
    true
}

/// The last position where `pat` occurs in `s`.
fn last_occurrence_exec(s: &Vec<char>, pat: &Vec<char>) -> (r: Option<usize>)
    requires
        pat@.len() > 0,
    ensures
        match r {
            Some(i) => last_occurrence(s@, pat@) == Some(i as int) && occurs_at(s@, pat@, i as int),
            None => last_occurrence(s@, pat@) is None,
        },
{
    if pat.len() > s.len() {
        assert(last_occurrence(s@, pat@) is None);
        return None;
    }
    let mut i: usize = s.len() - pat.len() + 1;
    while i > 0
        invariant
            pat@.len() <= s@.len(),
            i <= s@.len() - pat@.len() + 1,
            last_occurrence(s@, pat@) == last_occurrence_from(s@, pat@, i - 1),
        decreases i,
    {
        if occurs_at_exec(s, pat, i - 1) {
            return Some(i - 1);
        }
        i = i - 1;
    }
    None
}

/// Whether `c` ends a layer name before a "~~~~~~" marker.
fn is_name_stop_char(c: char) -> (b: bool)
    ensures
        b == name_stop(c),
{
    c == '#' || c == '~' || c == '○' || c == '●' || c == '×' || c == '%'
}

/// The frame characters and the layer name of a line (see `split_line`).
fn split_line_chars(line: &Vec<char>) -> (r: (Vec<char>, Vec<char>))
    ensures
        (r.0@, r.1@) == split_line(line@),
{
    let hash = vec!['~', '~', '~', '#', '~', '~', '~'];
    let tilde = vec!['~', '~', '~', '~', '~', '~'];
    assert(hash@ =~= hash_marker());
    assert(tilde@ =~= tilde_marker());
    match last_occurrence_exec(line, &hash) {
        Some(p) => {
            let ghost before = line@.take(p as int);
            let mut i: usize = p;
            while i > 0
                invariant
                    i <= p <= line@.len(),
                    before == line@.take(p as int),
                    last_occurrence(line@, hash_marker()) == Some(p as int),
                    last_hash_before(before, p as int) == last_hash_before(before, i as int),
                decreases i,
            {
                if line[i - 1] == '#' {
                    let frames = sub_chars(line, 0, i - 1);
                    let raw = sub_chars(line, i, p);
                    let name = trim_chars(&raw);
                    assert(before[i - 1] == '#');
                    assert(last_hash_before(before, i as int) == Some(i - 1));
                    assert(last_occurrence(line@, hash_marker()) == Some(p as int));
                    assert(frames@ =~= before.take(i - 1));
                    assert(raw@ =~= before.subrange(i as int, p as int));
                    return (frames, name);
                }
                i = i - 1;
            }
            let frames = sub_chars(line, 0, p);
            assert(frames@ =~= before);
            (frames, Vec::new())
        },
        None => match last_occurrence_exec(line, &tilde) {
            Some(p) => {
                let ghost before = line@.take(p as int);
                let mut i: usize = p;
                while i > 0 && is_name_stop_char(line[i - 1])
                    invariant
                        i <= p <= line@.len(),
                        before == line@.take(p as int),
                        last_name_char_before(before, p as int) == last_name_char_before(before, i as int),
                    decreases i,
                {
                    i = i - 1;
                }
                let name_end: usize = if i > 0 { i } else { p };
                assert(name_end == match last_name_char_before(before, p as int) { Some(q) => q + 1, None => p as int });
                let mut j: usize = name_end;
                while j > 0 && !is_name_stop_char(line[j - 1])
                    invariant
                        j <= name_end <= p <= line@.len(),
                        before == line@.take(p as int),
                        last_stop_before(before, name_end as int) == last_stop_before(before, j as int),
                    decreases j,
                {
                    j = j - 1;
                }
                let name_start: usize = j;
                assert(name_start == match last_stop_before(before, name_end as int) { Some(q) => q + 1, None => 0int });
                let frames = sub_chars(line, 0, name_start);
                let raw = sub_chars(line, name_start, name_end);
                let name = trim_chars(&raw);
                assert(frames@ =~= before.take(name_start as int));
                assert(raw@ =~= before.subrange(name_start as int, name_end as int));
                (frames, name)
            },
            None => (line.clone(), Vec::new()),
        },
    }
}

/// `s` with every "BG" replaced by "1".
fn replace_bg_chars(s: &Vec<char>) -> (r: Vec<char>)
    ensures
        r@ == replace_bg(s@),
{
    let n = s.len();
    let mut out: Vec<char> = Vec::new();
    let mut i: usize = 0;
    assert(s@.subrange(0, n as int) =~= s@);
    while i < n
        invariant
            n == s@.len(),
            i <= n,
            out@ + replace_bg(s@.subrange(i as int, n as int)) == replace_bg(s@),
        decreases n - i,
    {
        let ghost rest = s@.subrange(i as int, n as int);
        if i + 1 < n && s[i] == 'B' && s[i + 1] == 'G' {
            assert(rest.subrange(2, rest.len() as int) =~= s@.subrange(i + 2, n as int));
            out.push('1');
            assert(out@ + replace_bg(s@.subrange(i + 2, n as int)) =~= replace_bg(s@));
            i = i + 2;
        } else {
            assert(rest.drop_first() =~= s@.subrange(i + 1, n as int));
            out.push(s[i]);
            proof {
              if rest.len() < 2 {
                assert(replace_bg(rest) == rest);
                assert(rest == seq![s@[i as int]]);
                assert(s@.subrange(i + 1, n as int) =~= Seq::<char>::empty());
              }
            }
            assert(out@ + replace_bg(s@.subrange(i + 1, n as int)) =~= replace_bg(s@));
            i = i + 1;
        }
    }
    assert(s@.subrange(n as int, n as int) =~= Seq::<char>::empty());
    assert(out@ =~= replace_bg(s@));
    out
}

/// Whether `s` holds an ASCII capital letter other than 'G'.
fn has_stop_letter_chars(s: &Vec<char>) -> (b: bool)
    ensures
        b == has_stop_letter(s@),
{
    let mut i: usize = 0;
    while i < s.len()
        invariant
            i <= s@.len(),
            forall|q: int| 0 <= q < i ==> !('A' <= #[trigger] s@[q] <= 'Z' && s@[q] != 'G'),
        decreases s.len() - i,
    {
        if 'A' <= s[i] && s[i] <= 'Z' && s[i] != 'G' {
            return true;
        }
        i = i + 1;
    }
    false
}

/// The characters of `s` before its first '~'.
fn before_tilde_chars(s: &Vec<char>) -> (r: Vec<char>)
    ensures
        r@ == before_tilde(s@),
{
    let n = s.len();
    let mut out: Vec<char> = Vec::new();
    let mut i: usize = 0;
    assert(s@.subrange(0, n as int) =~= s@);
    while i < n
        invariant
            n == s@.len(),
            i <= n,
            out@ + before_tilde(s@.subrange(i as int, n as int)) == before_tilde(s@),
        decreases n - i,
    {
        let ghost rest = s@.subrange(i as int, n as int);
        if s[i] == '~' {
            assert(before_tilde(rest) == Seq::<char>::empty());
            assert(out@ =~= before_tilde(s@));
            return out;
        }
        assert(rest.drop_first() =~= s@.subrange(i + 1, n as int));
        out.push(s[i]);
        assert(out@ + before_tilde(s@.subrange(i + 1, n as int)) =~= before_tilde(s@));
        i = i + 1;
    }
    assert(s@.subrange(n as int, n as int) =~= Seq::<char>::empty());
    assert(out@ =~= before_tilde(s@));
    out
}

/// The digits and marks of `s`, in order.
fn value_chars(s: &Vec<char>, digits_only: bool) -> (r: Vec<char>)
    ensures
        r@ == kept(s@, digits_only),
{
    let mut out: Vec<char> = Vec::new();
    let mut i: usize = 0;
    while i < s.len()
        invariant
            i <= s@.len(),
            out@ == kept(s@.take(i as int), digits_only),
        decreases s.len() - i,
    {
        let c = s[i];
        assert(s@.take(i + 1).drop_last() =~= s@.take(i as int));
        let keep = if digits_only { '0' <= c && c <= '9' } else { ('0' <= c && c <= '9') || c == '○' || c == '●' || c == '×' };
        if keep {
            out.push(c);
        }
        i = i + 1;
    }
    assert(s@.take(s@.len() as int) =~= s@);
    out
}

/// The frame values of a line's frame characters (see `frame_values`).
fn frame_values_chars(fc: &Vec<char>) -> (r: Vec<Vec<char>>)
    ensures
        Seq::new(r@.len(), |i: int| r@[i]@) == frame_values(fc@),
{
    let n = fc.len();
    let max: usize = if n / 10 < 1000 { n / 10 } else { 1000 };
    let mut out: Vec<Vec<char>> = Vec::new();
    let mut k: usize = 0;
    let mut done = false;
    while k < max && !done
        invariant
            n == fc@.len(),
            max == (if fc@.len() / 10 < 1000 { fc@.len() / 10 } else { 1000 }),
            max <= 1000,
            k <= max,
            Seq::new(out@.len(), |i: int| out@[i]@) + (if done { Seq::<Seq<char>>::empty() } else {
                frame_values_from(fc@, k as nat, max as nat) }) == frame_values(fc@),
        decreases (max - k) * 2 + (if done { 0int } else { 1int }),
    {
        let f = 1 + 10 * k;
        if f + 10 > n {
            assert(frame_values_from(fc@, k as nat, max as nat) == Seq::<Seq<char>>::empty());
            done = true;
        } else {
            let raw = sub_chars(fc, f, f + 10);
            let col = replace_bg_chars(&raw);
            if has_stop_letter_chars(&col) {
                assert(frame_values_from(fc@, k as nat, max as nat) == Seq::<Seq<char>>::empty());
                done = true;
            } else {
                let head = before_tilde_chars(&col);
                let v = value_chars(&head, false);
                let ghost old_view = Seq::new(out@.len(), |i: int| out@[i]@);
                out.push(v);
                assert(Seq::new(out@.len(), |i: int| out@[i]@) =~= old_view.push(v@));
                assert(old_view.push(v@) + frame_values_from(fc@, (k + 1) as nat, max as nat)
                    =~= old_view + frame_values_from(fc@, k as nat, max as nat));
                k = k + 1;
            }
        }
    }
    proof {
        if !done {
            assert(frame_values_from(fc@, k as nat, max as nat) == Seq::<Seq<char>>::empty());
        }
    }
    assert(Seq::new(out@.len(), |i: int| out@[i]@) =~= frame_values(fc@));
    out
}

/// What a frame value means (see `text_value_cell`).
fn value_cell(v: &Vec<char>) -> (c: Option<CellValue>)
    ensures
        c == text_value_cell(v@),
{
    if v.len() == 0 {
        return None;
    }
    if v.len() == 1 && (v[0] == '×' || v[0] == '○' || v[0] == '●') {
        assert(v@ =~= seq![v@[0]]);
        return None;
    }
    proof {
        if v@ == seq!['×'] || v@ == seq!['○'] || v@ == seq!['●'] {
            assert(v@.len() == 1 && v@[0] == v@[0]);
        }
    }
    match parse_u32(v) {
        Some(n) => Some(CellValue::Number(n)),
        None => {
            let d = value_chars(v, true);
            match parse_u32(&d) {
                Some(n) => Some(CellValue::Number(n)),
                None => None,
            }
        },
    }
}

/// What reading the line-based SXF layout from `bytes` gives: the errors for over-long
/// text, too many lines or no data; else the sheet of the layer names and frame rows
/// found (see `scan_lines` and `text_grid`), named `file_name`, at 24 fps with 144 frames
/// per page.
pub open spec fn sxf_text_result(bytes: Seq<u8>, file_name: Seq<char>, r: Result<TimeSheet, SxfTextError>) -> bool {
    sxf_content_result(fallback_decoded(text_bytes(bytes)), file_name, r)
}

/// What reading the line-based SXF layout from decoded text `content` gives (see
/// `sxf_text_result`).
pub open spec fn sxf_content_result(content: Seq<char>, file_name: Seq<char>, r: Result<TimeSheet, SxfTextError>) -> bool {
    let lines = lines_seq(content);
    let st = scan_lines(lines, lines.len());
    if utf8_len(content) > 1_000_000 {
        r == Err::<TimeSheet, SxfTextError>(SxfTextError::TextTooLarge)
    } else if lines.len() > 10_000 {
        r == Err::<TimeSheet, SxfTextError>(SxfTextError::TooManyLines(lines.len() as usize))
    } else if st.0.len() == 0 || st.1.len() == 0 {
        r == Err::<TimeSheet, SxfTextError>(SxfTextError::NoData {
            lines: lines.len() as usize, cells: st.0.len() as usize, frames: st.1.len() as usize })
    } else {
        r matches Ok(ts) && {
            &&& ts.wf()
            &&& ts.name@ == file_name
            &&& ts.framerate == 24
            &&& ts.frames_per_page == 144
            &&& ts.layer_count == st.0.len()
            &&& ts.names() == st.0
            &&& ts.grid() == text_grid(st.0, st.1)
            &&& ts.source_width == 640
            &&& ts.source_height == 480
        }
    }
}

/// Reads the line-based SXF layout from a file's bytes (see `sxf_text_result`).
pub fn parse_sxf_text(bytes: &[u8], file_name: &str) -> (r: Result<TimeSheet, SxfTextError>)
    ensures
        sxf_text_result(bytes@, file_name@, r),
{
    let mapped = map_text_bytes(bytes);
    let content = decode_with_fallback(&mapped);
    parse_sxf_content(content.as_str(), file_name)
}

/// Reads the line-based SXF layout from its decoded text (see `sxf_content_result`).
pub fn parse_sxf_content(content: &str, file_name: &str) -> (r: Result<TimeSheet, SxfTextError>)
    ensures
        sxf_content_result(content@, file_name@, r),
{
    let chars = str_chars(content);
    if utf8_len_exceeds(&chars, 1_000_000) {
        return Err(SxfTextError::TextTooLarge);
    }
    let lines = lines_chars(&chars);
    let ghost lv = lines_seq(content@);
    if lines.len() > 10_000 {
        return Err(SxfTextError::TooManyLines(lines.len()));
    }
    let mut cells: Vec<Vec<char>> = Vec::new();
    let mut frames: Vec<Vec<Vec<char>>> = Vec::new();
    let mut i: usize = 0;
    while i < lines.len()
        invariant
            Seq::new(lines@.len(), |k: int| lines@[k]@) == lv,
            i <= lines@.len(),
            lines@.len() <= 10_000,
            cells@.len() <= i,
            frames@.len() <= i,
            (Seq::new(cells@.len(), |k: int| cells@[k]@),
             Seq::new(frames@.len(), |k: int| Seq::new(frames@[k]@.len(), |j: int| frames@[k]@[j]@))) == scan_lines(lv, i as nat),
        decreases lines.len() - i,
    {
        let line = &lines[i];
        assert(lv[i as int] == line@);
        let ghost cv = Seq::new(cells@.len(), |k: int| cells@[k]@);
        let ghost fv = Seq::new(frames@.len(), |k: int| Seq::new(frames@[k]@.len(), |j: int| frames@[k]@[j]@));
        if !utf8_len_exceeds(line, 10_000) {
            let (fc, name) = split_line_chars(line);
            let had_cells = cells.len() > 0;
            let values = frame_values_chars(&fc);
            if had_cells && fc.len() > 1 && values.len() > 0 {
                frames.push(values);
                assert(Seq::new(frames@.len(), |k: int| Seq::new(frames@[k]@.len(), |j: int| frames@[k]@[j]@))
                    =~= fv.push(frame_values(fc@)));
            }
            if name.len() > 0 {
                cells.push(name);
                assert(Seq::new(cells@.len(), |k: int| cells@[k]@) =~= cv.push(split_line(line@).1));
            }
        }
        i = i + 1;
    }
    let ghost st = scan_lines(lv, lv.len());
    if cells.len() == 0 || frames.len() == 0 {
        return Err(SxfTextError::NoData { lines: lines.len(), cells: cells.len(), frames: frames.len() });
    }
    let lc = cells.len();
    let fcount = frames[0].len();
    let mut names: Vec<String> = Vec::new();
    let mut grid: Vec<Vec<Option<CellValue>>> = Vec::new();
    let mut l: usize = 0;
    while l < lc
        invariant
            lc == cells@.len(),
            frames@.len() > 0,
            fcount == frames@[0]@.len(),
            st.0 == Seq::new(cells@.len(), |k: int| cells@[k]@),
            st.1 == Seq::new(frames@.len(), |k: int| Seq::new(frames@[k]@.len(), |j: int| frames@[k]@[j]@)),
            l <= lc,
            names@.len() == l,
            grid@.len() == l,
            forall|k: int| 0 <= k < l ==> (#[trigger] names@[k])@ == st.0[k],
            forall|k: int| 0 <= k < l ==> (#[trigger] grid@[k])@ == text_grid(st.0, st.1)[k],
        decreases lc - l,
    {
        names.push(string_from_chars(&cells[l]));
        let mut row: Vec<Option<CellValue>> = Vec::new();
        let mut j: usize = 0;
        while j < fcount
            invariant
                lc == cells@.len(),
                l < lc,
                frames@.len() > 0,
                fcount == frames@[0]@.len(),
                st.1 == Seq::new(frames@.len(), |k: int| Seq::new(frames@[k]@.len(), |q: int| frames@[k]@[q]@)),
                j <= fcount,
                row@.len() == j,
                forall|q: int| 0 <= q < j ==> #[trigger] row@[q] == (if l < st.1.len() && q < st.1[l as int].len() {
                    text_value_cell(st.1[l as int][q]) } else { None }),
            decreases fcount - j,
        {
            let c = if l < frames.len() && j < frames[l].len() { value_cell(&frames[l][j]) } else { None };
            row.push(c);
            j = j + 1;
        }
        assert(row@ =~= text_grid(st.0, st.1)[l as int]);
        grid.push(row);
        l = l + 1;
    }
    let ts = TimeSheet {
        name: string_from_chars(&str_chars(file_name)),
        framerate: 24,
        frames_per_page: 144,
        layer_count: lc,
        layer_names: names,
        cells: grid,
        source_width: 640,
        source_height: 480,
    };
    assert(ts.names() =~= st.0);
    assert(ts.grid() =~= text_grid(st.0, st.1));
    Ok(ts)
}

/// Whether the binary SXF layout reads from `d` and holds at least one layer with frames.
pub open spec fn sxf_binary_readable(d: Seq<u8>) -> bool {
    sxf_groups(d) matches Ok(gs) && gs.len() > 0 && flat_layers(gs).len() > 0 && groups_frame_count(gs) > 0
}

/// Reads an SXF file's bytes: as the binary layout when that reads, else as the
/// line-based layout.
pub fn parse_sxf_bytes(bytes: &[u8], file_name: &str) -> (r: Result<TimeSheet, SxfTextError>)
    ensures
        sxf_binary_readable(bytes@) ==> (sxf_groups(bytes@) matches Ok(gs) && r matches Ok(ts) && {
            let flat = flat_layers(gs);
            let frames = groups_frame_count(gs);
            &&& ts.wf()
            &&& ts.name@ == file_name@
            &&& ts.framerate == 24
            &&& ts.frames_per_page == (if frames < 144 { frames } else { 144 })
            &&& ts.layer_count == flat.len()
            &&& ts.names() == Seq::new(flat.len(), |i: int| combined_name(flat[i]))
            &&& ts.grid() == Seq::new(flat.len(), |i: int| combined_row(flat[i], frames))
        }),
        !sxf_binary_readable(bytes@) ==> sxf_text_result(bytes@, file_name@, r),
{
    match parse_sxf_groups_bytes(bytes) {
        Ok(groups) => {
            match groups_to_timesheet(groups.as_slice(), file_name) {
                Ok(ts) => { return Ok(ts); },
                Err(_) => {},
            }
        },
        Err(_) => {},
    }
    parse_sxf_text(bytes, file_name)
}

} // verus!
