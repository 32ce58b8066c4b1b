//! Application preferences that are plain values: the theme mode, the After Effects
//! keyframe data version and the CSV text encoding, each with its stored name.

use vstd::prelude::*;
use crate::text::{str_chars, chars_eq};
use crate::encoding::TextEncoding;

verus! {

/// `c` lowercased when it is an ASCII capital letter, else `c` itself.
pub open spec fn ascii_lower(c: char) -> char {
    if 'A' <= c <= 'Z' { ((c as u32) + 32) as char } else { c }
}

/// Whether every character of `s` is ASCII.
pub open spec fn is_ascii_text(s: Seq<char>) -> bool {
    forall|i: int| 0 <= i < s.len() ==> (#[trigger] s[i] as u32) < 128
}

/// What `str::to_lowercase` returns for `s`: every character replaced by its Unicode
/// lowercase mapping.
pub uninterp spec fn lowercase_of(s: Seq<char>) -> Seq<char>;

/// Calls `str::to_lowercase`. The contract claims that the result is `lowercase_of` the
/// text, and that ASCII text is lowercased character by character (capitals A-Z become
/// a-z, every other ASCII character stays), as the Unicode lowercase mapping does.
#[verifier::external_body]
pub(crate) fn lowercase_str(s: &str) -> (r: String)
    ensures
        r@ == lowercase_of(s@),
        is_ascii_text(s@) ==> r@ == s@.map_values(|c: char| ascii_lower(c)),
{
    s.to_lowercase()
}

/// Whether `s` holds exactly the characters of `lit`.
fn text_is(s: &str, lit: &str) -> (b: bool)
    ensures
        b == (s@ == lit@),
{
    let a = str_chars(s);
    let b = str_chars(lit);
    chars_eq(&a, &b)
}

/// The colour theme.
#[derive(Debug, Clone, Copy, PartialEq, Eq, Structural)]
pub enum ThemeMode {
    /// Follow the system
    System,
    /// Light
    Light,
    /// Dark
    Dark,
}

impl Default for ThemeMode {
    fn default() -> (r: Self)
        ensures
            r == ThemeMode::System,
    {
        ThemeMode::System
    }
}

/// The stored name of a theme mode.
pub open spec fn theme_name(m: ThemeMode) -> Seq<char> {
    match m {
        ThemeMode::System => "system"@,
        ThemeMode::Light => "light"@,
        ThemeMode::Dark => "dark"@,
    }
}

/// The theme mode a lowercased stored name stands for (System for any other name).
pub open spec fn theme_named(lower: Seq<char>) -> ThemeMode {
    if lower == "light"@ {
        ThemeMode::Light
    } else if lower == "dark"@ {
        ThemeMode::Dark
    } else {
        ThemeMode::System
    }
}

impl ThemeMode {
    /// The stored name: "system", "light" or "dark".
    pub fn as_str(&self) -> (s: &'static str)
        ensures
            s@ == theme_name(*self),
    {
        match self {
            ThemeMode::System => "system",
            ThemeMode::Light => "light",
            ThemeMode::Dark => "dark",
        }
    }

    /// The theme mode a stored name stands for, ignoring letter case; System for any
    /// other name.
    pub fn from_str(s: &str) -> (m: ThemeMode)
        ensures
            m == theme_named(lowercase_of(s@)),
            is_ascii_text(s@) ==> m == theme_named(s@.map_values(|c: char| ascii_lower(c))),
    {
        let lower = lowercase_str(s);
        if text_is(lower.as_str(), "light") {
            ThemeMode::Light
        } else if text_is(lower.as_str(), "dark") {
            ThemeMode::Dark
        } else {
            ThemeMode::System
        }
    }
}

/// The version written into After Effects keyframe data.
#[derive(Debug, Clone, Copy, PartialEq, Eq, Structural)]
pub enum AeKeyframeVersion {
    /// 6.0
    V6,
    /// 7.0
    V7,
    /// 8.0
    V8,
    /// 9.0
    V9,
}

impl Default for AeKeyframeVersion {
    fn default() -> (r: Self)
        ensures
            r == AeKeyframeVersion::V9,
    {
        AeKeyframeVersion::V9
    }
}

/// The stored name of a keyframe data version.
pub open spec fn version_name(v: AeKeyframeVersion) -> Seq<char> {
    match v {
        AeKeyframeVersion::V6 => "6.0"@,
        AeKeyframeVersion::V7 => "7.0"@,
        AeKeyframeVersion::V8 => "8.0"@,
        AeKeyframeVersion::V9 => "9.0"@,
    }
}

/// The version a stored name stands for (9.0 for any other name).
pub open spec fn version_named(s: Seq<char>) -> AeKeyframeVersion {
    if s == "6.0"@ {
        AeKeyframeVersion::V6
    } else if s == "7.0"@ {
        AeKeyframeVersion::V7
    } else if s == "8.0"@ {
        AeKeyframeVersion::V8
    } else {
        AeKeyframeVersion::V9
    }
}

/// The position of a version in the list 6.0, 7.0, 8.0, 9.0.
pub open spec fn version_index(v: AeKeyframeVersion) -> nat {
    match v {
        AeKeyframeVersion::V6 => 0,
        AeKeyframeVersion::V7 => 1,
        AeKeyframeVersion::V8 => 2,
        AeKeyframeVersion::V9 => 3,
    }
}

/// The version at a position of that list (9.0 past its end).
pub open spec fn version_at(i: nat) -> AeKeyframeVersion {
    if i == 0 {
        AeKeyframeVersion::V6
    } else if i == 1 {
        AeKeyframeVersion::V7
    } else if i == 2 {
        AeKeyframeVersion::V8
    } else {
        AeKeyframeVersion::V9
    }
}

impl AeKeyframeVersion {
    /// The stored name: "6.0", "7.0", "8.0" or "9.0".
    pub fn as_str(&self) -> (s: &'static str)
        ensures
            s@ == version_name(*self),
    {
        match self {
            AeKeyframeVersion::V6 => "6.0",
            AeKeyframeVersion::V7 => "7.0",
            AeKeyframeVersion::V8 => "8.0",
            AeKeyframeVersion::V9 => "9.0",
        }
    }

    /// The version a stored name stands for; 9.0 for any other name.
    pub fn from_str(s: &str) -> (v: AeKeyframeVersion)
        ensures
            v == version_named(s@),
    {
        if text_is(s, "6.0") {
            AeKeyframeVersion::V6
        } else if text_is(s, "7.0") {
            AeKeyframeVersion::V7
        } else if text_is(s, "8.0") {
            AeKeyframeVersion::V8
        } else {
            AeKeyframeVersion::V9
        }
    }

    /// The position in the list 6.0, 7.0, 8.0, 9.0.
    pub fn index(&self) -> (i: usize)
        ensures
            i == version_index(*self),
    {
        match self {
            AeKeyframeVersion::V6 => 0,
            AeKeyframeVersion::V7 => 1,
            AeKeyframeVersion::V8 => 2,
            AeKeyframeVersion::V9 => 3,
        }
    }

    /// The version at position `i` of that list; 9.0 past its end.
    pub fn from_index(i: usize) -> (v: AeKeyframeVersion)
        ensures
            v == version_at(i as nat),
    {
        match i {
            0 => AeKeyframeVersion::V6,
            1 => AeKeyframeVersion::V7,
            2 => AeKeyframeVersion::V8,
            _ => AeKeyframeVersion::V9,
        }
    }
}

/// The text encoding of exported CSV files.
#[derive(Debug, Clone, Copy, PartialEq, Eq, Structural)]
pub enum CsvEncoding {
    /// UTF-8
    Utf8,
    /// GB2312 (written as GBK)
    Gb2312,
    /// Shift-JIS
    ShiftJis,
}

/// The stored name of a CSV encoding.
pub open spec fn csv_encoding_name(e: CsvEncoding) -> Seq<char> {
    match e {
        CsvEncoding::Utf8 => "UTF-8"@,
        CsvEncoding::Gb2312 => "GB2312"@,
        CsvEncoding::ShiftJis => "Shift-JIS"@,
    }
}

/// The CSV encoding a stored name stands for (GB2312 for any other name).
pub open spec fn csv_encoding_named(s: Seq<char>) -> CsvEncoding {
    if s == "UTF-8"@ {
        CsvEncoding::Utf8
    } else if s == "Shift-JIS"@ {
        CsvEncoding::ShiftJis
    } else {
        CsvEncoding::Gb2312
    }
}

impl CsvEncoding {
    /// The stored name: "UTF-8", "GB2312" or "Shift-JIS".
    pub fn as_str(&self) -> (s: &'static str)
        ensures
            s@ == csv_encoding_name(*self),
    {
        match self {
            CsvEncoding::Utf8 => "UTF-8",
            CsvEncoding::Gb2312 => "GB2312",
            CsvEncoding::ShiftJis => "Shift-JIS",
        }
    }

    /// The encoding a stored name stands for; GB2312 for any other name.
    pub fn from_str(s: &str) -> (e: CsvEncoding)
        ensures
            e == csv_encoding_named(s@),
    {
        if text_is(s, "UTF-8") {
            CsvEncoding::Utf8
        } else if text_is(s, "Shift-JIS") {
            CsvEncoding::ShiftJis
        } else {
            CsvEncoding::Gb2312
        }
    }

    /// The encoding used to write the text.
    pub fn text_encoding(&self) -> (t: TextEncoding)
        ensures
            t == match *self {
                CsvEncoding::Utf8 => TextEncoding::Utf8,
                CsvEncoding::Gb2312 => TextEncoding::Gbk,
                CsvEncoding::ShiftJis => TextEncoding::ShiftJis,
            },
    {
        match self {
            CsvEncoding::Utf8 => TextEncoding::Utf8,
            CsvEncoding::Gb2312 => TextEncoding::Gbk,
            CsvEncoding::ShiftJis => TextEncoding::ShiftJis,
        }
    }
}

/// Reading back the stored name of a theme mode gives that mode.
pub proof fn lemma_theme_name_round_trip(m: ThemeMode)
    ensures
        is_ascii_text(theme_name(m)),
        theme_name(m).map_values(|c: char| ascii_lower(c)) == theme_name(m),
        theme_named(theme_name(m)) == m,
{
    reveal_strlit("system");
    reveal_strlit("light");
    reveal_strlit("dark");
    assert(theme_name(m).map_values(|c: char| ascii_lower(c)) =~= theme_name(m));
}

/// Reading back the stored name of a keyframe data version gives that version.
pub proof fn lemma_version_name_round_trip(v: AeKeyframeVersion)
    ensures
        version_named(version_name(v)) == v,
{
    reveal_strlit("6.0");
    reveal_strlit("7.0");
    reveal_strlit("8.0");
    reveal_strlit("9.0");
    assert("7.0"@[0] != "6.0"@[0]);
    assert("8.0"@[0] != "6.0"@[0] && "8.0"@[0] != "7.0"@[0]);
    assert("9.0"@[0] != "6.0"@[0] && "9.0"@[0] != "7.0"@[0] && "9.0"@[0] != "8.0"@[0]);
}

/// A version's position gives back the version, and a position gives back itself up to
/// the last position.
pub proof fn lemma_version_index_round_trip(v: AeKeyframeVersion, i: nat)
    ensures
        version_at(version_index(v)) == v,
        version_index(version_at(i)) == (if i < 3 { i } else { 3 }),
{
}

/// Reading back the stored name of a CSV encoding gives that encoding.
pub proof fn lemma_csv_encoding_name_round_trip(e: CsvEncoding)
    ensures
        csv_encoding_named(csv_encoding_name(e)) == e,
{
    reveal_strlit("UTF-8");
    reveal_strlit("GB2312");
    reveal_strlit("Shift-JIS");
    assert("GB2312"@[0] != "UTF-8"@[0] && "GB2312"@[0] != "Shift-JIS"@[0]);
    assert("Shift-JIS"@[0] != "UTF-8"@[0]);
}

} // verus!
