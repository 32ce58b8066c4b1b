//! Image sequence naming: which file of a folder holds drawing number `n`.

use vstd::prelude::*;
use crate::text::{str_chars, parse_u32, parse_u32_spec, push_decimal, push_str_chars, decimal_digits, string_from_chars};
use crate::settings::lowercase_of;

verus! {

/// The ASCII digits of `s`, in order.
pub open spec fn digits_of(s: Seq<char>) -> Seq<char>
    decreases s.len(),
{
    if s.len() == 0 {
        s
    } else if '0' <= s.last() <= '9' {
        digits_of(s.drop_last()).push(s.last())
    } else {
        digits_of(s.drop_last())
    }
}

/// The number a file name stem stands for: all its digits read as one number.
pub open spec fn stem_number(stem: Seq<char>) -> Option<u32> {
    parse_u32_spec(digits_of(stem))
}

/// The number that the digits of a file name stem make, e.g. 5 for "Layer_A_005";
/// `None` without digits or when they do not fit in 32 bits.
pub fn image_number(stem: &str) -> (r: Option<u32>)
    ensures
        r == stem_number(stem@),
{
    let chars = str_chars(stem);
    let mut d: Vec<char> = Vec::new();
    let mut i: usize = 0;
    while i < chars.len()
        invariant
            chars@ == stem@,
            i <= chars@.len(),
            d@ == digits_of(chars@.take(i as int)),
        decreases chars.len() - i,
    {
        assert(chars@.take(i + 1).drop_last() =~= chars@.take(i as int));
        if '0' <= chars[i] && chars[i] <= '9' {
            d.push(chars[i]);
        }
        i = i + 1;
    }
    assert(chars@.take(chars@.len() as int) =~= chars@);
    parse_u32(&d)
}

/// The position of the first stem among `stems` that stands for `target`.
pub open spec fn first_stem_for(stems: Seq<Seq<char>>, target: u32, i: int) -> Option<int>
    decreases stems.len() - i,
{
    if i < 0 || i >= stems.len() {
        None
    } else if stem_number(stems[i]) == Some(target) {
        Some(i)
    } else {
        first_stem_for(stems, target, i + 1)
    }
}

/// The position of the first of the file name stems `stems` that stands for drawing
/// `target` (see `image_number`).
pub fn find_image_by_index(stems: &Vec<String>, target: u32) -> (r: Option<usize>)
    ensures
        match r {
            Some(i) => first_stem_for(Seq::new(stems@.len(), |k: int| stems@[k]@), target, 0) == Some(i as int),
            None => first_stem_for(Seq::new(stems@.len(), |k: int| stems@[k]@), target, 0) is None,
        },
{
    let ghost sv = Seq::new(stems@.len(), |k: int| stems@[k]@);
    let mut i: usize = 0;
    while i < stems.len()
        invariant
            sv == Seq::new(stems@.len(), |k: int| stems@[k]@),
            i <= stems@.len(),
            first_stem_for(sv, target, 0) == first_stem_for(sv, target, i as int),
        decreases stems.len() - i,
    {
        if image_number(stems[i].as_str()) == Some(target) {
            return Some(i);
        }
        i = i + 1;
    }
    None
}

/// `n` in decimal, padded with leading zeros to at least `width` digits.
pub open spec fn padded(n: nat, width: nat) -> Seq<char> {
    let d = decimal_digits(n);
    if d.len() < width { Seq::new((width - d.len()) as nat, |i: int| '0') + d } else { d }
}

/// The file names tried first for drawing `val`, in order: the number plain, then padded
/// to four and to three digits, each with the extensions png, jpg, tga and tif.
pub open spec fn image_name_candidates(val: u32) -> Seq<Seq<char>> {
    let exts = seq![".png"@, ".jpg"@, ".tga"@, ".tif"@];
    Seq::new(12, |i: int| padded(val as nat, if i < 4 { 0nat } else if i < 8 { 4nat } else { 3nat }) + exts[i % 4])
}

/// The file names tried first for drawing `val` (see `image_name_candidates`).
pub fn image_file_candidates(val: u32) -> (r: Vec<String>)
    ensures
        Seq::new(r@.len(), |i: int| r@[i]@) == image_name_candidates(val),
{
    let mut digits: Vec<char> = Vec::new();
    push_decimal(&mut digits, val as u64);
    let mut out: Vec<String> = Vec::new();
    let mut i: usize = 0;
    while i < 12
        invariant
            digits@ == decimal_digits(val as nat),
            i <= 12,
            out@.len() == i,
            forall|k: int| 0 <= k < i ==> (#[trigger] out@[k])@ == image_name_candidates(val)[k],
        decreases 12 - i,
    {
        let width: usize = if i < 4 { 0 } else if i < 8 { 4 } else { 3 };
        let mut name: Vec<char> = Vec::new();
        let mut z: usize = digits.len();
        while z < width
            invariant
                digits.len() <= z <= width || (width < digits.len() && z == digits.len()),
                name@ == Seq::new((z - digits@.len()) as nat, |q: int| '0'),
            decreases width - z,
        {
            name.push('0');
            z = z + 1;
            assert(name@ =~= Seq::new((z - digits@.len()) as nat, |q: int| '0'));
        }
        let mut k: usize = 0;
        let ghost zeros = name@;
        while k < digits.len()
            invariant
                k <= digits@.len(),
                name@ == zeros + digits@.take(k as int),
            decreases digits.len() - k,
        {
            name.push(digits[k]);
            k = k + 1;
            assert(name@ =~= zeros + digits@.take(k as int));
        }
        assert(digits@.take(digits@.len() as int) =~= digits@);
        let ext = if i % 4 == 0 { ".png" } else if i % 4 == 1 { ".jpg" } else if i % 4 == 2 { ".tga" } else { ".tif" };
        push_str_chars(&mut name, ext);
        assert(name@ =~= image_name_candidates(val)[i as int]);
        out.push(string_from_chars(&name));
        i = i + 1;
    }
    assert(Seq::new(out@.len(), |i: int| out@[i]@) =~= image_name_candidates(val));
    out
}

/// Whether a file extension, lowercased (see `lowercase_of`), names an image type that
/// the player counts: png, jpg, jpeg, tga, tif or tiff.
pub open spec fn image_extension(lower: Seq<char>) -> bool {
    lower == "png"@ || lower == "jpg"@ || lower == "jpeg"@ || lower == "tga"@ || lower == "tif"@ || lower == "tiff"@
}

/// Whether a file extension names an image type that the player counts (letter case
/// ignored).
pub fn is_image_extension(ext: &str) -> (b: bool)
    ensures
        b == image_extension(lowercase_of(ext@)),
{
    let lower = crate::settings::lowercase_str(ext);
    let l = str_chars(lower.as_str());
    let png = str_chars("png");
    let jpg = str_chars("jpg");
    let jpeg = str_chars("jpeg");
    let tga = str_chars("tga");
    let tif = str_chars("tif");
    let tiff = str_chars("tiff");
    crate::text::chars_eq(&l, &png) || crate::text::chars_eq(&l, &jpg) || crate::text::chars_eq(&l, &jpeg)
        || crate::text::chars_eq(&l, &tga) || crate::text::chars_eq(&l, &tif) || crate::text::chars_eq(&l, &tiff)
}

} // verus!
