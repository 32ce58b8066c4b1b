//! Character-level helpers: building strings, decimal rendering and parsing.

use vstd::prelude::*;

verus! {

/// Appends one character to a string (`String::push`).
#[verifier::external_body]
pub fn push_char(s: &mut String, c: char)
    ensures
        final(s)@ == old(s)@.push(c),
{
    s.push(c);
}

/// Builds a string whose characters are exactly `chars`.
pub fn string_from_chars(chars: &Vec<char>) -> (s: String)
    ensures
        s@ == chars@,
{
    let mut s = String::new();
    let mut i: usize = 0;
    while i < chars.len()
        invariant
            i <= chars.len(),
            s@ == chars@.subrange(0, i as int),
        decreases chars.len() - i,
    {
        push_char(&mut s, chars[i]);
        i = i + 1;
        assert(s@ =~= chars@.subrange(0, i as int));
    }
    assert(chars@.subrange(0, chars.len() as int) =~= chars@);
    s
}

/// The decimal digit character for `d < 10`.
pub open spec fn digit_char(d: nat) -> char {
    (48 + d) as char
}

/// The decimal representation of `n` (no sign, no leading zeros).
pub open spec fn decimal_digits(n: nat) -> Seq<char>
    decreases n,
{
    if n < 10 {
        seq![digit_char(n)]
    } else {
        decimal_digits(n / 10).push(digit_char(n % 10))
    }
}

/// Reverses a vector of characters.
pub fn reversed(v: &Vec<char>) -> (r: Vec<char>)
    ensures
        r@ == v@.reverse(),
{
    let mut out: Vec<char> = Vec::new();
    let mut k: usize = v.len();
    while k > 0
        invariant
            k <= v@.len(),
            out@ == v@.subrange(k as int, v@.len() as int).reverse(),
        decreases k,
    {
        k = k - 1;
        out.push(v[k]);
        assert(out@ =~= v@.subrange(k as int, v@.len() as int).reverse());
    }
    assert(v@.subrange(0, v@.len() as int) =~= v@);
    out
}

/// Appends the decimal digits of `n` to `out`.
pub fn push_decimal(out: &mut Vec<char>, n: u64)
    ensures
        final(out)@ == old(out)@ + decimal_digits(n as nat),
{
    let mut rev: Vec<char> = Vec::new();
    let mut m: u64 = n;
    loop
        invariant_except_break
            decimal_digits(n as nat) == decimal_digits(m as nat) + rev@.reverse(),
        ensures
            decimal_digits(n as nat) == rev@.reverse(),
        decreases m,
    {
        let c = (48u8 + (m % 10) as u8) as char;
        rev.push(c);
        if m < 10 {
            proof {
                assert(decimal_digits(m as nat) == seq![c]);
                assert(rev@.reverse() =~= seq![c] + rev@.drop_last().reverse());
            }
            break;
        }
        proof {
            assert(decimal_digits(m as nat) == decimal_digits((m / 10) as nat).push(c));
            assert(rev@.reverse() =~= seq![c] + rev@.drop_last().reverse());
        }
        m = m / 10;
    }
    let digits = reversed(&rev);
    let mut i: usize = 0;
    let ghost o0 = out@;
    while i < digits.len()
        invariant
            i <= digits@.len(),
            out@ == o0 + digits@.subrange(0, i as int),
        decreases digits.len() - i,
    {
        out.push(digits[i]);
        i = i + 1;
        assert(out@ =~= o0 + digits@.subrange(0, i as int));
    }
    assert(digits@.subrange(0, digits@.len() as int) =~= digits@);
}

/// The decimal representation of `n` as a string.
pub fn decimal_string(n: u64) -> (s: String)
    ensures
        s@ == decimal_digits(n as nat),
{
    let mut v: Vec<char> = Vec::new();
    push_decimal(&mut v, n);
    assert(v@ =~= decimal_digits(n as nat));
    string_from_chars(&v)
}

/// Appends all characters of `s` to `out`.
pub fn push_str_chars(out: &mut Vec<char>, s: &str)
    ensures
        final(out)@ == old(out)@ + s@,
{
    let ghost o0 = out@;
    let n = s.unicode_len();
    let mut i: usize = 0;
    while i < n
        invariant
            n == s@.len(),
            i <= n,
            out@ == o0 + s@.subrange(0, i as int),
        decreases n - i,
    {
        out.push(s.get_char(i));
        i = i + 1;
        assert(out@ =~= o0 + s@.subrange(0, i as int));
    }
    assert(s@.subrange(0, n as int) =~= s@);
}

/// The characters of `s`, in order.
pub fn str_chars(s: &str) -> (v: Vec<char>)
    ensures
        v@ == s@,
{
    let mut v: Vec<char> = Vec::new();
    for c in it: s.chars()
        invariant
            it.seq() == s@,
            v@ == it.seq().take(it.index() as int),
    {
        v.push(c);
    }
    v
}

/// Whether `c` has the Unicode White_Space property (as `char::is_whitespace`).
pub open spec fn is_white(c: char) -> bool {
    let u = c as u32;
    ||| (0x09 <= u && u <= 0x0D)
    ||| u == 0x20
    ||| u == 0x85
    ||| u == 0xA0
    ||| u == 0x1680
    ||| (0x2000 <= u && u <= 0x200A)
    ||| u == 0x2028
    ||| u == 0x2029
    ||| u == 0x202F
    ||| u == 0x205F
    ||| u == 0x3000
}

/// Whether `c` is a white-space character.
pub fn is_white_char(c: char) -> (b: bool)
    ensures
        b == is_white(c),
{
    let u = c as u32;
    (0x09 <= u && u <= 0x0D) || u == 0x20 || u == 0x85 || u == 0xA0 || u == 0x1680
        || (0x2000 <= u && u <= 0x200A) || u == 0x2028 || u == 0x2029 || u == 0x202F
        || u == 0x205F || u == 0x3000
}

/// The number of leading white-space characters of `s`.
pub open spec fn lead_ws(s: Seq<char>) -> nat
    decreases s.len(),
{
    if s.len() > 0 && is_white(s[0]) { 1 + lead_ws(s.drop_first()) } else { 0 }
}

/// The number of trailing white-space characters of `s`.
pub open spec fn trail_ws(s: Seq<char>) -> nat
    decreases s.len(),
{
    if s.len() > 0 && is_white(s.last()) { 1 + trail_ws(s.drop_last()) } else { 0 }
}

/// `s` without leading and trailing white space (as `str::trim`).
pub open spec fn trimmed(s: Seq<char>) -> Seq<char> {
    let a = lead_ws(s) as int;
    if a == s.len() {
        Seq::empty()
    } else {
        s.subrange(a, s.len() - trail_ws(s) as int)
    }
}

proof fn lemma_lead_ws(s: Seq<char>, i: int)
    requires
        0 <= i <= s.len(),
        forall|j: int| 0 <= j < i ==> is_white(#[trigger] s[j]),
    ensures
        lead_ws(s) >= i,
        lead_ws(s) <= s.len(),
        i == s.len() || !is_white(s[i]) ==> lead_ws(s) == i,
    decreases i,
{
    lemma_lead_ws_le(s);
    if i > 0 {
        let t = s.drop_first();
        assert forall|j: int| 0 <= j < i - 1 implies is_white(#[trigger] t[j]) by {
            assert(t[j] == s[j + 1]);
        }
        lemma_lead_ws(t, i - 1);
        if i < s.len() {
            assert(t[i - 1] == s[i]);
        }
    }
}

proof fn lemma_lead_ws_le(s: Seq<char>)
    ensures
        lead_ws(s) <= s.len(),
    decreases s.len(),
{
    if s.len() > 0 {
        lemma_lead_ws_le(s.drop_first());
    }
}

proof fn lemma_trail_ws(s: Seq<char>, i: int)
    requires
        0 <= i <= s.len(),
        forall|j: int| s.len() - i <= j < s.len() ==> is_white(#[trigger] s[j]),
    ensures
        trail_ws(s) >= i,
        trail_ws(s) <= s.len(),
        i == s.len() || !is_white(s[s.len() - 1 - i]) ==> trail_ws(s) == i,
    decreases i,
{
    lemma_trail_ws_le(s);
    if i > 0 {
        let t = s.drop_last();
        assert forall|j: int| t.len() - (i - 1) <= j < t.len() implies is_white(#[trigger] t[j]) by {
            assert(t[j] == s[j]);
        }
        lemma_trail_ws(t, i - 1);
        if i < s.len() {
            assert(t[t.len() - 1 - (i - 1)] == s[s.len() - 1 - i]);
        }
    }
}

proof fn lemma_trail_ws_le(s: Seq<char>)
    ensures
        trail_ws(s) <= s.len(),
    decreases s.len(),
{
    if s.len() > 0 {
        lemma_trail_ws_le(s.drop_last());
    }
}

proof fn lemma_lead_ws_stops(s: Seq<char>)
    ensures
        lead_ws(s) <= s.len(),
        forall|j: int| 0 <= j < lead_ws(s) ==> is_white(#[trigger] s[j]),
        lead_ws(s) < s.len() ==> !is_white(s[lead_ws(s) as int]),
    decreases s.len(),
{
    if s.len() > 0 && is_white(s[0]) {
        let t = s.drop_first();
        lemma_lead_ws_stops(t);
        assert forall|j: int| 0 <= j < lead_ws(s) implies is_white(#[trigger] s[j]) by {
            if j > 0 {
                assert(s[j] == t[j - 1]);
            }
        }
        if lead_ws(s) < s.len() {
            assert(s[lead_ws(s) as int] == t[lead_ws(t) as int]);
        }
    }
}

proof fn lemma_trail_ws_stops(s: Seq<char>)
    ensures
        trail_ws(s) <= s.len(),
        forall|j: int| s.len() - trail_ws(s) <= j < s.len() ==> is_white(#[trigger] s[j]),
        trail_ws(s) < s.len() ==> !is_white(s[s.len() - 1 - trail_ws(s)]),
    decreases s.len(),
{
    if s.len() > 0 && is_white(s.last()) {
        let t = s.drop_last();
        lemma_trail_ws_stops(t);
        assert forall|j: int| s.len() - trail_ws(s) <= j < s.len() implies is_white(#[trigger] s[j]) by {
            if j < s.len() - 1 {
                assert(s[j] == t[j]);
            }
        }
        if trail_ws(s) < s.len() {
            assert(s[s.len() - 1 - trail_ws(s)] == t[t.len() - 1 - trail_ws(t)]);
        }
    }
}

/// Trimmed text starts and ends with a character other than white space, so trimming it
/// again changes nothing.
pub proof fn lemma_trimmed_idempotent(s: Seq<char>)
    ensures
        trimmed(s).len() > 0 ==> !is_white(trimmed(s)[0]) && !is_white(trimmed(s).last()),
        trimmed(trimmed(s)) == trimmed(s),
{
    lemma_lead_ws_stops(s);
    lemma_trail_ws_stops(s);
    let a = lead_ws(s) as int;
    let t = trimmed(s);
    if a < s.len() {
        let b = s.len() - trail_ws(s) as int;
        assert(a < b) by {
            if a >= b {
                assert(is_white(s[a]));
            }
        }
        assert(t[0] == s[a]);
        assert(t.last() == s[b - 1]);
        lemma_lead_ws(t, 0);
        lemma_trail_ws(t, 0);
        assert(t.subrange(0, t.len() as int) =~= t);
    } else {
        assert(t.len() == 0);
        assert(lead_ws(t) == 0);
    }
}

/// Trimming keeps a run of `s` with only white space before and after it, and that run
/// neither starts nor ends with white space (it is empty only when `s` is all white space).
pub proof fn lemma_trimmed_is_core(s: Seq<char>)
    ensures
        exists|a: int, b: int| 0 <= a <= b <= s.len() && #[trigger] s.subrange(a, b) == trimmed(s)
            && (forall|k: int| 0 <= k < a ==> is_white(#[trigger] s[k]))
            && (forall|k: int| b <= k < s.len() ==> is_white(#[trigger] s[k])),
        trimmed(s).len() == 0 <==> (forall|k: int| 0 <= k < s.len() ==> is_white(#[trigger] s[k])),
{
    lemma_lead_ws_stops(s);
    lemma_trail_ws_stops(s);
    lemma_trimmed_idempotent(s);
    let a = lead_ws(s) as int;
    if a < s.len() {
        let b = s.len() - trail_ws(s) as int;
        assert(a < b) by {
            if a >= b {
                assert(is_white(s[a]));
            }
        }
        assert(s.subrange(a, b) == trimmed(s));
        assert(!is_white(s[a]));
    } else {
        assert(s.subrange(a, a) =~= trimmed(s));
        assert forall|k: int| a <= k < s.len() implies is_white(#[trigger] s[k]) by {}
    }
}

/// Text that neither starts nor ends with white space is left as it is by trimming.
pub proof fn lemma_trimmed_unchanged(s: Seq<char>)
    requires
        s.len() > 0,
        !is_white(s[0]),
        !is_white(s.last()),
    ensures
        trimmed(s) == s,
{
    lemma_lead_ws(s, 0);
    lemma_trail_ws(s, 0);
    assert(s.subrange(0, s.len() as int) =~= s);
}

/// The decimal numeral of `n`: digits only, nothing to trim, and it reads back as `n`.
pub proof fn lemma_decimal_digits_read_back(n: nat)
    ensures
        decimal_digits(n).len() >= 1,
        all_digits(decimal_digits(n)),
        digits_value(decimal_digits(n)) == n,
        trimmed(decimal_digits(n)) == decimal_digits(n),
    decreases n,
{
    let s = decimal_digits(n);
    if n < 10 {
        assert(digit_char(n) as nat == 48 + n);
        assert(s.drop_last() =~= Seq::<char>::empty());
        assert(digits_value(s) == digits_value(s.drop_last()) * 10 + ((s.last() as nat) - 48) as nat);
    } else {
        lemma_decimal_digits_read_back(n / 10);
        let t = decimal_digits(n / 10);
        assert(digit_char(n % 10) as nat == 48 + n % 10);
        assert(s.drop_last() =~= t);
        assert forall|i: int| 0 <= i < s.len() implies '0' <= #[trigger] s[i] <= '9' by {
            if i < s.len() - 1 {
                assert(s[i] == t[i]);
            }
        }
        assert(n == (n / 10) * 10 + n % 10);
        assert(s.last() == digit_char(n % 10));
        assert(digits_value(s) == digits_value(s.drop_last()) * 10 + ((s.last() as nat) - 48) as nat);
        assert(((s.last() as nat) - 48) as nat == n % 10);
    }
    assert('0' <= s[0] <= '9');
    assert('0' <= s.last() <= '9');
    lemma_trimmed_unchanged(s);
}

/// `s` without leading and trailing white space, as characters.
pub fn trim_chars(s: &Vec<char>) -> (r: Vec<char>)
    ensures
        r@ == trimmed(s@),
{
    let n = s.len();
    let mut a: usize = 0;
    while a < n && is_white_char(s[a])
        invariant
            n == s@.len(),
            a <= n,
            forall|j: int| 0 <= j < a ==> is_white(#[trigger] s@[j]),
        decreases n - a,
    {
        a = a + 1;
    }
    proof { lemma_lead_ws(s@, a as int); }
    if a == n {
        return Vec::new();
    }
    let mut z: usize = 0;
    while z < n - a && is_white_char(s[n - 1 - z])
        invariant
            n == s@.len(),
            a < n,
            z <= n - a,
            forall|j: int| n - z <= j < n ==> is_white(#[trigger] s@[j]),
        decreases n - a - z,
    {
        z = z + 1;
    }
    // the first non-white character stops the backward scan before reaching `a`
    assert(z < n - a) by {
        if z == n - a {
            assert(is_white(s@[a as int]));
        }
    }
    proof { lemma_trail_ws(s@, z as int); }
    let mut r: Vec<char> = Vec::new();
    let mut k: usize = a;
    while k < n - z
        invariant
            n == s@.len(),
            a <= k <= n - z,
            r@ == s@.subrange(a as int, k as int),
        decreases n - z - k,
    {
        r.push(s[k]);
        k = k + 1;
        assert(r@ =~= s@.subrange(a as int, k as int));
    }
    r
}

/// The value of a run of ASCII decimal digits.
pub open spec fn digits_value(s: Seq<char>) -> nat
    decreases s.len(),
{
    if s.len() == 0 { 0 } else { digits_value(s.drop_last()) * 10 + ((s.last() as nat) - 48) as nat }
}

/// Whether every character of `s` is an ASCII decimal digit.
pub open spec fn all_digits(s: Seq<char>) -> bool {
    forall|i: int| 0 <= i < s.len() ==> '0' <= #[trigger] s[i] <= '9'
}

/// What `str::parse::<u32>` gives for `s`: an optional `+` sign, then one or more ASCII
/// digits whose value fits in 32 bits.
pub open spec fn parse_u32_spec(s: Seq<char>) -> Option<u32> {
    let d = if s.len() > 1 && s[0] == '+' { s.drop_first() } else { s };
    if s.len() > 0 && all_digits(d) && digits_value(d) <= u32::MAX {
        Some(digits_value(d) as u32)
    } else {
        None
    }
}

/// Parses `s` as a `u32` the way `str::parse::<u32>` does.
pub fn parse_u32(s: &Vec<char>) -> (r: Option<u32>)
    ensures
        r == parse_u32_spec(s@),
{
    if s.len() == 0 {
        return None;
    }
    let start: usize = if s.len() > 1 && s[0] == '+' { 1 } else { 0 };
    let ghost d = if s@.len() > 1 && s@[0] == '+' { s@.drop_first() } else { s@ };
    assert(d =~= s@.subrange(start as int, s@.len() as int));
    let mut value: u64 = 0;
    let mut i: usize = start;
    while i < s.len()
        invariant
            start <= i <= s@.len(),
            s@.len() > 0,
            d == (if s@.len() > 1 && s@[0] == '+' { s@.drop_first() } else { s@ }),
            d == s@.subrange(start as int, s@.len() as int),
            all_digits(s@.subrange(start as int, i as int)),
            value == digits_value(s@.subrange(start as int, i as int)),
            value <= u32::MAX,
        decreases s.len() - i,
    {
        let c = s[i];
        if c < '0' || c > '9' {
            assert(!all_digits(d)) by {
                assert(d[i - start] == c);
            }
            return None;
        }
        let dv = (c as u32 - 48) as u64;
        let next = value * 10 + dv;
        assert(s@.subrange(start as int, i + 1).drop_last() =~= s@.subrange(start as int, i as int));
        if next > u32::MAX as u64 {
            proof {
                if all_digits(d) {
                    lemma_digits_value_prefix(d, (i + 1 - start) as int);
                    assert(d.subrange(0, (i + 1 - start) as int) =~= s@.subrange(start as int, i + 1));
                }
            }
            return None;
        }
        value = next;
        i = i + 1;
        assert(all_digits(s@.subrange(start as int, i as int)));
    }
    Some(value as u32)
}

proof fn lemma_digits_value_prefix(s: Seq<char>, k: int)
    requires
        0 <= k <= s.len(),
        all_digits(s),
    ensures
        digits_value(s) >= digits_value(s.subrange(0, k)),
    decreases s.len() - k,
{
    if k < s.len() {
        lemma_digits_value_prefix(s, k + 1);
        assert(s.subrange(0, k + 1).drop_last() =~= s.subrange(0, k));
        assert(digits_value(s.subrange(0, k + 1)) >= digits_value(s.subrange(0, k))) by (nonlinear_arith)
            requires digits_value(s.subrange(0, k + 1)) == digits_value(s.subrange(0, k)) * 10
                + ((s.subrange(0, k + 1).last() as nat) - 48) as nat;
    } else {
        assert(s.subrange(0, k) =~= s);
    }
}

/// One more item of a mapped sequence adds its image at the end of the flattening.
pub proof fn lemma_flatten_new_step(f: spec_fn(int) -> Seq<char>, i: nat)
    ensures
        Seq::new(i + 1, f).flatten() == Seq::new(i, f).flatten() + f(i as int),
{
    assert(Seq::new(i + 1, f) =~= Seq::new(i, f).push(f(i as int)));
    Seq::new(i, f).lemma_flatten_push(f(i as int));
}

/// Appends `src` to `out`.
pub fn push_chars(out: &mut Vec<char>, src: &Vec<char>)
    ensures
        final(out)@ == old(out)@ + src@,
{
    let ghost o0 = out@;
    let mut i: usize = 0;
    while i < src.len()
        invariant
            i <= src@.len(),
            out@ == o0 + src@.subrange(0, i as int),
        decreases src.len() - i,
    {
        out.push(src[i]);
        i = i + 1;
        assert(out@ =~= o0 + src@.subrange(0, i as int));
    }
    assert(src@.subrange(0, src@.len() as int) =~= src@);
}

/// Whether two character vectors are equal.
pub fn chars_eq(a: &Vec<char>, b: &Vec<char>) -> (r: bool)
    ensures
        r == (a@ == b@),
{
    if a.len() != b.len() {
        return false;
    }
    let mut i: usize = 0;
    while i < a.len()
        invariant
            a@.len() == b@.len(),
            i <= a@.len(),
            forall|j: int| 0 <= j < i ==> a@[j] == b@[j],
        decreases a.len() - i,
    {
        if a[i] != b[i] {
            return false;
        }
        i = i + 1;
    }
    assert(a@ =~= b@);
    true
}

/// The pieces of `s` between occurrences of `sep` (as `str::split` with a char):
/// always at least one piece.
pub open spec fn split_seq(s: Seq<char>, sep: char) -> Seq<Seq<char>>
    decreases s.len(),
{
    if s.len() == 0 {
        seq![Seq::empty()]
    } else {
        let p = split_seq(s.drop_last(), sep);
        if s.last() == sep {
            p.push(Seq::empty())
        } else {
            p.update(p.len() - 1, p.last().push(s.last()))
        }
    }
}

proof fn lemma_split_seq_nonempty(s: Seq<char>, sep: char)
    ensures
        split_seq(s, sep).len() >= 1,
    decreases s.len(),
{
    if s.len() > 0 {
        lemma_split_seq_nonempty(s.drop_last(), sep);
    }
}

/// Text without `sep` is a single piece.
pub proof fn lemma_split_no_sep(b: Seq<char>, sep: char)
    requires
        forall|k: int| 0 <= k < b.len() ==> #[trigger] b[k] != sep,
    ensures
        split_seq(b, sep) == seq![b],
    decreases b.len(),
{
    if b.len() > 0 {
        lemma_split_no_sep(b.drop_last(), sep);
        assert(b.drop_last().push(b.last()) =~= b);
        assert(seq![b.drop_last()].update(0, b.drop_last().push(b.last())) =~= seq![b]);
    } else {
        assert(b =~= Seq::<char>::empty());
    }
}

/// Text, a separator and a piece without separators split into the pieces of the text
/// followed by that piece.
pub proof fn lemma_split_append(a: Seq<char>, b: Seq<char>, sep: char)
    requires
        forall|k: int| 0 <= k < b.len() ==> #[trigger] b[k] != sep,
    ensures
        split_seq(a + seq![sep] + b, sep) == split_seq(a, sep).push(b),
    decreases b.len(),
{
    lemma_split_seq_nonempty(a, sep);
    let t = a + seq![sep] + b;
    if b.len() == 0 {
        assert(t.drop_last() =~= a);
        assert(b =~= Seq::<char>::empty());
    } else {
        let b1 = b.drop_last();
        lemma_split_append(a, b1, sep);
        assert(t.drop_last() =~= a + seq![sep] + b1);
        assert(t.last() == b.last());
        let p = split_seq(a, sep).push(b1);
        assert(b1.push(b.last()) =~= b);
        assert(p.update(p.len() - 1, b1.push(b.last())) =~= split_seq(a, sep).push(b));
    }
}

/// Splits `s` at every `sep`.
pub fn split_chars(s: &Vec<char>, sep: char) -> (pieces: Vec<Vec<char>>)
    ensures
        Seq::new(pieces@.len(), |i: int| pieces@[i]@) == split_seq(s@, sep),
{
    let mut pieces: Vec<Vec<char>> = Vec::new();
    let mut cur: Vec<char> = Vec::new();
    let mut i: usize = 0;
    assert(s@.subrange(0, 0) =~= Seq::<char>::empty());
    while i < s.len()
        invariant
            i <= s@.len(),
            Seq::new(pieces@.len(), |k: int| pieces@[k]@).push(cur@) == split_seq(s@.subrange(0, i as int), sep),
        decreases s.len() - i,
    {
        let ghost sub = s@.subrange(0, i + 1);
        assert(sub.drop_last() =~= s@.subrange(0, i as int));
        let ghost before = Seq::new(pieces@.len(), |k: int| pieces@[k]@);
        proof { lemma_split_seq_nonempty(s@.subrange(0, i as int), sep); }
        if s[i] == sep {
            let mut done: Vec<char> = Vec::new();
            std::mem::swap(&mut done, &mut cur);
            pieces.push(done);
            assert(Seq::new(pieces@.len(), |k: int| pieces@[k]@) =~= before.push(done@));
        } else {
            let ghost old_cur = cur@;
            cur.push(s[i]);
            assert(before.push(cur@) =~= before.push(old_cur).update(before.len() as int,
                before.push(old_cur).last().push(s@[i as int])));
        }
        i = i + 1;
    }
    assert(s@.subrange(0, s@.len() as int) =~= s@);
    let ghost before = Seq::new(pieces@.len(), |k: int| pieces@[k]@);
    pieces.push(cur);
    assert(Seq::new(pieces@.len(), |k: int| pieces@[k]@) =~= before.push(pieces@[pieces@.len() - 1]@));
    pieces
}

/// `x` without one trailing carriage return.
pub open spec fn strip_cr(x: Seq<char>) -> Seq<char> {
    if x.len() > 0 && x.last() == '\r' { x.drop_last() } else { x }
}

/// The lines of `s` (as `str::lines`): split at '\n', a final empty line dropped, and a
/// '\r' before a '\n' removed.
pub open spec fn lines_seq(s: Seq<char>) -> Seq<Seq<char>> {
    let p = split_seq(s, '\n');
    if s.len() == 0 {
        Seq::empty()
    } else if s.last() == '\n' {
        Seq::new((p.len() - 1) as nat, |i: int| strip_cr(p[i]))
    } else {
        Seq::new(p.len(), |i: int| if i < p.len() - 1 { strip_cr(p[i]) } else { p[i] })
    }
}

fn strip_cr_chars(x: Vec<char>) -> (r: Vec<char>)
    ensures
        r@ == strip_cr(x@),
{
    let mut x = x;
    if x.len() > 0 && x[x.len() - 1] == '\r' {
        x.pop();
    }
    x
}

/// The lines of `s`.
pub fn lines_chars(s: &Vec<char>) -> (lines: Vec<Vec<char>>)
    ensures
        Seq::new(lines@.len(), |i: int| lines@[i]@) == lines_seq(s@),
{
    if s.len() == 0 {
        let v: Vec<Vec<char>> = Vec::new();
        assert(Seq::new(v@.len(), |i: int| v@[i]@) =~= lines_seq(s@));
        return v;
    }
    let pieces = split_chars(s, '\n');
    let ghost p = split_seq(s@, '\n');
    proof { lemma_split_seq_nonempty(s@, '\n'); }
    let ends = s[s.len() - 1] == '\n';
    let count = if ends { pieces.len() - 1 } else { pieces.len() };
    let mut out: Vec<Vec<char>> = Vec::new();
    let mut i: usize = 0;
    while i < count
        invariant
            Seq::new(pieces@.len(), |k: int| pieces@[k]@) == p,
            p.len() >= 1,
            count <= pieces@.len(),
            count == (if ends { p.len() - 1 } else { p.len() as int }),
            i <= count,
            out@.len() == i,
            forall|k: int| 0 <= k < i ==> #[trigger] out@[k]@
                == (if ends || k < p.len() - 1 { strip_cr(p[k]) } else { p[k] }),
        decreases count - i,
    {
        let piece = pieces[i].clone();
        assert(piece@ == p[i as int]);
        if ends || i + 1 < pieces.len() {
            out.push(strip_cr_chars(piece));
        } else {
            out.push(piece);
        }
        i = i + 1;
    }
    assert(Seq::new(out@.len(), |k: int| out@[k]@) =~= lines_seq(s@));
    out
}

/// Whether `c` is an ASCII letter.
pub open spec fn is_ascii_letter(c: char) -> bool {
    ('a' <= c && c <= 'z') || ('A' <= c && c <= 'Z')
}

/// The 1-based alphabet position of an ASCII letter (A or a is 1).
pub open spec fn letter_number(c: char) -> u32 {
    if 'a' <= c && c <= 'z' { ((c as u32) - 96) as u32 } else { ((c as u32) - 64) as u32 }
}

/// The 1-based alphabet position of an ASCII letter.
pub fn letter_value(c: char) -> (n: u32)
    requires
        is_ascii_letter(c),
    ensures
        n == letter_number(c),
        1 <= n <= 26,
{
    if 'a' <= c && c <= 'z' { (c as u32) - 96 } else { (c as u32) - 64 }
}

/// Lines joined with '\n' between them.
pub open spec fn joined_lines(ls: Seq<Seq<char>>) -> Seq<char>
    decreases ls.len(),
{
    if ls.len() == 0 {
        Seq::empty()
    } else if ls.len() == 1 {
        ls[0]
    } else {
        joined_lines(ls.drop_last()) + seq!['\n'] + ls.last()
    }
}

/// The text after its first line: the remaining lines (see `lines_seq`) joined with '\n'.
pub fn after_first_line(content: &str) -> (r: String)
    ensures
        r@ == joined_lines(if lines_seq(content@).len() == 0 { Seq::empty() } else { lines_seq(content@).drop_first() }),
{
    let chars = str_chars(content);
    let lines = lines_chars(&chars);
    let ghost lv = lines_seq(content@);
    let mut out: Vec<char> = Vec::new();
    if lines.len() == 0 {
        return string_from_chars(&out);
    }
    let mut i: usize = 1;
    while i < lines.len()
        invariant
            Seq::new(lines@.len(), |k: int| lines@[k]@) == lv,
            1 <= i <= lines@.len(),
            out@ == joined_lines(lv.subrange(1, i as int)),
        decreases lines.len() - i,
    {
        if i > 1 {
            out.push('\n');
        }
        push_chars(&mut out, &lines[i]);
        assert(lv.subrange(1, i + 1).drop_last() =~= lv.subrange(1, i as int));
        assert(out@ =~= joined_lines(lv.subrange(1, i + 1)));
        i = i + 1;
    }
    assert(lv.subrange(1, lv.len() as int) =~= lv.drop_first());
    string_from_chars(&out)
}

} // verus!
