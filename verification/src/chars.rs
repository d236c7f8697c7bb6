//! Character classes shared by the format validators, and the conversions
//! between `&str`, `Vec<char>` and decimal text that they rely on.

use vstd::prelude::*;

verus! {

/// A Unicode decimal digit: a character of general category `Nd`
/// (Unicode 16.0), the class that `\d` denotes in a Unicode-aware pattern.
pub open spec fn is_decimal_digit(c: char) -> bool {
    let u = c as u32;
        ||| 0x30 <= u <= 0x39
        ||| 0x660 <= u <= 0x669
        ||| 0x6F0 <= u <= 0x6F9
        ||| 0x7C0 <= u <= 0x7C9
        ||| 0x966 <= u <= 0x96F
        ||| 0x9E6 <= u <= 0x9EF
        ||| 0xA66 <= u <= 0xA6F
        ||| 0xAE6 <= u <= 0xAEF
        ||| 0xB66 <= u <= 0xB6F
        ||| 0xBE6 <= u <= 0xBEF
        ||| 0xC66 <= u <= 0xC6F
        ||| 0xCE6 <= u <= 0xCEF
        ||| 0xD66 <= u <= 0xD6F
        ||| 0xDE6 <= u <= 0xDEF
        ||| 0xE50 <= u <= 0xE59
        ||| 0xED0 <= u <= 0xED9
        ||| 0xF20 <= u <= 0xF29
        ||| 0x1040 <= u <= 0x1049
        ||| 0x1090 <= u <= 0x1099
        ||| 0x17E0 <= u <= 0x17E9
        ||| 0x1810 <= u <= 0x1819
        ||| 0x1946 <= u <= 0x194F
        ||| 0x19D0 <= u <= 0x19D9
        ||| 0x1A80 <= u <= 0x1A89
        ||| 0x1A90 <= u <= 0x1A99
        ||| 0x1B50 <= u <= 0x1B59
        ||| 0x1BB0 <= u <= 0x1BB9
        ||| 0x1C40 <= u <= 0x1C49
        ||| 0x1C50 <= u <= 0x1C59
        ||| 0xA620 <= u <= 0xA629
        ||| 0xA8D0 <= u <= 0xA8D9
        ||| 0xA900 <= u <= 0xA909
        ||| 0xA9D0 <= u <= 0xA9D9
        ||| 0xA9F0 <= u <= 0xA9F9
        ||| 0xAA50 <= u <= 0xAA59
        ||| 0xABF0 <= u <= 0xABF9
        ||| 0xFF10 <= u <= 0xFF19
        ||| 0x104A0 <= u <= 0x104A9
        ||| 0x10D30 <= u <= 0x10D39
        ||| 0x10D40 <= u <= 0x10D49
        ||| 0x11066 <= u <= 0x1106F
        ||| 0x110F0 <= u <= 0x110F9
        ||| 0x11136 <= u <= 0x1113F
        ||| 0x111D0 <= u <= 0x111D9
        ||| 0x112F0 <= u <= 0x112F9
        ||| 0x11450 <= u <= 0x11459
        ||| 0x114D0 <= u <= 0x114D9
        ||| 0x11650 <= u <= 0x11659
        ||| 0x116C0 <= u <= 0x116C9
        ||| 0x116D0 <= u <= 0x116E3
        ||| 0x11730 <= u <= 0x11739
        ||| 0x118E0 <= u <= 0x118E9
        ||| 0x11950 <= u <= 0x11959
        ||| 0x11BF0 <= u <= 0x11BF9
        ||| 0x11C50 <= u <= 0x11C59
        ||| 0x11D50 <= u <= 0x11D59
        ||| 0x11DA0 <= u <= 0x11DA9
        ||| 0x11F50 <= u <= 0x11F59
        ||| 0x16130 <= u <= 0x16139
        ||| 0x16A60 <= u <= 0x16A69
        ||| 0x16AC0 <= u <= 0x16AC9
        ||| 0x16B50 <= u <= 0x16B59
        ||| 0x16D70 <= u <= 0x16D79
        ||| 0x1CCF0 <= u <= 0x1CCF9
        ||| 0x1D7CE <= u <= 0x1D7FF
        ||| 0x1E140 <= u <= 0x1E149
        ||| 0x1E2F0 <= u <= 0x1E2F9
        ||| 0x1E4F0 <= u <= 0x1E4F9
        ||| 0x1E5F1 <= u <= 0x1E5FA
        ||| 0x1E950 <= u <= 0x1E959
        ||| 0x1FBF0 <= u <= 0x1FBF9

}

/// Executable test for [`is_decimal_digit`].
pub fn decimal_digit(c: char) -> (r: bool)
    ensures
        r == is_decimal_digit(c),
{
    let u = c as u32;
    (0x30 <= u && u <= 0x39) ||
        (0x660 <= u && u <= 0x669) ||
        (0x6F0 <= u && u <= 0x6F9) ||
        (0x7C0 <= u && u <= 0x7C9) ||
        (0x966 <= u && u <= 0x96F) ||
        (0x9E6 <= u && u <= 0x9EF) ||
        (0xA66 <= u && u <= 0xA6F) ||
        (0xAE6 <= u && u <= 0xAEF) ||
        (0xB66 <= u && u <= 0xB6F) ||
        (0xBE6 <= u && u <= 0xBEF) ||
        (0xC66 <= u && u <= 0xC6F) ||
        (0xCE6 <= u && u <= 0xCEF) ||
        (0xD66 <= u && u <= 0xD6F) ||
        (0xDE6 <= u && u <= 0xDEF) ||
        (0xE50 <= u && u <= 0xE59) ||
        (0xED0 <= u && u <= 0xED9) ||
        (0xF20 <= u && u <= 0xF29) ||
        (0x1040 <= u && u <= 0x1049) ||
        (0x1090 <= u && u <= 0x1099) ||
        (0x17E0 <= u && u <= 0x17E9) ||
        (0x1810 <= u && u <= 0x1819) ||
        (0x1946 <= u && u <= 0x194F) ||
        (0x19D0 <= u && u <= 0x19D9) ||
        (0x1A80 <= u && u <= 0x1A89) ||
        (0x1A90 <= u && u <= 0x1A99) ||
        (0x1B50 <= u && u <= 0x1B59) ||
        (0x1BB0 <= u && u <= 0x1BB9) ||
        (0x1C40 <= u && u <= 0x1C49) ||
        (0x1C50 <= u && u <= 0x1C59) ||
        (0xA620 <= u && u <= 0xA629) ||
        (0xA8D0 <= u && u <= 0xA8D9) ||
        (0xA900 <= u && u <= 0xA909) ||
        (0xA9D0 <= u && u <= 0xA9D9) ||
        (0xA9F0 <= u && u <= 0xA9F9) ||
        (0xAA50 <= u && u <= 0xAA59) ||
        (0xABF0 <= u && u <= 0xABF9) ||
        (0xFF10 <= u && u <= 0xFF19) ||
        (0x104A0 <= u && u <= 0x104A9) ||
        (0x10D30 <= u && u <= 0x10D39) ||
        (0x10D40 <= u && u <= 0x10D49) ||
        (0x11066 <= u && u <= 0x1106F) ||
        (0x110F0 <= u && u <= 0x110F9) ||
        (0x11136 <= u && u <= 0x1113F) ||
        (0x111D0 <= u && u <= 0x111D9) ||
        (0x112F0 <= u && u <= 0x112F9) ||
        (0x11450 <= u && u <= 0x11459) ||
        (0x114D0 <= u && u <= 0x114D9) ||
        (0x11650 <= u && u <= 0x11659) ||
        (0x116C0 <= u && u <= 0x116C9) ||
        (0x116D0 <= u && u <= 0x116E3) ||
        (0x11730 <= u && u <= 0x11739) ||
        (0x118E0 <= u && u <= 0x118E9) ||
        (0x11950 <= u && u <= 0x11959) ||
        (0x11BF0 <= u && u <= 0x11BF9) ||
        (0x11C50 <= u && u <= 0x11C59) ||
        (0x11D50 <= u && u <= 0x11D59) ||
        (0x11DA0 <= u && u <= 0x11DA9) ||
        (0x11F50 <= u && u <= 0x11F59) ||
        (0x16130 <= u && u <= 0x16139) ||
        (0x16A60 <= u && u <= 0x16A69) ||
        (0x16AC0 <= u && u <= 0x16AC9) ||
        (0x16B50 <= u && u <= 0x16B59) ||
        (0x16D70 <= u && u <= 0x16D79) ||
        (0x1CCF0 <= u && u <= 0x1CCF9) ||
        (0x1D7CE <= u && u <= 0x1D7FF) ||
        (0x1E140 <= u && u <= 0x1E149) ||
        (0x1E2F0 <= u && u <= 0x1E2F9) ||
        (0x1E4F0 <= u && u <= 0x1E4F9) ||
        (0x1E5F1 <= u && u <= 0x1E5FA) ||
        (0x1E950 <= u && u <= 0x1E959) ||
        (0x1FBF0 <= u && u <= 0x1FBF9)

}

/// A character with the Unicode `White_Space` property.
pub open spec fn is_white_space(c: char) -> bool {
    let u = c as u32;
    ||| 0x09 <= u <= 0x0D
    ||| u == 0x20
    ||| u == 0x85
    ||| u == 0xA0
    ||| u == 0x1680
    ||| 0x2000 <= u <= 0x200A
    ||| u == 0x2028
    ||| u == 0x2029
    ||| u == 0x202F
    ||| u == 0x205F
    ||| u == 0x3000
}

/// Executable test for [`is_white_space`].
pub fn white_space(c: char) -> (r: bool)
    ensures
        r == is_white_space(c),
{
    let u = c as u32;
    (0x09 <= u && u <= 0x0D) || u == 0x20 || u == 0x85 || u == 0xA0 || u == 0x1680 || (0x2000 <= u
        && u <= 0x200A) || u == 0x2028 || u == 0x2029 || u == 0x202F || u == 0x205F || u == 0x3000
}

/// An ASCII digit `0`..=`9`.
pub open spec fn is_ascii_digit(c: char) -> bool {
    0x30 <= (c as u32) <= 0x39
}

/// The code point that a character stands for when letters are compared
/// without regard to case: ASCII lower-case letters map to upper case, and
/// the two non-ASCII characters whose simple case folding lands on an ASCII
/// letter (KELVIN SIGN U+212A on `K`, LATIN SMALL LETTER LONG S U+017F on
/// `S`) map to that letter. Every other character maps to itself.
pub open spec fn folded(c: char) -> u32 {
    let u = c as u32;
    if 0x61 <= u <= 0x7A {
        (u - 0x20) as u32
    } else if u == 0x212A {
        0x4B
    } else if u == 0x17F {
        0x53
    } else {
        u
    }
}

/// Executable [`folded`].
pub fn fold(c: char) -> (r: u32)
    ensures
        r == folded(c),
{
    let u = c as u32;
    if 0x61 <= u && u <= 0x7A {
        u - 0x20
    } else if u == 0x212A {
        0x4B
    } else if u == 0x17F {
        0x53
    } else {
        u
    }
}

/// A Latin letter `a`..=`z` matched without regard to case.
pub open spec fn is_letter_ci(c: char) -> bool {
    0x41 <= folded(c) <= 0x5A
}

/// The characters of a string slice, in order.
pub fn char_vec(s: &str) -> (v: Vec<char>)
    ensures
        v@ == s@,
{
    let n = s.unicode_len();
    let mut v: Vec<char> = Vec::new();
    let mut i: usize = 0;
    while i < n
        invariant
            n == s@.len(),
            i <= n,
            v@ == s@.subrange(0, i as int),
        decreases n - i,
    {
        let c = s.get_char(i);
        v.push(c);
        i = i + 1;
        assert(v@ =~= s@.subrange(0, i as int));
    }
    assert(v@ =~= s@);
    v
}

/// The decimal representation of `n`, most significant digit first, with no
/// leading zeros (`0` is written as a single `0`).
pub open spec fn decimal(n: nat) -> Seq<char>
    decreases n,
{
    if n < 10 {
        seq![digit_char(n)]
    } else {
        decimal(n / 10).push(digit_char(n % 10))
    }
}

/// The ASCII digit for `d < 10`.
pub open spec fn digit_char(d: nat) -> char {
    if d == 0 { '0' }
    else if d == 1 { '1' }
    else if d == 2 { '2' }
    else if d == 3 { '3' }
    else if d == 4 { '4' }
    else if d == 5 { '5' }
    else if d == 6 { '6' }
    else if d == 7 { '7' }
    else if d == 8 { '8' }
    else { '9' }
}

fn digit_str(d: usize) -> (r: &'static str)
    requires
        d < 10,
    ensures
        r@ == seq![digit_char(d as nat)],
{
    proof {
        reveal_strlit("0");
        reveal_strlit("1");
        reveal_strlit("2");
        reveal_strlit("3");
        reveal_strlit("4");
        reveal_strlit("5");
        reveal_strlit("6");
        reveal_strlit("7");
        reveal_strlit("8");
        reveal_strlit("9");
    }
    if d == 0 { "0" }
    else if d == 1 { "1" }
    else if d == 2 { "2" }
    else if d == 3 { "3" }
    else if d == 4 { "4" }
    else if d == 5 { "5" }
    else if d == 6 { "6" }
    else if d == 7 { "7" }
    else if d == 8 { "8" }
    else { "9" }
}

/// Appends the decimal representation of `n` to `out`.
pub fn push_decimal(out: &mut String, n: usize)
    ensures
        final(out)@ == old(out)@ + decimal(n as nat),
    decreases n,
{
    if n < 10 {
        out.append(digit_str(n));
    } else {
        push_decimal(out, n / 10);
        out.append(digit_str(n % 10));
    }
}

/// Whether two string slices hold the same characters.
pub fn same_text(a: &str, b: &str) -> (r: bool)
    ensures
        r == (a@ == b@),
{
    let va = char_vec(a);
    let vb = char_vec(b);
    if va.len() != vb.len() {
        assert(a@.len() != b@.len());
        return false;
    }
    let n = va.len();
    let mut i: usize = 0;
    while i < n
        invariant
            n == va@.len() == vb@.len(),
            va@ == a@,
            vb@ == b@,
            i <= n,
            forall|k: int| 0 <= k < i ==> va@[k] == vb@[k],
        decreases n - i,
    {
        if va[i] != vb[i] {
            assert(a@[i as int] != b@[i as int]);
            return false;
        }
        i = i + 1;
    }
    assert(va@ =~= vb@);
    true
}

} // verus!
