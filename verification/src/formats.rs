//! The textual formats that the field validators accept, each stated as a
//! predicate on the sequence of characters, together with an executable
//! recogniser proved equal to it.
//!
//! Letters are compared without regard to case where the format says so
//! (`folded`), digits written `\d` are Unicode decimal digits, and
//! "white space" is the Unicode `White_Space` property.

use vstd::prelude::*;
use crate::chars::{
    decimal_digit, fold, folded, is_ascii_digit, is_decimal_digit, is_letter_ci, is_white_space,
    white_space,
};

verus! {

/// The character classes that the formats are built from.
#[derive(Clone, Copy)]
pub enum CharClass {
    /// Letters (any case), ASCII digits and `. _ % + -`: an e-mail local part.
    EmailLocal,
    /// Letters (any case), ASCII digits and `. -`: an e-mail domain.
    EmailDomain,
    /// Letters `a`..=`z` in any case.
    Letter,
    /// Unicode decimal digits.
    Decimal,
    /// Hexadecimal digits `0-9 a-f` in any case.
    Hex,
    /// Anything but Unicode white space.
    NotWhiteSpace,
}

/// Membership of `c` in `class`.
pub open spec fn in_class(class: CharClass, c: char) -> bool {
    match class {
        CharClass::EmailLocal => is_letter_ci(c) || is_ascii_digit(c) || c == '.' || c == '_'
            || c == '%' || c == '+' || c == '-',
        CharClass::EmailDomain => is_letter_ci(c) || is_ascii_digit(c) || c == '.' || c == '-',
        CharClass::Letter => is_letter_ci(c),
        CharClass::Decimal => is_decimal_digit(c),
        CharClass::Hex => is_ascii_digit(c) || (0x41 <= folded(c) <= 0x46),
        CharClass::NotWhiteSpace => !is_white_space(c),
    }
}

/// Every character of `s[lo..hi]` belongs to `class`.
pub open spec fn all_in(s: Seq<char>, lo: int, hi: int, class: CharClass) -> bool {
    forall|k: int| lo <= k < hi ==> #[trigger] in_class(class, s[k])
}

/// Executable [`in_class`].
pub fn char_in_class(class: CharClass, c: char) -> (r: bool)
    ensures
        r == in_class(class, c),
{
    let u = c as u32;
    let f = fold(c);
    let letter = 0x41 <= f && f <= 0x5A;
    let digit = 0x30 <= u && u <= 0x39;
    match class {
        CharClass::EmailLocal => letter || digit || c == '.' || c == '_' || c == '%' || c == '+'
            || c == '-',
        CharClass::EmailDomain => letter || digit || c == '.' || c == '-',
        CharClass::Letter => letter,
        CharClass::Decimal => decimal_digit(c),
        CharClass::Hex => digit || (0x41 <= f && f <= 0x46),
        CharClass::NotWhiteSpace => !white_space(c),
    }
}

/// Executable [`all_in`].
pub fn chars_in_class(v: &Vec<char>, lo: usize, hi: usize, class: CharClass) -> (r: bool)
    requires
        lo <= hi <= v@.len(),
    ensures
        r == all_in(v@, lo as int, hi as int, class),
{
    let mut i = lo;
    while i < hi
        invariant
            lo <= i <= hi <= v@.len(),
            all_in(v@, lo as int, i as int, class),
        decreases hi - i,
    {
        if !char_in_class(class, v[i]) {
            return false;
        }
        i = i + 1;
    }
    true
}

// ---------------------------------------------------------------------------
// E-mail address
// ---------------------------------------------------------------------------

/// `s` reads `local @ domain . tld` with the `@` at `at` and the last dot at
/// `dot`: a non-empty local part, a non-empty domain, and a top-level domain
/// of at least two letters.
pub open spec fn email_split(s: Seq<char>, at: int, dot: int) -> bool {
    &&& 1 <= at
    &&& at + 2 <= dot
    &&& dot + 3 <= s.len()
    &&& s[at] == '@'
    &&& s[dot] == '.'
    &&& all_in(s, 0, at, CharClass::EmailLocal)
    &&& all_in(s, at + 1, dot, CharClass::EmailDomain)
    &&& all_in(s, dot + 1, s.len() as int, CharClass::Letter)
}

/// An e-mail address: `[a-z0-9._%+-]+ @ [a-z0-9.-]+ . [a-z]{2,}`, letters
/// in any case, and nothing before or after.
pub open spec fn is_email(s: Seq<char>) -> bool {
    exists|at: int, dot: int| email_split(s, at, dot)
}

/// The position of the `@` and of the last dot are forced: whichever split
/// witnesses an address uses the first `@` and the last `.` of the string.
proof fn lemma_email_split_forced(s: Seq<char>, at: int, dot: int, a: int, d: int)
    requires
        email_split(s, a, d),
        0 <= at < s.len(),
        s[at] == '@',
        forall|k: int| 0 <= k < at ==> s[k] != '@',
        0 <= dot < s.len(),
        s[dot] == '.',
        forall|k: int| dot < k < s.len() ==> s[k] != '.',
    ensures
        a == at,
        d == dot,
{
    if a < at {
        assert(s[a] != '@');
    }
    if a > at {
        assert(in_class(CharClass::EmailLocal, s[at]));
    }
    if d > dot {
        assert(s[d] != '.');
    }
    if d < dot {
        assert(in_class(CharClass::Letter, s[dot]));
    }
}

/// Recognises [`is_email`].
pub fn email_chars(v: &Vec<char>) -> (r: bool)
    ensures
        r == is_email(v@),
{
    let n = v.len();
    let mut at: usize = 0;
    while at < n && v[at] != '@'
        invariant
            at <= n == v@.len(),
            forall|k: int| 0 <= k < at ==> v@[k] != '@',
        decreases n - at,
    {
        at = at + 1;
    }
    if at == n {
        assert forall|a: int, d: int| !email_split(v@, a, d) by {
            if email_split(v@, a, d) {
                assert(v@[a] == '@');
            }
        }
        return false;
    }
    let mut j: usize = n;
    while j > 0 && v[j - 1] != '.'
        invariant
            j <= n == v@.len(),
            forall|k: int| j <= k < n ==> v@[k] != '.',
        decreases j,
    {
        j = j - 1;
    }
    if j == 0 {
        assert forall|a: int, d: int| !email_split(v@, a, d) by {
            if email_split(v@, a, d) {
                assert(v@[d] == '.');
            }
        }
        return false;
    }
    let dot = j - 1;
    assert forall|a: int, d: int| email_split(v@, a, d) implies a == at && d == dot by {
        lemma_email_split_forced(v@, at as int, dot as int, a, d);
    }
    let ok = 1 <= at && dot >= 2 && at <= dot - 2 && n - dot >= 3
        && chars_in_class(v, 0, at, CharClass::EmailLocal)
        && chars_in_class(v, at + 1, dot, CharClass::EmailDomain)
        && chars_in_class(v, dot + 1, n, CharClass::Letter);
    if ok {
        assert(email_split(v@, at as int, dot as int));
    }
    ok
}

/// The local part of an e-mail address has no length bound: putting one more
/// local-part character (an ASCII letter or digit, or one of `. _ % + -`) in
/// front of an e-mail address gives an e-mail address.
pub proof fn law_email_local_part_grows(s: Seq<char>, c: char)
    requires
        is_email(s),
        (0x61 <= (c as u32) <= 0x7A) || (0x41 <= (c as u32) <= 0x5A) || (0x30 <= (c as u32) <= 0x39)
            || c == '.' || c == '_' || c == '%' || c == '+' || c == '-',
    ensures
        is_email(seq![c] + s),
{
    let (at, dot) = choose|at: int, dot: int| email_split(s, at, dot);
    let t = seq![c] + s;
    assert forall|k: int| 0 <= k < at + 1 implies #[trigger] in_class(CharClass::EmailLocal, t[k]) by {
        if k > 0 {
            assert(t[k] == s[k - 1]);
            assert(in_class(CharClass::EmailLocal, s[k - 1]));
        }
    }
    assert forall|k: int| at + 2 <= k < dot + 1 implies #[trigger] in_class(
        CharClass::EmailDomain,
        t[k],
    ) by {
        assert(t[k] == s[k - 1]);
        assert(in_class(CharClass::EmailDomain, s[k - 1]));
    }
    assert forall|k: int| dot + 2 <= k < t.len() implies #[trigger] in_class(
        CharClass::Letter,
        t[k],
    ) by {
        assert(t[k] == s[k - 1]);
        assert(in_class(CharClass::Letter, s[k - 1]));
    }
    assert(email_split(t, at + 1, dot + 1));
}

/// However long the local part: `n` letters followed by `@example.com` is an
/// e-mail address, for every `n >= 1`.
pub proof fn law_email_any_local_length(n: nat)
    requires
        n >= 1,
    ensures
        is_email(Seq::new(n, |i: int| 'a') + "@example.com"@),
    decreases n,
{
    reveal_strlit("@example.com");
    let tail = "@example.com"@;
    if n == 1 {
        let s = Seq::new(1, |i: int| 'a') + tail;
        assert(s.len() == 13);
        assert forall|k: int| 0 <= k < 1 implies #[trigger] in_class(CharClass::EmailLocal, s[k]) by {}
        assert forall|k: int| 2 <= k < 9 implies #[trigger] in_class(CharClass::EmailDomain, s[k]) by {
            assert(s[k] == tail[k - 1]);
        }
        assert forall|k: int| 10 <= k < 13 implies #[trigger] in_class(CharClass::Letter, s[k]) by {
            assert(s[k] == tail[k - 1]);
        }
        assert(s[1] == '@');
        assert(s[9] == '.');
        assert(email_split(s, 1, 9));
    } else {
        law_email_any_local_length((n - 1) as nat);
        let shorter = Seq::new((n - 1) as nat, |i: int| 'a') + tail;
        law_email_local_part_grows(shorter, 'a');
        assert(Seq::new(n, |i: int| 'a') + tail =~= seq!['a'] + shorter);
    }
}

// ---------------------------------------------------------------------------
// HTTP(S) URL
// ---------------------------------------------------------------------------

/// The first character after `://`: neither white space nor one of `/ $ . ? #`.
pub open spec fn is_url_host_start(c: char) -> bool {
    !is_white_space(c) && c != '/' && c != '$' && c != '.' && c != '?' && c != '#'
}

/// `s` is `http://` (`n == 4`) or `https://` (`n == 5`), scheme letters in any
/// case, then a first character as in [`is_url_host_start`], then at least
/// one more character; nothing after the scheme is white space.
pub open spec fn url_with_scheme(s: Seq<char>, n: int) -> bool {
    &&& s.len() >= n + 5
    &&& folded(s[0]) == 0x48
    &&& folded(s[1]) == 0x54
    &&& folded(s[2]) == 0x54
    &&& folded(s[3]) == 0x50
    &&& n == 5 ==> folded(s[4]) == 0x53
    &&& s[n] == ':'
    &&& s[n + 1] == '/'
    &&& s[n + 2] == '/'
    &&& is_url_host_start(s[n + 3])
    &&& all_in(s, n + 4, s.len() as int, CharClass::NotWhiteSpace)
}

/// A well-formed HTTP or HTTPS URL: the scheme, `://`, and a host part of at
/// least two characters with no white space in the rest of the string.
pub open spec fn is_http_url(s: Seq<char>) -> bool {
    url_with_scheme(s, 4) || url_with_scheme(s, 5)
}

/// The host part may start with any character but white space and
/// `/ $ . ? #`, ASCII digits and other letters included: `http://` or
/// `https://` followed by such a character and a non-empty run of
/// non-white-space characters is a URL, and with any other first character
/// it is not.
pub proof fn law_url_host_start(c: char, rest: Seq<char>, secure: bool)
    requires
        rest.len() >= 1,
        forall|k: int| 0 <= k < rest.len() ==> !is_white_space(#[trigger] rest[k]),
    ensures
        is_http_url((if secure { "https://"@ } else { "http://"@ }) + seq![c] + rest) <==> (
        !is_white_space(c) && c != '/' && c != '$' && c != '.' && c != '?' && c != '#'),
{
    reveal_strlit("https://");
    reveal_strlit("http://");
    let scheme = if secure {
        "https://"@
    } else {
        "http://"@
    };
    let n: int = if secure {
        5
    } else {
        4
    };
    let t = scheme + seq![c] + rest;
    assert(t[n + 3] == c);
    assert(t[0] == 'h' && t[1] == 't' && t[2] == 't' && t[3] == 'p');
    assert(t[n] == ':' && t[n + 1] == '/' && t[n + 2] == '/');
    if secure {
        assert(t[4] == 's');
        assert(!url_with_scheme(t, 4));
    } else {
        assert(t[4] == ':');
        assert(!url_with_scheme(t, 5));
    }
    assert forall|k: int| n + 4 <= k < t.len() implies #[trigger] in_class(
        CharClass::NotWhiteSpace,
        t[k],
    ) by {
        assert(t[k] == rest[k - n - 4]);
    }
    if is_url_host_start(c) {
        assert(url_with_scheme(t, n));
    }
}

/// Recognises [`is_http_url`].
pub fn url_chars(v: &Vec<char>) -> (r: bool)
    ensures
        r == is_http_url(v@),
{
    let len = v.len();
    if len < 9 {
        return false;
    }
    if !(fold(v[0]) == 0x48 && fold(v[1]) == 0x54 && fold(v[2]) == 0x54 && fold(v[3]) == 0x50) {
        return false;
    }
    let n: usize = if fold(v[4]) == 0x53 { 5 } else { 4 };
    if n == 5 {
        // `http:` would need a colon where this string has an `s`.
        assert(!url_with_scheme(v@, 4));
    } else {
        assert(!url_with_scheme(v@, 5));
    }
    if len < n + 5 {
        return false;
    }
    let c = v[n + 3];
    let ok = v[n] == ':' && v[n + 1] == '/' && v[n + 2] == '/' && !white_space(c) && c != '/'
        && c != '$' && c != '.' && c != '?' && c != '#' && chars_in_class(
        v,
        n + 4,
        len,
        CharClass::NotWhiteSpace,
    );
    ok
}

// ---------------------------------------------------------------------------
// UUID version 4
// ---------------------------------------------------------------------------

/// The variant digit of an RFC 4122 UUID: `8 9 a b`, letters in any case.
pub open spec fn is_uuid_variant(c: char) -> bool {
    c == '8' || c == '9' || folded(c) == 0x41 || folded(c) == 0x42
}

/// `8-4-4-4-12` hexadecimal digits (any case) separated by dashes, with the
/// version digit `4` and a variant digit from [`is_uuid_variant`].
pub open spec fn is_uuid_v4(s: Seq<char>) -> bool {
    &&& s.len() == 36
    &&& all_in(s, 0, 8, CharClass::Hex)
    &&& s[8] == '-'
    &&& all_in(s, 9, 13, CharClass::Hex)
    &&& s[13] == '-'
    &&& s[14] == '4'
    &&& all_in(s, 15, 18, CharClass::Hex)
    &&& s[18] == '-'
    &&& is_uuid_variant(s[19])
    &&& all_in(s, 20, 23, CharClass::Hex)
    &&& s[23] == '-'
    &&& all_in(s, 24, 36, CharClass::Hex)
}

/// Recognises [`is_uuid_v4`].
pub fn uuid_chars(v: &Vec<char>) -> (r: bool)
    ensures
        r == is_uuid_v4(v@),
{
    if v.len() != 36 {
        return false;
    }
    let f = fold(v[19]);
    chars_in_class(v, 0, 8, CharClass::Hex) && v[8] == '-' && chars_in_class(
        v,
        9,
        13,
        CharClass::Hex,
    ) && v[13] == '-' && v[14] == '4' && chars_in_class(v, 15, 18, CharClass::Hex) && v[18]
        == '-' && (v[19] == '8' || v[19] == '9' || f == 0x41 || f == 0x42) && chars_in_class(
        v,
        20,
        23,
        CharClass::Hex,
    ) && v[23] == '-' && chars_in_class(v, 24, 36, CharClass::Hex)
}

// ---------------------------------------------------------------------------
// US ZIP code
// ---------------------------------------------------------------------------

/// Five decimal digits, optionally followed by `-` and four decimal digits.
pub open spec fn is_us_zip(s: Seq<char>) -> bool {
    ||| s.len() == 5 && all_in(s, 0, 5, CharClass::Decimal)
    ||| s.len() == 10 && all_in(s, 0, 5, CharClass::Decimal) && s[5] == '-' && all_in(
        s,
        6,
        10,
        CharClass::Decimal,
    )
}

/// Recognises [`is_us_zip`].
pub fn us_zip_chars(v: &Vec<char>) -> (r: bool)
    ensures
        r == is_us_zip(v@),
{
    let n = v.len();
    if n == 5 {
        chars_in_class(v, 0, 5, CharClass::Decimal)
    } else if n == 10 {
        chars_in_class(v, 0, 5, CharClass::Decimal) && v[5] == '-' && chars_in_class(
            v,
            6,
            10,
            CharClass::Decimal,
        )
    } else {
        false
    }
}

// ---------------------------------------------------------------------------
// Canadian postal code
// ---------------------------------------------------------------------------

/// A letter allowed in a Canadian postal code, in any case: any of `A`..=`Z`
/// but `D F I O Q U`, and in the first position also not `W` or `Z`.
pub open spec fn is_postal_letter(c: char, first: bool) -> bool {
    let f = folded(c);
    &&& 0x41 <= f <= 0x5A
    &&& f != 0x44 && f != 0x46 && f != 0x49 && f != 0x4F && f != 0x51 && f != 0x55
    &&& first ==> f != 0x57 && f != 0x5A
}

/// The six significant characters of a postal code: letter, digit, letter,
/// digit, letter, digit.
pub open spec fn postal_parts(a: char, b: char, c: char, d: char, e: char, f: char) -> bool {
    &&& is_postal_letter(a, true)
    &&& is_decimal_digit(b)
    &&& is_postal_letter(c, false)
    &&& is_decimal_digit(d)
    &&& is_postal_letter(e, false)
    &&& is_decimal_digit(f)
}

/// A Canadian postal code `A1A 1A1`, the middle space optional.
pub open spec fn is_ca_postal(s: Seq<char>) -> bool {
    ||| s.len() == 6 && postal_parts(s[0], s[1], s[2], s[3], s[4], s[5])
    ||| s.len() == 7 && s[3] == ' ' && postal_parts(s[0], s[1], s[2], s[4], s[5], s[6])
}

fn postal_letter(c: char, first: bool) -> (r: bool)
    ensures
        r == is_postal_letter(c, first),
{
    let f = fold(c);
    0x41 <= f && f <= 0x5A && f != 0x44 && f != 0x46 && f != 0x49 && f != 0x4F && f != 0x51 && f
        != 0x55 && (!first || (f != 0x57 && f != 0x5A))
}

fn postal_parts_exec(a: char, b: char, c: char, d: char, e: char, f: char) -> (r: bool)
    ensures
        r == postal_parts(a, b, c, d, e, f),
{
    postal_letter(a, true) && decimal_digit(b) && postal_letter(c, false) && decimal_digit(d)
        && postal_letter(e, false) && decimal_digit(f)
}

/// Recognises [`is_ca_postal`].
pub fn ca_postal_chars(v: &Vec<char>) -> (r: bool)
    ensures
        r == is_ca_postal(v@),
{
    let n = v.len();
    if n == 6 {
        postal_parts_exec(v[0], v[1], v[2], v[3], v[4], v[5])
    } else if n == 7 {
        v[3] == ' ' && postal_parts_exec(v[0], v[1], v[2], v[4], v[5], v[6])
    } else {
        false
    }
}

// ---------------------------------------------------------------------------
// E.164 phone number
// ---------------------------------------------------------------------------

/// `+`, an ASCII digit `1`..=`9`, then six to fourteen decimal digits.
pub open spec fn is_phone_e164(s: Seq<char>) -> bool {
    &&& 8 <= s.len() <= 16
    &&& s[0] == '+'
    &&& 0x31 <= (s[1] as u32) <= 0x39
    &&& all_in(s, 2, s.len() as int, CharClass::Decimal)
}

/// Recognises [`is_phone_e164`].
pub fn phone_e164_chars(v: &Vec<char>) -> (r: bool)
    ensures
        r == is_phone_e164(v@),
{
    let n = v.len();
    if n < 8 || n > 16 {
        return false;
    }
    let d = v[1] as u32;
    v[0] == '+' && 0x31 <= d && d <= 0x39 && chars_in_class(v, 2, n, CharClass::Decimal)
}

// ---------------------------------------------------------------------------
// Non-blank text
// ---------------------------------------------------------------------------

/// Some character of `s` is not white space, i.e. trimming white space from
/// both ends leaves something.
pub open spec fn has_non_white_space(s: Seq<char>) -> bool {
    exists|k: int| 0 <= k < s.len() && !is_white_space(#[trigger] s[k])
}

/// Recognises [`has_non_white_space`].
pub fn non_blank_chars(v: &Vec<char>) -> (r: bool)
    ensures
        r == has_non_white_space(v@),
{
    let n = v.len();
    let mut i: usize = 0;
    while i < n
        invariant
            i <= n == v@.len(),
            forall|k: int| 0 <= k < i ==> is_white_space(#[trigger] v@[k]),
        decreases n - i,
    {
        if !white_space(v[i]) {
            return true;
        }
        i = i + 1;
    }
    false
}

/// `c` is one of the ASCII digits `0`..=`9`.
pub open spec fn is_plain_digit(c: char) -> bool {
    0x30 <= (c as u32) <= 0x39
}

/// An E.164 number is `+`, a first digit other than `0`, and then between
/// six and fourteen more digits: with ASCII digits, `+`, `c` and `ds` form
/// a phone number exactly when `c` is not `0` and `ds` has 6 to 14 digits.
pub proof fn law_phone_digit_count(c: char, ds: Seq<char>)
    requires
        is_plain_digit(c),
        forall|k: int| 0 <= k < ds.len() ==> is_plain_digit(#[trigger] ds[k]),
    ensures
        is_phone_e164(seq!['+', c] + ds) <==> (c != '0' && 6 <= ds.len() <= 14),
{
    let t = seq!['+', c] + ds;
    assert(t[0] == '+' && t[1] == c);
    assert forall|k: int| 2 <= k < t.len() implies #[trigger] in_class(CharClass::Decimal, t[k]) by {
        assert(t[k] == ds[k - 2]);
    }
}

/// A US ZIP code is five digits, or five digits, a dash and four digits:
/// with ASCII digits `a` (five of them) and `b`, `a` alone is a ZIP code,
/// and `a`, `-`, `b` is one exactly when `b` has four digits.
pub proof fn law_zip_shapes(a: Seq<char>, b: Seq<char>)
    requires
        a.len() == 5,
        forall|k: int| 0 <= k < a.len() ==> is_plain_digit(#[trigger] a[k]),
        forall|k: int| 0 <= k < b.len() ==> is_plain_digit(#[trigger] b[k]),
    ensures
        is_us_zip(a),
        is_us_zip(a + seq!['-'] + b) <==> b.len() == 4,
{
    assert forall|k: int| 0 <= k < 5 implies #[trigger] in_class(CharClass::Decimal, a[k]) by {
        assert(is_plain_digit(a[k]));
    }
    let t = a + seq!['-'] + b;
    assert(t[5] == '-');
    assert forall|k: int| 0 <= k < 5 implies #[trigger] in_class(CharClass::Decimal, t[k]) by {
        assert(t[k] == a[k]);
        assert(is_plain_digit(a[k]));
    }
    assert forall|k: int| 6 <= k < t.len() implies #[trigger] in_class(CharClass::Decimal, t[k]) by {
        assert(t[k] == b[k - 6]);
        assert(is_plain_digit(b[k - 6]));
    }
}

/// Only version 4 is accepted: a text whose version digit (position 14) is
/// not `4` is never a UUID v4, and neither is one whose variant digit
/// (position 19) is a digit below `8`.
pub proof fn law_uuid_version_and_variant(s: Seq<char>)
    requires
        s.len() == 36,
    ensures
        s[14] != '4' ==> !is_uuid_v4(s),
        is_plain_digit(s[19]) && (s[19] as u32) < 0x38 ==> !is_uuid_v4(s),
{
}

} // verus!
