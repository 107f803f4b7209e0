//! Characters and strings: Latin-1 bytes, UTF-16 units and ASCII case folding.
use vstd::prelude::*;

verus! {

/// Whether `x` is a Unicode scalar value (a code point that is no surrogate).
pub open spec fn is_scalar(x: u32) -> bool {
    x < 0xD800 || (0xE000 <= x && x <= 0x10FFFF)
}

/// Relies on `char::from_u32`: the character of a scalar value, `None` for any other number.
#[verifier::external_body]
fn char_from_u32(x: u32) -> (r: Option<char>)
    ensures
        r == (if is_scalar(x) {
            Some(x as char)
        } else {
            None
        }),
{
    char::from_u32(x)
}

/// Relies on `String`'s `FromIterator<char>`: the string of the given characters, in order.
#[verifier::external_body]
pub(crate) fn string_from_chars(v: &Vec<char>) -> (r: String)
    ensures
        r@ == v@,
{
    v.iter().collect()
}

/// Each byte read as the character of the same number (ISO 8859-1).
pub open spec fn latin1(b: Seq<u8>) -> Seq<char> {
    b.map_values(|x: u8| x as char)
}

/// The characters of `b`, one per byte, as `latin1` states.
pub fn latin1_string(b: &Vec<u8>) -> (r: String)
    ensures
        r@ == latin1(b@),
{
    let mut out: Vec<char> = Vec::new();
    let mut i: usize = 0;
    while i < b.len()
        invariant
            i <= b@.len(),
            out@ == latin1(b@.subrange(0, i as int)),
        decreases b@.len() - i,
    {
        out.push(b[i] as char);
        i = i + 1;
        assert(latin1(b@.subrange(0, i as int)) =~= latin1(b@.subrange(0, i - 1)).push(b@[i - 1] as char));
    }
    assert(b@.subrange(0, b@.len() as int) =~= b@);
    string_from_chars(&out)
}

/// A leading surrogate of UTF-16.
pub open spec fn is_high_surrogate(u: u16) -> bool {
    0xD800 <= u && u <= 0xDBFF
}

/// A trailing surrogate of UTF-16.
pub open spec fn is_low_surrogate(u: u16) -> bool {
    0xDC00 <= u && u <= 0xDFFF
}

/// The code point that a surrogate pair encodes.
pub open spec fn pair_value(h: u16, l: u16) -> u32 {
    (0x10000 + (h - 0xD800) * 0x400 + (l - 0xDC00)) as u32
}

/// The replacement character, U+FFFD.
pub open spec fn replacement() -> char {
    0xFFFDu32 as char
}

/// UTF-16 decoding: each well-formed unit or surrogate pair gives its
/// character, and each unpaired surrogate gives U+FFFD.
pub open spec fn decode_utf16(u: Seq<u16>) -> Seq<char>
    decreases u.len(),
{
    if u.len() == 0 {
        Seq::empty()
    } else if is_high_surrogate(u[0]) && u.len() >= 2 && is_low_surrogate(u[1]) {
        seq![pair_value(u[0], u[1]) as char] + decode_utf16(u.subrange(2, u.len() as int))
    } else if is_high_surrogate(u[0]) || is_low_surrogate(u[0]) {
        seq![replacement()] + decode_utf16(u.subrange(1, u.len() as int))
    } else {
        seq![u[0] as u32 as char] + decode_utf16(u.subrange(1, u.len() as int))
    }
}

/// Decodes UTF-16 units, as `decode_utf16` states.
pub fn utf16_string(u: &Vec<u16>) -> (r: String)
    ensures
        r@ == decode_utf16(u@),
{
    let mut out: Vec<char> = Vec::new();
    let mut i: usize = 0;
    let n = u.len();
    assert(u@.subrange(0, n as int) =~= u@);
    assert(out@ + decode_utf16(u@) =~= decode_utf16(u@));
    while i < n
        invariant
            n == u@.len(),
            i <= n,
            out@ + decode_utf16(u@.subrange(i as int, n as int)) == decode_utf16(u@),
        decreases n - i,
    {
        let ghost rest = u@.subrange(i as int, n as int);
        let x = u[i];
        if 0xD800 <= x && x <= 0xDBFF && i + 1 < n && 0xDC00 <= u[i + 1] && u[i + 1] <= 0xDFFF {
            let y = u[i + 1];
            let v: u32 = 0x10000 + (x as u32 - 0xD800) * 0x400 + (y as u32 - 0xDC00);
            assert(v == pair_value(x, y));
            assert(rest.subrange(2, rest.len() as int) =~= u@.subrange(i + 2, n as int));
            let c = match char_from_u32(v) {
                Some(c) => c,
                None => '\u{FFFD}',
            };
            out.push(c);
            i = i + 2;
        } else {
            assert(rest.subrange(1, rest.len() as int) =~= u@.subrange(i + 1, n as int));
            if 0xD800 <= x && x <= 0xDFFF {
                out.push('\u{FFFD}');
                assert('\u{FFFD}' == replacement());
            } else {
                let c = match char_from_u32(x as u32) {
                    Some(c) => c,
                    None => '\u{FFFD}',
                };
                out.push(c);
            }
            i = i + 1;
        }
        assert(out@ + decode_utf16(u@.subrange(i as int, n as int)) =~= decode_utf16(u@));
    }
    string_from_chars(&out)
}

/// ASCII lower case of a character; any other character is kept.
pub open spec fn ascii_lower(c: char) -> char {
    if 'A' <= c && c <= 'Z' {
        ((c as u32) + 32) as char
    } else {
        c
    }
}

/// A string folded to ASCII lower case.
pub open spec fn fold_ascii(s: Seq<char>) -> Seq<char> {
    s.map_values(|c: char| ascii_lower(c))
}

fn lower_char(c: char) -> (r: char)
    ensures
        r == ascii_lower(c),
{
    if 'A' <= c && c <= 'Z' {
        let b: u8 = c as u8;
        (b + 32) as char
    } else {
        c
    }
}

/// Whether two strings are equal once folded to ASCII lower case.
pub fn eq_ignore_ascii_case(a: &str, b: &str) -> (r: bool)
    ensures
        r == (fold_ascii(a@) == fold_ascii(b@)),
{
    let n = a.unicode_len();
    if n != b.unicode_len() {
        assert(fold_ascii(a@).len() != fold_ascii(b@).len());
        return false;
    }
    let mut i: usize = 0;
    while i < n
        invariant
            n == a@.len(),
            n == b@.len(),
            i <= n,
            forall|j: int| 0 <= j < i ==> ascii_lower(a@[j]) == ascii_lower(b@[j]),
        decreases n - i,
    {
        if lower_char(a.get_char(i)) != lower_char(b.get_char(i)) {
            assert(fold_ascii(a@)[i as int] != fold_ascii(b@)[i as int]);
            return false;
        }
        i = i + 1;
    }
    assert(fold_ascii(a@) =~= fold_ascii(b@));
    true
}

} // verus!
