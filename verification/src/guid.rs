//! Reading an adapter's GUID from its WinpkFilter device name.
//!
//! WinpkFilter names an adapter `\DEVICE\{GUID}`. The text between the first
//! `{` and the first `}` of the name must be the canonical 36-character
//! `8-4-4-4-12` form of a GUID; anything else names no GUID.
use vstd::prelude::*;
use vstd::string::StrSliceExecFns;

verus! {

/// Number of characters in the canonical text form of a GUID.
pub const GUID_TEXT_LEN: usize = 36;

/// Whether `c` is an ASCII hexadecimal digit.
pub open spec fn is_hex_digit(c: char) -> bool {
    let v = c as u32;
    ||| 0x30 <= v <= 0x39
    ||| 0x41 <= v <= 0x46
    ||| 0x61 <= v <= 0x66
}

/// The value of the hexadecimal digit `c`.
pub open spec fn hex_digit_value(c: char) -> nat {
    let v = c as u32;
    if 0x30 <= v <= 0x39 {
        (v - 0x30) as nat
    } else if 0x41 <= v <= 0x46 {
        (v - 0x41 + 10) as nat
    } else {
        (v - 0x61 + 10) as nat
    }
}

/// The positions of the four dashes in the canonical text of a GUID.
pub open spec fn is_dash_position(i: int) -> bool {
    i == 8 || i == 13 || i == 18 || i == 23
}

/// `t` is the canonical `8-4-4-4-12` text of a GUID: 36 characters, dashes at
/// positions 8, 13, 18 and 23 and hexadecimal digits everywhere else.
pub open spec fn is_guid_text(t: Seq<char>) -> bool {
    &&& t.len() == GUID_TEXT_LEN
    &&& forall|i: int|
        0 <= i < GUID_TEXT_LEN ==> if is_dash_position(i) {
            t[i] == '-'
        } else {
            is_hex_digit(#[trigger] t[i])
        }
}

/// The number that the hexadecimal digits `digits` spell, most significant first.
pub open spec fn hex_value(digits: Seq<char>) -> nat
    decreases digits.len(),
{
    if digits.len() == 0 {
        0
    } else {
        hex_value(digits.drop_last()) * 16 + hex_digit_value(digits.last())
    }
}

/// The 32 hexadecimal digits of a GUID text, without its dashes.
pub open spec fn guid_digits(t: Seq<char>) -> Seq<char> {
    t.subrange(0, 8) + t.subrange(9, 13) + t.subrange(14, 18) + t.subrange(19, 23) + t.subrange(
        24,
        36,
    )
}

/// The 128-bit value of a GUID text: its 32 digits read as one hexadecimal number.
pub open spec fn guid_text_value(t: Seq<char>) -> nat {
    hex_value(guid_digits(t))
}

/// `i` is the position of the first `c` in `s`.
pub open spec fn is_first_index(s: Seq<char>, c: char, i: int) -> bool {
    &&& 0 <= i < s.len()
    &&& s[i] == c
    &&& forall|j: int| 0 <= j < i ==> s[j] != c
}

/// The position of the first `c` in `s`, if `s` holds a `c`.
pub open spec fn first_index(s: Seq<char>, c: char) -> Option<int> {
    if exists|i: int| 0 <= i < s.len() && s[i] == c {
        Some(choose|i: int| is_first_index(s, c, i))
    } else {
        None
    }
}

/// The text between the first `{` and the first `}` of an adapter name, if
/// both occur and the `}` does not come before the `{`.
pub open spec fn guid_text_of_name(name: Seq<char>) -> Option<Seq<char>> {
    match (first_index(name, '{'), first_index(name, '}')) {
        (Some(start), Some(end)) => if start + 1 <= end {
            Some(name.subrange(start + 1, end))
        } else {
            None
        },
        _ => None,
    }
}

/// The GUID that an adapter name carries: the value of the text between its
/// braces, where that text is the canonical form of a GUID.
pub open spec fn adapter_guid(name: Seq<char>) -> Option<u128> {
    match guid_text_of_name(name) {
        Some(t) => if is_guid_text(t) {
            Some(guid_text_value(t) as u128)
        } else {
            None
        },
        None => None,
    }
}

/// The first position of `c` in `s` is `i`, and no other.
proof fn lemma_first_index_is(s: Seq<char>, c: char, i: int)
    requires
        is_first_index(s, c, i),
    ensures
        first_index(s, c) == Some(i),
{
    let k = choose|k: int| is_first_index(s, c, k);
    assert(is_first_index(s, c, k));
    if k < i {
        assert(s[k] != c);
    } else if k > i {
        assert(s[i] != c);
    }
}

/// The hexadecimal digits are exactly `0`-`9`, `A`-`F` and `a`-`f`, and
/// each has its usual value, in either case.
pub proof fn lemma_hex_digits(c: char)
    ensures
        is_hex_digit(c) <==> ('0' <= c <= '9' || 'A' <= c <= 'F' || 'a' <= c <= 'f'),
        '0' <= c <= '9' ==> hex_digit_value(c) == (c as u32) - ('0' as u32),
        'A' <= c <= 'F' ==> hex_digit_value(c) == (c as u32) - ('A' as u32) + 10,
        'a' <= c <= 'f' ==> hex_digit_value(c) == (c as u32) - ('a' as u32) + 10,
{
}

/// Text that has neither brace before the `{`, and a canonical GUID between
/// the `{` and the next `}`, names that GUID, whatever follows.
pub proof fn lemma_braced_guid_found(prefix: Seq<char>, t: Seq<char>, suffix: Seq<char>)
    requires
        forall|i: int| 0 <= i < prefix.len() ==> #[trigger] prefix[i] != '{' && prefix[i] != '}',
        t.len() == GUID_TEXT_LEN,
        forall|i: int|
            0 <= i < GUID_TEXT_LEN ==> if is_dash_position(i) {
                t[i] == '-'
            } else {
                '0' <= #[trigger] t[i] <= '9' || 'A' <= t[i] <= 'F' || 'a' <= t[i] <= 'f'
            },
    ensures
        adapter_guid(prefix + seq!['{'] + t + seq!['}'] + suffix) == Some(
            guid_text_value(t) as u128,
        ),
{
    let name = prefix + seq!['{'] + t + seq!['}'] + suffix;
    let start = prefix.len() as int;
    let end = start + 1 + GUID_TEXT_LEN;
    assert(name[start] == '{');
    assert forall|j: int| 0 <= j < start implies name[j] != '{' by {
        assert(name[j] == prefix[j]);
    }
    lemma_first_index_is(name, '{', start);
    assert(name[end] == '}');
    assert forall|j: int| 0 <= j < end implies name[j] != '}' by {
        if j < start {
            assert(name[j] == prefix[j]);
        } else if j > start {
            assert(name[j] == t[j - start - 1]);
        }
    }
    lemma_first_index_is(name, '}', end);
    assert(name.subrange(start + 1, end) =~= t);
    assert forall|i: int| 0 <= i < GUID_TEXT_LEN implies if is_dash_position(i) {
        t[i] == '-'
    } else {
        is_hex_digit(#[trigger] t[i])
    } by {
        lemma_hex_digits(t[i]);
    }
}

/// Finds the first `c` in `s`.
pub fn find_char(s: &str, c: char) -> (r: Option<usize>)
    ensures
        match r {
            Some(i) => first_index(s@, c) == Some(i as int) && is_first_index(s@, c, i as int),
            None => first_index(s@, c) is None,
        },
{
    let n = s.unicode_len();
    let mut i: usize = 0;
    while i < n
        invariant
            n == s@.len(),
            i <= n,
            forall|j: int| 0 <= j < i ==> s@[j] != c,
        decreases n - i,
    {
        if s.get_char(i) == c {
            proof {
                lemma_first_index_is(s@, c, i as int);
            }
            return Some(i);
        }
        i = i + 1;
    }
    None
}

/// Whether `c` is an ASCII hexadecimal digit.
pub fn is_hex_digit_char(c: char) -> (r: bool)
    ensures
        r == is_hex_digit(c),
        r <==> ('0' <= c <= '9' || 'A' <= c <= 'F' || 'a' <= c <= 'f'),
{
    let v = c as u32;
    (0x30 <= v && v <= 0x39) || (0x41 <= v && v <= 0x46) || (0x61 <= v && v <= 0x66)
}

/// Whether `t` is the canonical text of a GUID.
pub fn is_guid_text_str(t: &str) -> (r: bool)
    ensures
        r == is_guid_text(t@),
{
    let n = t.unicode_len();
    if n != GUID_TEXT_LEN {
        return false;
    }
    let mut i: usize = 0;
    while i < n
        invariant
            n == t@.len(),
            n == GUID_TEXT_LEN,
            i <= n,
            forall|j: int|
                0 <= j < i ==> if is_dash_position(j) {
                    t@[j] == '-'
                } else {
                    is_hex_digit(#[trigger] t@[j])
                },
        decreases n - i,
    {
        let c = t.get_char(i);
        let ok = if i == 8 || i == 13 || i == 18 || i == 23 {
            c == '-'
        } else {
            is_hex_digit_char(c)
        };
        if !ok {
            return false;
        }
        i = i + 1;
    }
    true
}

/// `windows::core::GUID::from(&str)` reads the 32 hexadecimal digits of a
/// canonical GUID text, most significant first, into the GUID's fields, and
/// `GUID::to_u128` puts those fields back together in the same order; this
/// states that the value is the number the digits spell. `GUID::from` panics on
/// any text that is not in canonical form, which `requires` leaves out.
#[verifier::external_body]
fn guid_from_text(text: &str) -> (value: u128)
    requires
        is_guid_text(text@),
    ensures
        value == guid_text_value(text@),
{
    windows_core::GUID::from(text).to_u128()
}

/// Reads the GUID of an adapter from its WinpkFilter device name
/// (`\DEVICE\{GUID}`): the text between the first `{` and the first `}` must
/// be the canonical form of a GUID, else the name carries none.
pub fn parse_adapter_guid(name: &str) -> (guid: Option<u128>)
    ensures
        guid == adapter_guid(name@),
{
    let start = match find_char(name, '{') {
        Some(start) => start,
        None => return None,
    };
    let end = match find_char(name, '}') {
        Some(end) => end,
        None => return None,
    };
    if start >= end {
        return None;
    }
    let inner = name.substring_char(start + 1, end);
    if !is_guid_text_str(inner) {
        return None;
    }
    Some(guid_from_text(inner))
}

} // verus!
