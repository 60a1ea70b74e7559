//! Names: UTF-16 decoding and case-insensitive comparison.
//!
//! Long file names are stored as UTF-16 code units on disk; 8.3 names are
//! ASCII, which this crate widens to the same units. Decoding is a spec
//! function here, and the one executable decoder is a trusted wrapper
//! around `String::from_utf16`. Name lookup compares code points after
//! folding ASCII letters to lower case.

use vstd::prelude::*;

verus! {

/// The UTF-16 decoding of `units`: `None` when a surrogate is unpaired.
/// A unit outside the surrogate range is its own code point; a high
/// surrogate followed by a low one encodes a supplementary code point.
pub open spec fn utf16_decode(units: Seq<u16>) -> Option<Seq<char>>
    decreases units.len(),
{
    if units.len() == 0 {
        Option::Some(Seq::empty())
    } else {
        let u = units[0];
        if u < 0xD800 || u >= 0xE000 {
            match utf16_decode(units.skip(1)) {
                Option::Some(rest) => Option::Some(seq![(u as u32) as char] + rest),
                Option::None => Option::None,
            }
        } else if u < 0xDC00 && units.len() >= 2 && 0xDC00 <= units[1] && units[1] < 0xE000 {
            let cp = (0x10000 + ((u - 0xD800) * 0x400 + (units[1] - 0xDC00))) as u32;
            match utf16_decode(units.skip(2)) {
                Option::Some(rest) => Option::Some(seq![cp as char] + rest),
                Option::None => Option::None,
            }
        } else {
            Option::None
        }
    }
}

/// Relies on String::from_utf16: the string is the UTF-16 decoding of the
/// units, and decoding fails exactly on invalid data.
#[verifier::external_body]
pub fn utf16_to_string(units: &[u16]) -> (r: Option<String>)
    ensures
        match r {
            Some(st) => utf16_decode(units@) == Option::Some(st@),
            None => utf16_decode(units@) is None,
        },
{
    String::from_utf16(units).ok()
}

/// A code point with ASCII capital letters folded to lower case.
pub open spec fn spec_fold_code_point(c: char) -> u32 {
    let u = c as u32;
    if 0x41 <= u && u <= 0x5A {
        (u + 0x20) as u32
    } else {
        u
    }
}

/// Whether two character sequences are equal up to ASCII case.
pub open spec fn ascii_eq_fold(a: Seq<char>, b: Seq<char>) -> bool {
    a.len() == b.len() && forall|i: int|
        0 <= i < a.len() ==> #[trigger] spec_fold_code_point(a[i]) == spec_fold_code_point(b[i])
}

/// Compares two strings for equality up to ASCII case.
pub fn eq_ignore_ascii_case_chars(a: &str, b: &str) -> (r: bool)
    ensures
        r == ascii_eq_fold(a@, b@),
{
    let n = a.unicode_len();
    let m = b.unicode_len();
    if n != m {
        return false;
    }
    let mut i: usize = 0;
    while i < n
        invariant
            i <= n,
            n == a@.len(),
            n == b@.len(),
            forall|j: int|
                0 <= j < i ==> #[trigger] spec_fold_code_point(a@[j]) == spec_fold_code_point(
                    b@[j],
                ),
        decreases n - i,
    {
        let ca = a.get_char(i) as u32;
        let cb = b.get_char(i) as u32;
        let fa = if 0x41 <= ca && ca <= 0x5A {
            ca + 0x20
        } else {
            ca
        };
        let fb = if 0x41 <= cb && cb <= 0x5A {
            cb + 0x20
        } else {
            cb
        };
        if fa != fb {
            proof {
                assert(spec_fold_code_point(a@[i as int]) != spec_fold_code_point(b@[i as int]));
            }
            return false;
        }
        i += 1;
    }
    true
}

} // verus!
