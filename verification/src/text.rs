//! Helpers for line-oriented text held in byte slices.

use vstd::prelude::*;
use vstd::slice::slice_subrange;
use vstd::string::StringSliceAdditionalSpecFns;
use vstd::utf8::{decode_utf8, encode_utf8_decode_utf8, valid_utf8};
use crate::cursor::ParseError;

verus! {

/// `core::str::Utf8Error`, the error of `core::str::from_utf8`. Nothing is
/// said of what it holds.
#[verifier::external_type_specification]
#[verifier::external_body]
pub struct ExUtf8Error(core::str::Utf8Error);

/// `core::str::from_utf8` succeeds exactly on well-formed UTF-8, and the
/// string it returns is made of the bytes it was given.
pub assume_specification[ core::str::from_utf8 ](v: &[u8]) -> (r: Result<
    &str,
    core::str::Utf8Error,
>)
    ensures
        r is Ok <==> valid_utf8(v@),
        r is Ok ==> r->Ok_0.spec_bytes() == v@,
;

/// Decodes `bytes` as UTF-8 text.
pub fn decode_text<'a>(bytes: &'a [u8]) -> (r: Result<&'a str, ParseError>)
    ensures
        valid_utf8(bytes@) ==> r is Ok && r->Ok_0@ == decode_utf8(bytes@),
        !valid_utf8(bytes@) ==> r == Err::<&str, ParseError>(ParseError::InvalidEncoding),
{
    match core::str::from_utf8(bytes) {
        Ok(s) => {
            proof {
                encode_utf8_decode_utf8(s@);
            }
            Ok(s)
        },
        Err(_) => Err(ParseError::InvalidEncoding),
    }
}

/// Whether `hay` begins with the bytes of `prefix`.
pub fn starts_with(hay: &[u8], prefix: &[u8]) -> (b: bool)
    ensures
        b == prefix@.is_prefix_of(hay@),
{
    if prefix.len() > hay.len() {
        return false;
    }
    let mut i: usize = 0;
    while i < prefix.len()
        invariant
            i <= prefix@.len() <= hay@.len(),
            forall|j: int| 0 <= j < i ==> prefix@[j] == hay@[j],
        decreases prefix@.len() - i,
    {
        if prefix[i] != hay[i] {
            return false;
        }
        i = i + 1;
    }
    true
}

/// The bytes that count as white space: space, tab, line feed, form feed and
/// carriage return.
pub open spec fn is_space(b: u8) -> bool {
    b == 0x20 || b == 0x09 || b == 0x0a || b == 0x0c || b == 0x0d
}

/// Whether `b` is a white-space byte.
pub fn is_space_byte(b: u8) -> (r: bool)
    ensures
        r == is_space(b),
{
    b == 0x20 || b == 0x09 || b == 0x0a || b == 0x0c || b == 0x0d
}

/// The number of white-space bytes at the front of `s`.
pub open spec fn leading_space(s: Seq<u8>) -> int
    decreases s.len(),
{
    if s.len() > 0 && is_space(s[0]) {
        1 + leading_space(s.drop_first())
    } else {
        0
    }
}

/// The number of white-space bytes at the back of `s`.
pub open spec fn trailing_space(s: Seq<u8>) -> int
    decreases s.len(),
{
    if s.len() > 0 && is_space(s.last()) {
        1 + trailing_space(s.drop_last())
    } else {
        0
    }
}

/// `s` without the white space at its front and at its back.
pub open spec fn trimmed(s: Seq<u8>) -> Seq<u8> {
    let a = leading_space(s);
    let rest = s.subrange(a, s.len() as int);
    rest.subrange(0, rest.len() - trailing_space(rest))
}

/// `leading_space(s)` is the length of the longest all-white prefix of `s`.
pub proof fn lemma_leading_space(s: Seq<u8>)
    ensures
        0 <= leading_space(s) <= s.len(),
        forall|j: int| 0 <= j < leading_space(s) ==> is_space(s[j]),
        leading_space(s) < s.len() ==> !is_space(s[leading_space(s)]),
    decreases s.len(),
{
    if s.len() > 0 && is_space(s[0]) {
        let t = s.drop_first();
        lemma_leading_space(t);
        assert forall|j: int| 0 <= j < leading_space(s) implies is_space(s[j]) by {
            if j > 0 {
                assert(s[j] == t[j - 1]);
            }
        }
        if leading_space(s) < s.len() {
            assert(s[leading_space(s)] == t[leading_space(t)]);
        }
    }
}

/// A prefix of `n` white-space bytes that a non-white byte or the end of `s`
/// follows has the length `leading_space(s)`.
pub proof fn lemma_leading_space_is(s: Seq<u8>, n: int)
    requires
        0 <= n <= s.len(),
        forall|j: int| 0 <= j < n ==> is_space(s[j]),
        n < s.len() ==> !is_space(s[n]),
    ensures
        leading_space(s) == n,
    decreases s.len(),
{
    if n > 0 {
        let t = s.drop_first();
        assert forall|j: int| 0 <= j < n - 1 implies is_space(t[j]) by {
            assert(t[j] == s[j + 1]);
        }
        lemma_leading_space_is(t, n - 1);
    }
}

/// `trailing_space(s)` is the length of the longest all-white suffix of `s`.
pub proof fn lemma_trailing_space(s: Seq<u8>)
    ensures
        0 <= trailing_space(s) <= s.len(),
        forall|j: int| s.len() - trailing_space(s) <= j < s.len() ==> is_space(s[j]),
        trailing_space(s) < s.len() ==> !is_space(s[s.len() - trailing_space(s) - 1]),
    decreases s.len(),
{
    if s.len() > 0 && is_space(s.last()) {
        let t = s.drop_last();
        lemma_trailing_space(t);
        assert forall|j: int| s.len() - trailing_space(s) <= j < s.len() implies is_space(
            s[j],
        ) by {
            if j < s.len() - 1 {
                assert(s[j] == t[j]);
            }
        }
    }
}

/// A suffix of `n` white-space bytes that a non-white byte or the start of
/// `s` precedes has the length `trailing_space(s)`.
pub proof fn lemma_trailing_space_is(s: Seq<u8>, n: int)
    requires
        0 <= n <= s.len(),
        forall|j: int| s.len() - n <= j < s.len() ==> is_space(s[j]),
        n < s.len() ==> !is_space(s[s.len() - n - 1]),
    ensures
        trailing_space(s) == n,
    decreases s.len(),
{
    if n > 0 {
        let t = s.drop_last();
        lemma_trailing_space_is(t, n - 1);
    }
}

/// `trimmed(s)` is the part of `s` between its first and its last byte that
/// is not white space: only white space stands before it and after it, and
/// unless it is empty it begins and ends with a byte that is not white
/// space.
pub proof fn lemma_trimmed(s: Seq<u8>)
    ensures
        ({
            let a = leading_space(s);
            let b = a + trimmed(s).len();
            &&& 0 <= a <= b <= s.len()
            &&& trimmed(s) == s.subrange(a, b)
            &&& forall|j: int| 0 <= j < a || b <= j < s.len() ==> is_space(s[j])
            &&& a < b ==> !is_space(s[a]) && !is_space(s[b - 1])
        }),
{
    let a = leading_space(s);
    lemma_leading_space(s);
    let rest = s.subrange(a, s.len() as int);
    lemma_trailing_space(rest);
    let b = a + trimmed(s).len();
    assert(trimmed(s) =~= s.subrange(a, b));
    assert forall|j: int| 0 <= j < a || b <= j < s.len() implies is_space(s[j]) by {
        if j >= b {
            assert(s[j] == rest[j - a]);
        }
    }
    if a < b {
        assert(s[b - 1] == rest[b - 1 - a]);
    }
}

/// Removes the white space at the front and at the back of `s`.
pub fn trim<'a>(s: &'a [u8]) -> (r: &'a [u8])
    ensures
        r@ == trimmed(s@),
{
    let mut a: usize = 0;
    while a < s.len() && is_space_byte(s[a])
        invariant
            a <= s@.len(),
            forall|j: int| 0 <= j < a ==> is_space(s@[j]),
        decreases s@.len() - a,
    {
        a = a + 1;
    }
    let mut b: usize = s.len();
    while b > a && is_space_byte(s[b - 1])
        invariant
            a <= b <= s@.len(),
            forall|j: int| b <= j < s@.len() ==> is_space(s@[j]),
        decreases b,
    {
        b = b - 1;
    }
    proof {
        lemma_leading_space_is(s@, a as int);
        let rest = s@.subrange(a as int, s@.len() as int);
        assert forall|j: int| rest.len() - (s@.len() - b) <= j < rest.len() implies is_space(
            rest[j],
        ) by {
            assert(rest[j] == s@[j + a]);
        }
        lemma_trailing_space_is(rest, s@.len() - b);
        assert(rest.subrange(0, b - a) =~= s@.subrange(a as int, b as int));
    }
    slice_subrange(s, a, b)
}

} // verus!
