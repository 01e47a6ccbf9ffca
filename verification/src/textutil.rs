//! Small verified helpers on strings and character vectors, shared by the
//! text-processing modules.

use vstd::prelude::*;
use vstd::string::StrSliceExecFns;

verus! {

/// Character-wise string equality: `r == (a@ == b@)`.
pub fn str_eq(a: &str, b: &str) -> (r: bool)
    ensures
        r == (a@ == b@),
{
    let alen = a.unicode_len();
    let blen = b.unicode_len();
    if alen != blen {
        assert(a@ != b@) by {
            assert(a@.len() != b@.len());
        }
        return false;
    }
    let mut i: usize = 0;
    while i < alen
        invariant
            i <= alen,
            alen == a@.len(),
            alen == b@.len(),
            forall|j: int| 0 <= j < i ==> a@[j] == b@[j],
        decreases alen - i,
    {
        if a.get_char(i) != b.get_char(i) {
            assert(a@ != b@) by {
                assert(a@[i as int] != b@[i as int]);
            }
            return false;
        }
        i += 1;
    }
    assert(a@ =~= b@);
    true
}

/// The characters of `s`, in order, as a vector.
///
/// Relies on `str::chars`: the iterator yields exactly the characters of the
/// string, in order.
#[verifier::external_body]
pub fn str_to_chars(s: &str) -> (v: Vec<char>)
    ensures
        v@ == s@,
{
    s.chars().collect()
}

/// A string holding exactly the characters of `v`, in order.
///
/// Relies on `String`'s `FromIterator` over `char`: collecting characters
/// builds the string of those characters in order.
#[verifier::external_body]
pub fn chars_to_string(v: &Vec<char>) -> (s: String)
    ensures
        s@ == v@,
{
    v.iter().collect()
}

/// Pushes every character of `src` onto `dst`, in order.
pub fn extend_chars(dst: &mut Vec<char>, src: &Vec<char>)
    ensures
        final(dst)@ == old(dst)@ + src@,
{
    let mut i: usize = 0;
    while i < src.len()
        invariant
            i <= src.len(),
            dst@ == old(dst)@ + src@.take(i as int),
        decreases src.len() - i,
    {
        dst.push(src[i]);
        assert(src@.take(i + 1int) == src@.take(i as int).push(src@[i as int]));
        i += 1;
    }
    assert(src@.take(src.len() as int) == src@);
}


/// The characters of `s` from `a` (inclusive) to `b` (exclusive).
pub fn sub_chars(s: &Vec<char>, a: usize, b: usize) -> (r: Vec<char>)
    requires
        a <= b <= s@.len(),
    ensures
        r@ == s@.subrange(a as int, b as int),
{
    let mut out: Vec<char> = Vec::new();
    let mut k: usize = a;
    while k < b
        invariant
            a <= k <= b <= s@.len(),
            out@ == s@.subrange(a as int, k as int),
        decreases b - k,
    {
        out.push(s[k]);
        assert(s@.subrange(a as int, k + 1int) =~= s@.subrange(a as int, k as int).push(
            s@[k as int],
        ));
        k += 1;
    }
    out
}


/// Whether a character counts as alphanumeric, over all of Unicode.
pub uninterp spec fn is_alphanum(c: char) -> bool;

/// Relies on `char::is_alphanumeric`: a fixed classification over Unicode
/// letters and digits, depending on the character alone.
#[verifier::external_body]
fn is_alphanumeric_exec(c: char) -> (r: bool)
    ensures
        r == is_alphanum(c),
{
    c.is_alphanumeric()
}

/// The first `max_len` characters of `text`, with every character that is
/// not alphanumeric replaced by an underscore.
pub fn sanitize_filename(text: &str, max_len: usize) -> (r: String)
    ensures
        r@.len() == if text@.len() < max_len {
            text@.len()
        } else {
            max_len as nat
        },
        forall|i: int|
            0 <= i < r@.len() ==> r@[i] == (if is_alphanum(text@[i]) {
                text@[i]
            } else {
                '_'
            }),
{
    let v = str_to_chars(text);
    let n = if v.len() < max_len {
        v.len()
    } else {
        max_len
    };
    let mut out: Vec<char> = Vec::new();
    let mut i: usize = 0;
    while i < n
        invariant
            i <= n,
            n <= v@.len(),
            v@ == text@,
            out@.len() == i,
            forall|k: int|
                0 <= k < i ==> out@[k] == (if is_alphanum(text@[k]) {
                    text@[k]
                } else {
                    '_'
                }),
        decreases n - i,
    {
        let c = v[i];
        if is_alphanumeric_exec(c) {
            out.push(c);
        } else {
            out.push('_');
        }
        i += 1;
    }
    chars_to_string(&out)
}


/// Pushes every value of `src` onto `dst`, in order.
pub fn extend_vec<T: Copy>(dst: &mut Vec<T>, src: &Vec<T>)
    ensures
        final(dst)@ == old(dst)@ + src@,
{
    let mut i: usize = 0;
    while i < src.len()
        invariant
            i <= src.len(),
            dst@ == old(dst)@ + src@.take(i as int),
        decreases src.len() - i,
    {
        dst.push(src[i]);
        assert(src@.take(i + 1int) =~= src@.take(i as int).push(src@[i as int]));
        i += 1;
    }
    assert(src@.take(src@.len() as int) =~= src@);
}


/// An owned copy of a string slice.
pub fn str_to_string(s: &str) -> (r: String)
    ensures
        r@ == s@,
{
    <String as vstd::string::StringExecFns>::from_str(s)
}

} // verus!
