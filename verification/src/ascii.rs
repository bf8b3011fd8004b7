//! ASCII character facts used across the crate: uppercasing of color codes
//! and formatting of hexadecimal digits.

use vstd::prelude::*;

verus! {

/// ASCII uppercasing of a single character: the letters `'a'..='z'` are
/// mapped to `'A'..='Z'`; every other character is unchanged.
pub open spec fn upper_char(c: char) -> char {
    if 97 <= c as u32 && c as u32 <= 122 {
        ((c as u32) - 32) as char
    } else {
        c
    }
}

/// ASCII uppercasing of a whole string, character by character.
pub open spec fn upper_str(s: Seq<char>) -> Seq<char> {
    s.map_values(|c: char| upper_char(c))
}

/// ASCII uppercasing of every string in a sequence.
pub open spec fn upper_all(cs: Seq<Seq<char>>) -> Seq<Seq<char>> {
    cs.map_values(|s: Seq<char>| upper_str(s))
}

/// A string is canonical (uppercase at rest) when uppercasing it changes nothing.
pub open spec fn is_upper(s: Seq<char>) -> bool {
    s == upper_str(s)
}

/// Uppercasing is idempotent on a single character.
pub proof fn lemma_upper_char_idempotent(c: char)
    ensures
        upper_char(upper_char(c)) == upper_char(c),
{
}

/// Uppercasing is idempotent on strings, so an uppercased string is canonical.
pub proof fn lemma_upper_str_idempotent(s: Seq<char>)
    ensures
        upper_str(upper_str(s)) == upper_str(s),
        is_upper(upper_str(s)),
{
    assert(upper_str(upper_str(s)) =~= upper_str(s)) by {
        assert forall|i: int| 0 <= i < s.len() implies upper_str(upper_str(s))[i] == upper_str(
            s,
        )[i] by {
            lemma_upper_char_idempotent(s[i]);
        }
    }
}

/// Relies on `str::to_ascii_uppercase`: it returns a copy of the string with
/// each ASCII lowercase letter replaced by its uppercase counterpart and all
/// other characters unchanged.
#[verifier::external_body]
pub(crate) fn to_upper(s: &str) -> (r: String)
    ensures
        r@ == upper_str(s@),
{
    s.to_ascii_uppercase()
}

/// Uppercases every string of a vector, in order.
pub fn upper_vec(strs: &Vec<String>) -> (r: Vec<String>)
    ensures
        r.deep_view() == upper_all(strs.deep_view()),
{
    let mut r: Vec<String> = Vec::new();
    let n = strs.len();
    let mut i: usize = 0;
    while i < n
        invariant
            i <= n,
            n == strs@.len(),
            r@.len() == i,
            forall|k: int| 0 <= k < i ==> r@[k]@ == upper_str(strs@[k]@),
        decreases n - i,
    {
        r.push(to_upper(strs[i].as_str()));
        i += 1;
    }
    proof {
        assert(r.deep_view() =~= upper_all(strs.deep_view()));
    }
    r
}

/// Deep equality of two string vectors: same length, same characters in
/// every position.
pub fn string_vecs_eq(a: &Vec<String>, b: &Vec<String>) -> (r: bool)
    ensures
        r == (a.deep_view() == b.deep_view()),
{
    if a.len() != b.len() {
        proof {
            assert(a.deep_view().len() != b.deep_view().len());
        }
        return false;
    }
    let n = a.len();
    let mut i: usize = 0;
    while i < n
        invariant
            i <= n,
            n == a@.len(),
            n == b@.len(),
            forall|k: int| 0 <= k < i ==> a@[k]@ == b@[k]@,
        decreases n - i,
    {
        if !(a[i] == b[i]) {
            proof {
                assert(a.deep_view()[i as int] != b.deep_view()[i as int]);
            }
            return false;
        }
        i += 1;
    }
    proof {
        assert(a.deep_view() =~= b.deep_view());
    }
    true
}

/// Relies on `String::from_utf8`: a sequence of ASCII bytes (values below
/// 128) is valid UTF-8 and decodes to the characters with the same code
/// points, one character per byte.
#[verifier::external_body]
pub(crate) fn ascii_to_string(bytes: Vec<u8>) -> (r: String)
    requires
        forall|i: int| 0 <= i < bytes@.len() ==> bytes@[i] < 128,
    ensures
        r@ == bytes@.map_values(|b: u8| b as char),
{
    match String::from_utf8(bytes) {
        Ok(s) => s,
        Err(_) => String::new(),
    }
}

} // verus!
