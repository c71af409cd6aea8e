//! Listener identities and their normal form.
//!
//! A client that reconnects comes back under its name with a new numeric
//! suffix, as in `sam-1234`. Identities are compared by what stands before
//! that suffix.

use crate::text::{prefixes_equal, to_chars};
use vstd::prelude::*;

verus! {

/// An ASCII decimal digit.
pub open spec fn is_digit(c: char) -> bool {
    48 <= c as u32 <= 57
}

/// Where the trailing run of digits begins; the length where there is none.
pub open spec fn digits_start(id: Seq<char>) -> int
    decreases id.len(),
{
    if id.len() > 0 && is_digit(id.last()) {
        digits_start(id.drop_last())
    } else {
        id.len() as int
    }
}

/// Whether the identity ends in a hyphen followed by one or more digits.
pub open spec fn has_reconnect_suffix(id: Seq<char>) -> bool {
    let d = digits_start(id);
    0 < d < id.len() && id[d - 1] == '-'
}

/// Length of the identity without its reconnect suffix.
pub open spec fn base_len(id: Seq<char>) -> int {
    if has_reconnect_suffix(id) {
        digits_start(id) - 1
    } else {
        id.len() as int
    }
}

/// The identity without its reconnect suffix.
pub open spec fn base_of(id: Seq<char>) -> Seq<char> {
    id.subrange(0, base_len(id))
}

/// Whether two identities name the same listener.
pub open spec fn same_listener(a: Seq<char>, b: Seq<char>) -> bool {
    base_of(a) == base_of(b)
}

/// The trailing run of digits lies within the identity, holds digits only,
/// and is not preceded by another digit.
pub proof fn lemma_digits_start(id: Seq<char>)
    ensures
        0 <= digits_start(id) <= id.len(),
        forall|j: int| digits_start(id) <= j < id.len() ==> is_digit(#[trigger] id[j]),
        digits_start(id) > 0 ==> !is_digit(id[digits_start(id) - 1]),
    decreases id.len(),
{
    if id.len() > 0 && is_digit(id.last()) {
        let rest = id.drop_last();
        lemma_digits_start(rest);
        assert forall|j: int| digits_start(id) <= j < id.len() implies is_digit(
            #[trigger] id[j],
        ) by {
            if j < rest.len() {
                assert(id[j] == rest[j]);
            }
        }
    }
}

/// A digit run that is not preceded by a digit is the trailing run.
pub proof fn lemma_digits_start_unique(id: Seq<char>, d: int)
    requires
        0 <= d <= id.len(),
        forall|j: int| d <= j < id.len() ==> is_digit(#[trigger] id[j]),
        d > 0 ==> !is_digit(id[d - 1]),
    ensures
        digits_start(id) == d,
    decreases id.len(),
{
    if id.len() > 0 && is_digit(id.last()) {
        if d == id.len() {
            assert(!is_digit(id[d - 1]));
        }
        lemma_digits_start_unique(id.drop_last(), d);
    }
}

/// An identity made of a name, a hyphen and a non-empty run of digits has the
/// name as its base.
pub proof fn lemma_suffix_is_stripped(name: Seq<char>, digits: Seq<char>)
    requires
        digits.len() > 0,
        forall|j: int| 0 <= j < digits.len() ==> is_digit(#[trigger] digits[j]),
    ensures
        base_of(name + seq!['-'] + digits) == name,
{
    let id = name + seq!['-'] + digits;
    let d = name.len() as int + 1;
    assert(id[d - 1] == '-');
    assert forall|j: int| d <= j < id.len() implies is_digit(#[trigger] id[j]) by {
        assert(id[j] == digits[j - d]);
    }
    lemma_digits_start_unique(id, d);
    assert(id.subrange(0, d - 1) =~= name);
}

/// An identity that does not end in a hyphen and digits is its own base.
pub proof fn lemma_plain_identity_is_kept(id: Seq<char>)
    requires
        !has_reconnect_suffix(id),
    ensures
        base_of(id) == id,
{
    assert(id.subrange(0, id.len() as int) =~= id);
}

/// Whether a character is an ASCII decimal digit.
pub fn is_ascii_digit(c: char) -> (digit: bool)
    ensures
        digit == is_digit(c),
{
    let code = c as u32;
    48 <= code && code <= 57
}

/// Length of the base of an identity given by its characters.
pub fn base_length(chars: &Vec<char>) -> (len: usize)
    ensures
        len == base_len(chars@),
        len <= chars@.len(),
{
    let n = chars.len();
    let mut d: usize = n;
    while d > 0 && is_ascii_digit(chars[d - 1])
        invariant
            n == chars@.len(),
            d <= n,
            forall|j: int| d <= j < n ==> is_digit(#[trigger] chars@[j]),
        decreases d,
    {
        d -= 1;
    }
    proof {
        lemma_digits_start_unique(chars@, d as int);
    }
    if 0 < d && d < n && chars[d - 1] == '-' {
        d - 1
    } else {
        n
    }
}

/// Strips the reconnect suffix: `sam-1234` gives `sam`.
pub fn identity_base(identity: &str) -> (base: &str)
    ensures
        base@ == base_of(identity@),
{
    let chars = to_chars(identity);
    let len = base_length(&chars);
    identity.substring_char(0, len)
}

/// Whether two identities name the same listener: their bases are equal.
pub fn is_same_listener(a: &str, b: &str) -> (same: bool)
    ensures
        same == same_listener(a@, b@),
{
    let a_chars = to_chars(a);
    let b_chars = to_chars(b);
    let a_len = base_length(&a_chars);
    let b_len = base_length(&b_chars);
    prefixes_equal(&a_chars, a_len, &b_chars, b_len)
}

} // verus!
