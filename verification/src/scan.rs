//! Finding a tagged key in a byte stream.
//!
//! A tagged key is a type tag, an ASCII key name and a terminating nul byte.
//! The file format writes key names in no fixed letter case, so keys are
//! matched byte by byte without regard to ASCII case.

use vstd::prelude::*;
use crate::ascii::{eq_ignore_ascii_case, maybe_u8_eq_ignore_ascii_case};
use crate::cursor::Cursor;

verus! {

broadcast use vstd::slice::group_slice_axioms;

/// `key` stands in `s` at offset `at`, letter case aside.
pub open spec fn matches_at(s: Seq<u8>, at: int, key: Seq<u8>) -> bool {
    &&& 0 <= at
    &&& at + key.len() <= s.len()
    &&& forall|j: int| 0 <= j < key.len() ==> eq_ignore_ascii_case(s[at + j], #[trigger] key[j])
}

/// `key` occurs somewhere in `s`.
pub open spec fn has_match(s: Seq<u8>, key: Seq<u8>) -> bool {
    exists|at: int| matches_at(s, at, key)
}

/// `at` is the offset of the first occurrence of `key` in `s`.
pub open spec fn is_first_match(s: Seq<u8>, at: int, key: Seq<u8>) -> bool {
    &&& matches_at(s, at, key)
    &&& forall|i: int| 0 <= i < at ==> !matches_at(s, i, key)
}

/// The offset of the first occurrence of `key` in `s`, where there is one.
pub open spec fn first_match(s: Seq<u8>, key: Seq<u8>) -> int {
    choose|at: int| is_first_match(s, at, key)
}

/// What is left of `s` behind the first occurrence of `key`, or `None` where
/// `key` does not occur.
pub open spec fn after_key(s: Seq<u8>, key: Seq<u8>) -> Option<Seq<u8>> {
    if has_match(s, key) {
        Some(s.skip(first_match(s, key) + key.len()))
    } else {
        None
    }
}

/// The key starts with a tag byte that none of its later bytes equals, letter
/// case aside.
///
/// The search restarts at the byte that broke a partial match and never looks
/// back, which finds every occurrence only of keys of this shape.
pub open spec fn tag_is_unique(key: Seq<u8>) -> bool {
    &&& key.len() > 0
    &&& forall|j: int| 0 < j < key.len() ==> !eq_ignore_ascii_case(key[0], #[trigger] key[j])
}

/// Tests whether `key` has the shape that the search relies on.
pub fn has_unique_tag(key: &[u8]) -> (unique: bool)
    ensures
        unique == tag_is_unique(key@),
{
    if key.len() == 0 {
        return false;
    }
    let mut j: usize = 1;
    while j < key.len()
        invariant
            1 <= j <= key@.len(),
            forall|t: int| 0 < t < j ==> !eq_ignore_ascii_case(key@[0], #[trigger] key@[t]),
        decreases key@.len() - j,
    {
        if maybe_u8_eq_ignore_ascii_case(key.get(0), key.get(j)) {
            return false;
        }
        j = j + 1;
    }
    true
}

/// Advances `it` to just behind the first occurrence of `needle`, letter case
/// aside, and says whether there was one. Without an occurrence the cursor
/// ends at the end of the buffer.
pub fn after_many_case_insensitive(it: &mut Cursor, needle: &[u8]) -> (found: bool)
    requires
        tag_is_unique(needle@),
    ensures
        found == has_match(old(it)@, needle@),
        final(it)@ == match after_key(old(it)@, needle@) {
            Some(rest) => rest,
            None => Seq::empty(),
        },
{
    let ghost s = it@;
    let ghost key = needle@;
    loop
        invariant
            s == old(it)@,
            key == needle@,
            tag_is_unique(key),
            it@.len() <= s.len(),
            it@ == s.skip(s.len() - it@.len()),
            forall|i: int| 0 <= i < s.len() - it@.len() ==> !matches_at(s, i, key),
        decreases it@.len(),
    {
        let ghost start = s.len() - it@.len();
        let b = it.next();
        if b.is_none() {
            return false;
        }
        if maybe_u8_eq_ignore_ascii_case(needle.get(0), b) {
            let mut j: usize = 1;
            let mut matching = true;
            while matching
                invariant
                    s == old(it)@,
                    key == needle@,
                    tag_is_unique(key),
                    0 <= start,
                    1 <= j <= key.len(),
                    start + j == s.len() - it@.len(),
                    it@ == s.skip(start + j),
                    forall|t: int|
                        0 <= t < j ==> eq_ignore_ascii_case(s[start + t], #[trigger] key[t]),
                    !matching ==> !matches_at(s, start, key),
                    forall|i: int| 0 <= i < start ==> !matches_at(s, i, key),
                decreases key.len() - j, matching as int,
            {
                if j == needle.len() {
                    proof {
                        lemma_first_match_is(s, key, start);
                    }
                    return true;
                }
                if maybe_u8_eq_ignore_ascii_case(needle.get(j), it.peek()) {
                    let _ = it.next();
                    j = j + 1;
                } else {
                    matching = false;
                }
            }
            proof {
                // The search goes on at the byte that broke the match. No
                // occurrence starts before it: one would start with a byte
                // that equals the tag and a later byte of the key at once.
                assert forall|i: int| start < i < start + j implies !matches_at(s, i, key) by {
                    if matches_at(s, i, key) {
                        assert(eq_ignore_ascii_case(s[start + (i - start)], key[i - start]));
                    }
                }
            }
        }
    }
}

/// There is at most one first occurrence.
pub proof fn lemma_first_match_unique(s: Seq<u8>, key: Seq<u8>, a: int, b: int)
    requires
        is_first_match(s, a, key),
        is_first_match(s, b, key),
    ensures
        a == b,
{
}

/// A key that occurs at `at` has a first occurrence, at `at` or before it,
/// and `first_match` names it.
pub proof fn lemma_first_match_exists(s: Seq<u8>, key: Seq<u8>, at: int)
    requires
        matches_at(s, at, key),
    ensures
        is_first_match(s, first_match(s, key), key),
        first_match(s, key) <= at,
    decreases at,
{
    if exists|i: int| 0 <= i < at && matches_at(s, i, key) {
        let i = choose|i: int| 0 <= i < at && matches_at(s, i, key);
        lemma_first_match_exists(s, key, i);
    } else {
        lemma_first_match_unique(s, key, at, first_match(s, key));
    }
}

/// An offset that is known to be the first occurrence is the one that
/// `first_match` names.
pub proof fn lemma_first_match_is(s: Seq<u8>, key: Seq<u8>, at: int)
    requires
        is_first_match(s, at, key),
    ensures
        has_match(s, key),
        first_match(s, key) == at,
        after_key(s, key) == Some(s.skip(at + key.len())),
{
    lemma_first_match_unique(s, key, at, first_match(s, key));
}

/// What is left behind a key is a suffix of the input, shorter than the
/// input by the length of the key at least.
pub proof fn lemma_after_key_is_suffix(s: Seq<u8>, key: Seq<u8>)
    ensures
        match after_key(s, key) {
            Some(rest) => {
                &&& rest == s.skip(s.len() - rest.len())
                &&& rest.len() + key.len() <= s.len()
            },
            None => !has_match(s, key),
        },
{
    if has_match(s, key) {
        let at = choose|at: int| matches_at(s, at, key);
        lemma_first_match_exists(s, key, at);
    }
}

/// Two byte strings of one length that differ in letter case at most.
pub open spec fn same_ignoring_case(a: Seq<u8>, b: Seq<u8>) -> bool {
    &&& a.len() == b.len()
    &&& forall|i: int| 0 <= i < a.len() ==> eq_ignore_ascii_case(#[trigger] a[i], b[i])
}

/// A key at the very start of the input, spelled in whatever letter case, is
/// its first occurrence.
pub proof fn lemma_key_at_start(key: Seq<u8>, spelled: Seq<u8>, tail: Seq<u8>)
    requires
        same_ignoring_case(spelled, key),
    ensures
        has_match(spelled + tail, key),
        after_key(spelled + tail, key) == Some(tail),
{
    let s = spelled + tail;
    assert(matches_at(s, 0, key)) by {
        assert forall|j: int| 0 <= j < key.len() implies eq_ignore_ascii_case(
            s[0 + j],
            #[trigger] key[j],
        ) by {
            assert(s[0 + j] == spelled[j]);
        }
    }
    lemma_first_match_is(s, key, 0);
    assert(s.skip(key.len() as int) =~= tail);
}

/// The letter case of a key does not matter: keys that differ in case alone
/// occur at the same offsets.
pub proof fn lemma_key_case_is_irrelevant(s: Seq<u8>, key: Seq<u8>, other: Seq<u8>)
    requires
        same_ignoring_case(key, other),
    ensures
        forall|at: int| matches_at(s, at, key) == matches_at(s, at, other),
        has_match(s, key) == has_match(s, other),
        after_key(s, key) == after_key(s, other),
{
    assert forall|at: int| matches_at(s, at, key) == matches_at(s, at, other) by {
        if matches_at(s, at, key) {
            assert forall|j: int| 0 <= j < other.len() implies eq_ignore_ascii_case(
                s[at + j],
                #[trigger] other[j],
            ) by {
                assert(eq_ignore_ascii_case(s[at + j], key[j]));
            }
        }
        if matches_at(s, at, other) {
            assert forall|j: int| 0 <= j < key.len() implies eq_ignore_ascii_case(
                s[at + j],
                #[trigger] key[j],
            ) by {
                assert(eq_ignore_ascii_case(s[at + j], other[j]));
            }
        }
    }
    if has_match(s, key) {
        let at = choose|at: int| matches_at(s, at, key);
        lemma_first_match_exists(s, key, at);
        lemma_first_match_is(s, other, first_match(s, key));
    }
}

/// The letter case of the input does not matter: in inputs that differ in
/// case alone a key occurs at the same offsets.
pub proof fn lemma_input_case_is_irrelevant(s: Seq<u8>, t: Seq<u8>, key: Seq<u8>)
    requires
        same_ignoring_case(s, t),
    ensures
        forall|at: int| matches_at(s, at, key) == matches_at(t, at, key),
        has_match(s, key) == has_match(t, key),
        has_match(s, key) ==> first_match(s, key) == first_match(t, key),
{
    assert forall|at: int| matches_at(s, at, key) == matches_at(t, at, key) by {
        if 0 <= at && at + key.len() <= s.len() {
            assert forall|j: int| 0 <= j < key.len() implies (eq_ignore_ascii_case(
                s[at + j],
                #[trigger] key[j],
            ) <==> eq_ignore_ascii_case(t[at + j], key[j])) by {
                assert(eq_ignore_ascii_case(s[at + j], t[at + j]));
            }
        }
    }
    if has_match(s, key) {
        let at = choose|at: int| matches_at(s, at, key);
        lemma_first_match_exists(s, key, at);
        lemma_first_match_is(t, key, first_match(s, key));
    }
}

} // verus!
