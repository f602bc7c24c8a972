//! Byte-level scanning utilities: substring occurrence and first-match
//! search over page text.

use vstd::prelude::*;

verus! {

/// `needle` occurs in `hay` starting at position `i`.
pub open spec fn occurs_at(hay: Seq<u8>, needle: Seq<u8>, i: int) -> bool {
    0 <= i && i + needle.len() <= hay.len() && hay.subrange(i, i + needle.len() as int)
        == needle
}

/// No occurrence of `needle` in `hay` begins anywhere in `[from, to)`.
pub open spec fn no_occurrence_in(hay: Seq<u8>, needle: Seq<u8>, from: int, to: int) -> bool {
    forall|j: int| from <= j < to ==> !occurs_at(hay, needle, j)
}

/// Does `needle` occur in `hay` at exactly position `i`?
pub fn starts_with_at(hay: &[u8], needle: &[u8], i: usize) -> (r: bool)
    ensures
        r == occurs_at(hay@, needle@, i as int),
{
    if i > hay.len() || hay.len() - i < needle.len() {
        assert(!occurs_at(hay@, needle@, i as int));
        return false;
    }
    let mut k: usize = 0;
    while k < needle.len()
        invariant
            i + needle.len() <= hay.len(),
            k <= needle.len(),
            forall|m: int| 0 <= m < k ==> hay@[i + m] == needle@[m],
        decreases needle.len() - k,
    {
        if hay[i + k] != needle[k] {
            assert(hay@.subrange(i as int, i + needle@.len()) != needle@) by {
                assert(hay@.subrange(i as int, i + needle@.len())[k as int] != needle@[k as int]);
            }
            return false;
        }
        k = k + 1;
    }
    assert(hay@.subrange(i as int, i + needle@.len()) =~= needle@);
    true
}

/// The first position at or after `from` where `needle` occurs in `hay`.
pub open spec fn sp_find(hay: Seq<u8>, needle: Seq<u8>, from: int) -> Option<int>
    decreases hay.len() - from,
{
    if from < 0 || from > hay.len() {
        None
    } else if occurs_at(hay, needle, from) {
        Some(from)
    } else if from == hay.len() {
        None
    } else {
        sp_find(hay, needle, from + 1)
    }
}

/// A position that is an occurrence, with none before it, is what
/// `sp_find` names.
pub proof fn lemma_sp_find_some(hay: Seq<u8>, needle: Seq<u8>, from: int, i: int)
    requires
        0 <= from <= i,
        occurs_at(hay, needle, i),
        no_occurrence_in(hay, needle, from, i),
    ensures
        sp_find(hay, needle, from) == Some(i),
    decreases i - from,
{
    if from < i {
        assert(!occurs_at(hay, needle, from));
        lemma_sp_find_some(hay, needle, from + 1, i);
    }
}

/// Where a non-empty pattern occurs nowhere at or after `from`, `sp_find`
/// names nothing.
pub proof fn lemma_sp_find_none(hay: Seq<u8>, needle: Seq<u8>, from: int)
    requires
        0 <= from <= hay.len(),
        needle.len() > 0,
        no_occurrence_in(hay, needle, from, hay.len() as int),
    ensures
        sp_find(hay, needle, from) is None,
    decreases hay.len() - from,
{
    assert(!occurs_at(hay, needle, hay.len() as int));
    if from < hay.len() {
        lemma_sp_find_none(hay, needle, from + 1);
    }
}

/// Do two byte strings hold the same bytes?
pub fn bytes_eq(a: &[u8], b: &[u8]) -> (r: bool)
    ensures
        r == (a@ == b@),
{
    if a.len() != b.len() {
        return false;
    }
    let r = starts_with_at(a, b, 0);
    proof {
        assert(a@.subrange(0, a@.len() as int) =~= a@);
    }
    r
}

/// First position at or after `from` where `needle` occurs in `hay`.
pub fn find_from(hay: &[u8], needle: &[u8], from: usize) -> (r: Option<usize>)
    ensures
        match r {
            Some(i) => from <= i && occurs_at(hay@, needle@, i as int) && no_occurrence_in(
                hay@,
                needle@,
                from as int,
                i as int,
            ),
            None => no_occurrence_in(hay@, needle@, from as int, hay@.len() as int),
        },
{
    let mut i: usize = from;
    while i < hay.len()
        invariant
            from <= i,
            no_occurrence_in(hay@, needle@, from as int, i as int),
        decreases hay.len() - i,
    {
        if starts_with_at(hay, needle, i) {
            return Some(i);
        }
        i = i + 1;
    }
    None
}

} // verus!
