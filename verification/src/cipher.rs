//! The signature cipher: the three primitive string operations the
//! platform's client script applies to obfuscate stream signatures, and
//! the decoder that replays a recovered program over a signature.

use vstd::prelude::*;
use crate::info::ErrorExtractor;

verus! {

/// One primitive operation of the cipher program.
#[derive(Debug, Clone, Copy, PartialEq, Eq, Structural)]
pub enum CipherFunction {
    /// Exchange the character at position 0 with the character at the
    /// given position.
    Swap(usize),
    /// Drop the given number of leading characters.
    Slice(usize),
    /// Reverse the whole string.
    Reverse,
}

/// The signature with positions 0 and `i` exchanged.
pub open spec fn spec_swap(s: Seq<u8>, i: int) -> Seq<u8> {
    s.update(0, s[i]).update(i, s[0])
}

/// The signature without its first `i` characters; dropping more than the
/// whole string leaves it empty.
pub open spec fn spec_slice(s: Seq<u8>, i: int) -> Seq<u8> {
    if i <= s.len() {
        s.skip(i)
    } else {
        Seq::empty()
    }
}

/// What one operation yields on a signature; `None` when a swap position
/// lies outside the string.
pub open spec fn apply_op(op: CipherFunction, s: Seq<u8>) -> Option<Seq<u8>> {
    match op {
        CipherFunction::Swap(i) => if 0 < s.len() && (i as int) < s.len() {
            Some(spec_swap(s, i as int))
        } else {
            None
        },
        CipherFunction::Slice(i) => Some(spec_slice(s, i as int)),
        CipherFunction::Reverse => Some(s.reverse()),
    }
}

/// What a whole program yields on a signature, applying its operations
/// strictly in order; `None` as soon as one operation fails.
pub open spec fn apply_program(prog: Seq<CipherFunction>, s: Seq<u8>) -> Option<Seq<u8>>
    decreases prog.len(),
{
    if prog.len() == 0 {
        Some(s)
    } else {
        match apply_op(prog[0], s) {
            Some(t) => apply_program(prog.drop_first(), t),
            None => None,
        }
    }
}

/// The empty cipher program returns its input unchanged.
pub proof fn lemma_empty_program_identity(s: Seq<u8>)
    ensures
        apply_program(Seq::<CipherFunction>::empty(), s) == Some(s),
{
}

/// Reverse the signature in place.
pub fn reverse(s: &mut Vec<u8>)
    ensures
        final(s)@ == old(s)@.reverse(),
{
    let mut t: Vec<u8> = Vec::new();
    let mut i: usize = s.len();
    while i > 0
        invariant
            i <= s.len(),
            t@.len() == s@.len() - i,
            forall|k: int| 0 <= k < t@.len() ==> t@[k] == s@[s@.len() - 1 - k],
        decreases i,
    {
        i = i - 1;
        t.push(s[i]);
    }
    assert(t@ =~= s@.reverse());
    *s = t;
}

/// Drop the first `i` characters of the signature; dropping more than the
/// whole string leaves it empty.
pub fn slice(s: &mut Vec<u8>, i: usize)
    ensures
        final(s)@ == spec_slice(old(s)@, i as int),
{
    if i >= s.len() {
        let t: Vec<u8> = Vec::new();
        assert(t@ =~= spec_slice(s@, i as int));
        *s = t;
        return ;
    }
    let mut t: Vec<u8> = Vec::new();
    let mut k: usize = i;
    while k < s.len()
        invariant
            i <= k <= s@.len(),
            t@.len() == k - i,
            forall|m: int| 0 <= m < t@.len() ==> t@[m] == s@[i + m],
        decreases s.len() - k,
    {
        t.push(s[k]);
        k = k + 1;
    }
    assert(t@ =~= spec_slice(s@, i as int));
    *s = t;
}

/// Exchange the character at position 0 with the character at position `i`.
pub fn swap(s: &mut Vec<u8>, i: usize)
    requires
        0 < old(s).len(),
        i < old(s).len(),
    ensures
        final(s)@ == spec_swap(old(s)@, i as int),
{
    let a = s[0];
    let b = s[i];
    s.set(0, b);
    s.set(i, a);
}

/// Replay a recovered cipher program over an encoded signature, applying
/// its operations strictly in recorded order. Fails exactly when some swap
/// position lies outside the signature at the moment it is applied.
pub fn decode_signature(prog: &Vec<CipherFunction>, sig: Vec<u8>) -> (r: Result<
    Vec<u8>,
    ErrorExtractor,
>)
    ensures
        match apply_program(prog@, sig@) {
            Some(t) => r matches Ok(v) && v@ == t,
            None => r matches Err(e) && e matches ErrorExtractor::ErrorParsing(_),
        },
{
    let mut cur = sig;
    let mut p: usize = 0;
    assert(prog@.skip(0) =~= prog@);
    while p < prog.len()
        invariant
            p <= prog@.len(),
            apply_program(prog@, sig@) == apply_program(prog@.skip(p as int), cur@),
        decreases prog@.len() - p,
    {
        let ghost pre = cur@;
        let op = prog[p];
        match op {
            CipherFunction::Swap(i) => {
                if cur.len() == 0 || i >= cur.len() {
                    assert(apply_op(prog@.skip(p as int)[0], cur@) is None);
                    assert(apply_program(prog@.skip(p as int), cur@) is None);
                    return Err(
                        ErrorExtractor::ErrorParsing(
                            String::from_str("Swap position outside the signature"),
                        ),
                    );
                }
                swap(&mut cur, i);
            },
            CipherFunction::Slice(i) => {
                slice(&mut cur, i);
            },
            CipherFunction::Reverse => {
                reverse(&mut cur);
            },
        }
        proof {
            assert(prog@.skip(p as int)[0] == prog@[p as int]);
            assert(apply_op(prog@[p as int], pre) == Some(cur@));
            assert(prog@.skip(p as int).drop_first() =~= prog@.skip(p + 1));
        }
        p = p + 1;
    }
    assert(prog@.skip(p as int) =~= Seq::<CipherFunction>::empty());
    Ok(cur)
}

} // verus!
