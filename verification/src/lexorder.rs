//! Byte-wise lexicographic order on byte strings: the order in which tree
//! entries are serialized.

use vstd::prelude::*;

verus! {

/// `a` is lexicographically at or before `b`, comparing byte by byte, a
/// prefix coming before anything it prefixes.
pub open spec fn lex_le(a: Seq<u8>, b: Seq<u8>) -> bool
    decreases a.len(),
{
    if a.len() == 0 {
        true
    } else if b.len() == 0 {
        false
    } else if a[0] < b[0] {
        true
    } else if a[0] > b[0] {
        false
    } else {
        lex_le(a.drop_first(), b.drop_first())
    }
}

/// The order is total: any two byte strings compare one way or the other.
pub proof fn lemma_lex_le_total(a: Seq<u8>, b: Seq<u8>)
    ensures
        lex_le(a, b) || lex_le(b, a),
    decreases a.len(),
{
    if a.len() != 0 && b.len() != 0 && a[0] == b[0] {
        lemma_lex_le_total(a.drop_first(), b.drop_first());
    }
}

/// The order is transitive.
pub proof fn lemma_lex_le_trans(a: Seq<u8>, b: Seq<u8>, c: Seq<u8>)
    requires
        lex_le(a, b),
        lex_le(b, c),
    ensures
        lex_le(a, c),
    decreases a.len(),
{
    if a.len() != 0 && b.len() != 0 && c.len() != 0 && a[0] == b[0] && b[0] == c[0] {
        lemma_lex_le_trans(a.drop_first(), b.drop_first(), c.drop_first());
    }
}

/// The order is antisymmetric: mutual order means equal strings.
pub proof fn lemma_lex_le_antisym(a: Seq<u8>, b: Seq<u8>)
    requires
        lex_le(a, b),
        lex_le(b, a),
    ensures
        a == b,
    decreases a.len(),
{
    if a.len() != 0 && b.len() != 0 && a[0] == b[0] {
        lemma_lex_le_antisym(a.drop_first(), b.drop_first());
        assert(a =~= seq![a[0]] + a.drop_first());
        assert(b =~= seq![b[0]] + b.drop_first());
    } else {
        assert(a =~= b);
    }
}

/// Compares two byte strings in lexicographic order.
pub fn lex_le_bytes(a: &[u8], b: &[u8]) -> (r: bool)
    ensures
        r == lex_le(a@, b@),
{
    let mut i: usize = 0;
    proof {
        assert(a@.skip(0) =~= a@);
        assert(b@.skip(0) =~= b@);
    }
    loop
        invariant
            i <= a@.len(),
            i <= b@.len(),
            forall|j: int| 0 <= j < i ==> a@[j] == b@[j],
            lex_le(a@, b@) == lex_le(a@.skip(i as int), b@.skip(i as int)),
        decreases a@.len() - i,
    {
        if i >= a.len() {
            return true;
        }
        if i >= b.len() {
            return false;
        }
        let x = a[i];
        let y = b[i];
        if x < y {
            return true;
        }
        if x > y {
            return false;
        }
        proof {
            assert(a@.skip(i as int).drop_first() =~= a@.skip(i as int + 1));
            assert(b@.skip(i as int).drop_first() =~= b@.skip(i as int + 1));
        }
        i = i + 1;
    }
}

} // verus!
