//! Prefixes of sequences.

use vstd::prelude::*;

verus! {

/// Whether `s` is a prefix of `t`.
pub open spec fn is_prefix<A>(s: Seq<A>, t: Seq<A>) -> bool {
    s.len() <= t.len() && t.subrange(0, s.len() as int) == s
}

/// Prefixes compose.
pub broadcast proof fn lemma_prefix_trans<A>(s: Seq<A>, t: Seq<A>, u: Seq<A>)
    requires
        #[trigger] is_prefix(s, t),
        #[trigger] is_prefix(t, u),
    ensures
        is_prefix(s, u),
{
    assert(u.subrange(0, s.len() as int) =~= t.subrange(0, s.len() as int));
}

/// Every sequence is a prefix of itself.
pub broadcast proof fn lemma_prefix_refl<A>(s: Seq<A>)
    ensures
        #[trigger] is_prefix(s, s),
{
    assert(s.subrange(0, s.len() as int) =~= s);
}

/// A sequence is a prefix of itself with one more element.
pub broadcast proof fn lemma_prefix_push<A>(s: Seq<A>, x: A)
    ensures
        #[trigger] is_prefix(s, s.push(x)),
{
    assert(s.push(x).subrange(0, s.len() as int) =~= s);
}

pub broadcast group group_prefix {
    lemma_prefix_trans,
    lemma_prefix_refl,
    lemma_prefix_push,
}


} // verus!
