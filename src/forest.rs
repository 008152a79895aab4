//! The mathematical model of a body forest: a sequence of parent links, one
//! per body in insertion order, where `None` means the body hangs from the
//! common frame that all roots share.
use vstd::prelude::*;

verus! {

/// Every parent link points to a body inserted earlier, which rules out
/// cycles.
pub open spec fn links_wf(links: Seq<Option<usize>>) -> bool {
    forall|i: int| 0 <= i < links.len() ==> (#[trigger] links[i] matches Some(p) ==> p < i)
}

/// `list` names, in increasing order, exactly the bodies whose link is
/// `above`.
pub open spec fn lists_exactly(links: Seq<Option<usize>>, list: Seq<usize>, above: Option<usize>) -> bool {
    &&& forall|j: int| 0 <= j < list.len() ==> #[trigger] list[j] < links.len() && links[list[j] as int] == above
    &&& forall|j: int, k: int| 0 <= j < k < list.len() ==> list[j] < list[k]
    &&& forall|c: int| 0 <= c < links.len() && #[trigger] links[c] == above ==> list.contains(c as usize)
}

/// Position of a node in the common frame, when body `b` sits `motion(b)`
/// away from the node above it. The frame itself (`None`) is at zero.
pub open spec fn abs_pos(links: Seq<Option<usize>>, motion: spec_fn(nat) -> int, node: Option<usize>) -> int
    decreases
            match node {
                Some(b) => b + 1,
                None => 0,
            },
{
    match node {
        None => 0,
        Some(b) => if b < links.len() && (links[b as int] matches Some(p) ==> p < b) {
            motion(b as nat) + abs_pos(links, motion, links[b as int])
        } else {
            0
        },
    }
}

/// Every body appears once, and after the body above it.
pub open spec fn is_top_down(links: Seq<Option<usize>>, order: Seq<usize>) -> bool {
    &&& order.len() == links.len()
    &&& order.no_duplicates()
    &&& forall|i: int| 0 <= i < order.len() ==> #[trigger] order[i] < links.len()
    &&& forall|i: int| 0 <= i < order.len() ==> (links[#[trigger] order[i] as int] matches Some(p) ==> exists|j: int| 0 <= j < i && order[j] == p)
}


/// The slots below `n`.
pub open spec fn slots_below(n: nat) -> Set<usize> {
    Set::new(|v: usize| v < n)
}

proof fn lemma_slots_below_len(n: nat)
    requires
        n <= usize::MAX + 1,
    ensures
        slots_below(n).finite(),
        slots_below(n).len() == n,
    decreases n,
{
    if n == 0 {
        assert(slots_below(n) =~= Set::empty());
    } else {
        let m = (n - 1) as nat;
        lemma_slots_below_len(m);
        assert(slots_below(n) =~= slots_below(m).insert(m as usize));
    }
}

/// Distinct slots below `n` that leave out some slot below `n` number fewer
/// than `n`.
pub proof fn lemma_distinct_slots_missing_one(s: Seq<usize>, n: nat, x: usize)
    requires
        n <= usize::MAX + 1,
        s.no_duplicates(),
        forall|i: int| 0 <= i < s.len() ==> #[trigger] s[i] < n,
        x < n,
        !s.contains(x),
    ensures
        s.len() < n,
{
    lemma_slots_below_len(n);
    s.unique_seq_to_set();
    assert(s.to_set().subset_of(slots_below(n))) by {
        assert forall|v: usize| s.to_set().contains(v) implies slots_below(n).contains(v) by {
            let i = s.index_of(v);
        }
    }
    s.to_set().lemma_subset_not_in_lt(slots_below(n), x);
}

/// Distinct slots below `n` that take in every slot below `n` number
/// exactly `n`.
pub proof fn lemma_distinct_slots_all(s: Seq<usize>, n: nat)
    requires
        n <= usize::MAX + 1,
        s.no_duplicates(),
        forall|i: int| 0 <= i < s.len() ==> #[trigger] s[i] < n,
        forall|v: usize| v < n ==> s.contains(v),
    ensures
        s.len() == n,
{
    lemma_slots_below_len(n);
    s.unique_seq_to_set();
    assert(s.to_set() =~= slots_below(n)) by {
        assert forall|v: usize| s.to_set().contains(v) implies slots_below(n).contains(v) by {
            let i = s.index_of(v);
        }
    }
}

} // verus!
