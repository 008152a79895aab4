//! Positions relative to a chosen origin body. Resolution produces a plan:
//! a list of steps, each of which sets one node's position from a node set
//! before it and at most one body's own motion. The caller carries it out
//! on its own vectors; the plan fixes which motions are read, in what
//! order, and that none is read twice.
use crate::forest::{abs_pos, links_wf};
use crate::hierarchy::{Hierarchy, HierarchyError};
use crate::arena::BodyTag;
use vstd::prelude::*;

verus! {

/// One step of a resolution plan. A node is a body (`Some(slot)`) or the
/// common frame of the roots (`None`); the node above a body is its link.
#[derive(Debug, Clone, Copy, PartialEq, Eq, Structural)]
pub enum ResolveStep {
    /// The origin body sits at zero.
    Origin(usize),
    /// The node above the body sits where the body does, less the body's
    /// own motion.
    Ascend(usize),
    /// The body sits where the node above it does, plus its own motion.
    Descend(usize),
}

impl ResolveStep {
    /// The body that the step names.
    pub open spec fn body(self) -> usize {
        match self {
            ResolveStep::Origin(b) => b,
            ResolveStep::Ascend(b) => b,
            ResolveStep::Descend(b) => b,
        }
    }

    /// The node whose position the step sets.
    pub open spec fn sets(self, links: Seq<Option<usize>>) -> Option<usize> {
        match self {
            ResolveStep::Origin(b) => Some(b),
            ResolveStep::Ascend(b) => links[b as int],
            ResolveStep::Descend(b) => Some(b),
        }
    }

    /// The node whose position the step reads, if any.
    pub open spec fn reads(self, links: Seq<Option<usize>>) -> Option<Option<usize>> {
        match self {
            ResolveStep::Origin(_) => None,
            ResolveStep::Ascend(b) => Some(Some(b)),
            ResolveStep::Descend(b) => Some(links[b as int]),
        }
    }

    /// The body whose own motion the step evaluates, if any.
    pub open spec fn evaluates(self) -> Option<usize> {
        match self {
            ResolveStep::Origin(_) => None,
            ResolveStep::Ascend(b) => Some(b),
            ResolveStep::Descend(b) => Some(b),
        }
    }
}

/// Some step of `plan` sets node `x`.
pub open spec fn plan_sets(links: Seq<Option<usize>>, plan: Seq<ResolveStep>, x: Option<usize>) -> bool {
    exists|k: int| 0 <= k < plan.len() && #[trigger] plan[k].sets(links) == x
}

/// Some step of `plan` evaluates the motion of body `b`.
pub open spec fn plan_evaluates(plan: Seq<ResolveStep>, b: usize) -> bool {
    exists|k: int| 0 <= k < plan.len() && #[trigger] plan[k].evaluates() == Some(b)
}

/// Every body whose position `plan` sets has had its own motion evaluated
/// by some step.
pub open spec fn evaluates_what_it_sets(links: Seq<Option<usize>>, plan: Seq<ResolveStep>) -> bool {
    forall|x: usize| #[trigger] plan_sets(links, plan, Some(x)) ==> plan_evaluates(plan, x)
}

/// `plan` starts at `origin`, reads only nodes that it set before, and sets
/// no node twice.
pub open spec fn plan_wf(links: Seq<Option<usize>>, origin: usize, plan: Seq<ResolveStep>) -> bool {
    &&& plan.len() > 0
    &&& plan[0] == ResolveStep::Origin(origin)
    &&& forall|k: int| 0 <= k < plan.len() ==> #[trigger] plan[k].body() < links.len()
    &&& forall|k: int| 1 <= k < plan.len() ==> !(#[trigger] plan[k] is Origin)
    &&& forall|k: int| 0 <= k < plan.len() ==> (#[trigger] plan[k].reads(links) matches Some(x) ==> exists|j: int| 0 <= j < k && plan[j].sets(links) == x)
    &&& forall|j: int, k: int| 0 <= j < k < plan.len() ==> #[trigger] plan[j].sets(links) != #[trigger] plan[k].sets(links)
}

/// The positions that carrying out `plan` yields, when body `b` sits
/// `motion(b)` away from the node above it.
pub open spec fn run_plan(links: Seq<Option<usize>>, motion: spec_fn(nat) -> int, plan: Seq<ResolveStep>) -> Map<Option<usize>, int>
    decreases plan.len(),
{
    if plan.len() == 0 {
        Map::empty()
    } else {
        let before = run_plan(links, motion, plan.drop_last());
        match plan.last() {
            ResolveStep::Origin(b) => before.insert(Some(b), 0),
            ResolveStep::Ascend(b) => before.insert(links[b as int], before[Some(b)] - motion(b as nat)),
            ResolveStep::Descend(b) => before.insert(Some(b), before[links[b as int]] + motion(b as nat)),
        }
    }
}

proof fn lemma_push_wf(links: Seq<Option<usize>>, origin: usize, plan: Seq<ResolveStep>, s: ResolveStep)
    requires
        plan_wf(links, origin, plan),
        s.body() < links.len(),
        !(s is Origin),
        s.reads(links) matches Some(x) ==> plan_sets(links, plan, x),
        !plan_sets(links, plan, s.sets(links)),
    ensures
        plan_wf(links, origin, plan.push(s)),
        forall|x: Option<usize>| plan_sets(links, plan.push(s), x) <==> (plan_sets(links, plan, x) || x == s.sets(links)),
        forall|b: usize| plan_evaluates(plan.push(s), b) <==> (plan_evaluates(plan, b) || s.evaluates() == Some(b)),
{
    let q = plan.push(s);
    assert forall|b: usize| plan_evaluates(q, b) <==> (plan_evaluates(plan, b) || s.evaluates() == Some(b)) by {
        if plan_evaluates(plan, b) {
            let k = choose|k: int| 0 <= k < plan.len() && #[trigger] plan[k].evaluates() == Some(b);
            assert(q[k] == plan[k]);
        }
        if plan_evaluates(q, b) {
            let k = choose|k: int| 0 <= k < q.len() && #[trigger] q[k].evaluates() == Some(b);
            if k < plan.len() {
                assert(q[k] == plan[k]);
            }
        }
    }
    assert(q[plan.len() as int] == s);
    assert forall|k: int| 0 <= k < q.len() implies (#[trigger] q[k].reads(links) matches Some(x) ==> exists|j: int| 0 <= j < k && q[j].sets(links) == x) by {
        if k == plan.len() {
            if let Some(x) = s.reads(links) {
                let j = choose|j: int| 0 <= j < plan.len() && #[trigger] plan[j].sets(links) == x;
                assert(q[j] == plan[j]);
            }
        } else {
            assert(q[k] == plan[k]);
            if let Some(x) = q[k].reads(links) {
                let j = choose|j: int| 0 <= j < k && plan[j].sets(links) == x;
                assert(q[j] == plan[j]);
            }
        }
    }
    assert forall|j: int, k: int| 0 <= j < k < q.len() implies #[trigger] q[j].sets(links) != #[trigger] q[k].sets(links) by {
        assert(q[j] == plan[j]);
        if k == plan.len() {
            assert(plan[j].sets(links) == q[j].sets(links));
        } else {
            assert(q[k] == plan[k]);
        }
    }
    assert forall|x: Option<usize>| plan_sets(links, q, x) <==> (plan_sets(links, plan, x) || x == s.sets(links)) by {
        if plan_sets(links, plan, x) {
            let k = choose|k: int| 0 <= k < plan.len() && #[trigger] plan[k].sets(links) == x;
            assert(q[k] == plan[k]);
        }
        if plan_sets(links, q, x) {
            let k = choose|k: int| 0 <= k < q.len() && #[trigger] q[k].sets(links) == x;
            if k < plan.len() {
                assert(q[k] == plan[k]);
            }
        }
    }
}


proof fn lemma_drop_last_wf(links: Seq<Option<usize>>, origin: usize, plan: Seq<ResolveStep>)
    requires
        plan_wf(links, origin, plan),
        plan.len() >= 2,
    ensures
        plan_wf(links, origin, plan.drop_last()),
        forall|x: Option<usize>| plan_sets(links, plan, x) <==> (plan_sets(links, plan.drop_last(), x) || x == plan.last().sets(links)),
{
    let q = plan.drop_last();
    assert forall|k: int| 0 <= k < q.len() implies (#[trigger] q[k].reads(links) matches Some(x) ==> exists|j: int| 0 <= j < k && q[j].sets(links) == x) by {
        assert(q[k] == plan[k]);
        if let Some(x) = q[k].reads(links) {
            let j = choose|j: int| 0 <= j < k && plan[j].sets(links) == x;
            assert(q[j] == plan[j]);
        }
    }
    assert forall|j: int, k: int| 0 <= j < k < q.len() implies #[trigger] q[j].sets(links) != #[trigger] q[k].sets(links) by {
        assert(q[j] == plan[j]);
        assert(q[k] == plan[k]);
    }
    assert forall|x: Option<usize>| plan_sets(links, plan, x) <==> (plan_sets(links, q, x) || x == plan.last().sets(links)) by {
        if plan_sets(links, q, x) {
            let k = choose|k: int| 0 <= k < q.len() && #[trigger] q[k].sets(links) == x;
            assert(plan[k] == q[k]);
        }
        if plan_sets(links, plan, x) {
            let k = choose|k: int| 0 <= k < plan.len() && #[trigger] plan[k].sets(links) == x;
            if k < q.len() {
                assert(plan[k] == q[k]);
            }
        }
    }
}

/// Carrying out a well-formed plan gives a position to exactly the nodes
/// that it sets, and puts each of them where it sits relative to the origin
/// body.
pub proof fn lemma_plan_positions(links: Seq<Option<usize>>, motion: spec_fn(nat) -> int, origin: usize, plan: Seq<ResolveStep>)
    requires
        links_wf(links),
        plan_wf(links, origin, plan),
    ensures
        forall|x: Option<usize>| run_plan(links, motion, plan).dom().contains(x) <==> plan_sets(links, plan, x),
        forall|x: Option<usize>| #[trigger] plan_sets(links, plan, x) ==> run_plan(links, motion, plan)[x] == abs_pos(links, motion, x) - abs_pos(links, motion, Some(origin)),
    decreases plan.len(),
{
    let run = run_plan(links, motion, plan);
    let q = plan.drop_last();
    let before = run_plan(links, motion, q);
    if plan.len() == 1 {
        assert(q =~= Seq::<ResolveStep>::empty());
        assert(plan.last() == ResolveStep::Origin(origin));
        assert forall|x: Option<usize>| run.dom().contains(x) <==> plan_sets(links, plan, x) by {
            if plan_sets(links, plan, x) {
                let k = choose|k: int| 0 <= k < plan.len() && #[trigger] plan[k].sets(links) == x;
                assert(k == 0);
            }
            if x == Some(origin) {
                assert(plan[0].sets(links) == x);
            }
        }
        assert forall|x: Option<usize>| #[trigger] plan_sets(links, plan, x) implies run[x] == abs_pos(links, motion, x) - abs_pos(links, motion, Some(origin)) by {
            let k = choose|k: int| 0 <= k < plan.len() && #[trigger] plan[k].sets(links) == x;
            assert(k == 0);
        }
    } else {
        lemma_drop_last_wf(links, origin, plan);
        lemma_plan_positions(links, motion, origin, q);
        let last = plan.len() - 1;
        let st = plan[last];
        assert(st == plan.last());
        assert(!(st is Origin));
        let b = st.body();
        assert(b < links.len());
        let rd = st.reads(links)->Some_0;
        assert(plan_sets(links, q, rd)) by {
            let j = choose|j: int| 0 <= j < last && plan[j].sets(links) == rd;
            assert(q[j] == plan[j]);
        }
        let o_pos = abs_pos(links, motion, Some(origin));
        assert(abs_pos(links, motion, Some(b)) == motion(b as nat) + abs_pos(links, motion, links[b as int]));
        assert forall|x: Option<usize>| run.dom().contains(x) <==> plan_sets(links, plan, x) by {}
        assert forall|x: Option<usize>| #[trigger] plan_sets(links, plan, x) implies run[x] == abs_pos(links, motion, x) - o_pos by {
            if x != st.sets(links) {
                assert(plan_sets(links, q, x));
            }
        }
    }
}

/// Moving the origin from body `o1` to body `o2` shifts every position by
/// one constant: where `o2` sits as seen from `o1`.
pub proof fn lemma_origin_shift(
    links: Seq<Option<usize>>,
    motion: spec_fn(nat) -> int,
    o1: usize,
    plan1: Seq<ResolveStep>,
    o2: usize,
    plan2: Seq<ResolveStep>,
)
    requires
        links_wf(links),
        plan_wf(links, o1, plan1),
        plan_wf(links, o2, plan2),
        plan_sets(links, plan1, Some(o2)),
    ensures
        forall|x: Option<usize>| plan_sets(links, plan1, x) && plan_sets(links, plan2, x) ==>
            run_plan(links, motion, plan1)[x] - run_plan(links, motion, plan2)[x] == run_plan(links, motion, plan1)[Some(o2)],
{
    lemma_plan_positions(links, motion, o1, plan1);
    lemma_plan_positions(links, motion, o2, plan2);
}

/// Two plans from the same origin put every node that both set at the same
/// place, whatever order they visited the bodies in.
pub proof fn lemma_plans_agree(
    links: Seq<Option<usize>>,
    motion: spec_fn(nat) -> int,
    origin: usize,
    plan1: Seq<ResolveStep>,
    plan2: Seq<ResolveStep>,
)
    requires
        links_wf(links),
        plan_wf(links, origin, plan1),
        plan_wf(links, origin, plan2),
    ensures
        forall|x: Option<usize>| plan_sets(links, plan1, x) && plan_sets(links, plan2, x) ==>
            run_plan(links, motion, plan1)[x] == run_plan(links, motion, plan2)[x],
{
    lemma_plan_positions(links, motion, origin, plan1);
    lemma_plan_positions(links, motion, origin, plan2);
}

/// A plan that sets every body, and has evaluated the motion of each body
/// it sets, evaluates each body's motion exactly once.
pub proof fn lemma_each_motion_once(links: Seq<Option<usize>>, origin: usize, plan: Seq<ResolveStep>)
    requires
        plan_wf(links, origin, plan),
        evaluates_what_it_sets(links, plan),
        forall|b: usize| b < links.len() ==> plan_sets(links, plan, Some(b)),
    ensures
        forall|b: usize| b < links.len() ==> plan_evaluates(plan, b),
        forall|j: int, k: int| 0 <= j < k < plan.len() && (#[trigger] plan[j].evaluates() is Some) ==> plan[j].evaluates() != #[trigger] plan[k].evaluates(),
{
    assert forall|b: usize| b < links.len() implies plan_evaluates(plan, b) by {
        assert(plan_sets(links, plan, Some(b)));
    }
    assert forall|j: int, k: int| 0 <= j < k < plan.len() && (#[trigger] plan[j].evaluates() is Some) implies plan[j].evaluates() != #[trigger] plan[k].evaluates() by {
        if plan[j].evaluates() == plan[k].evaluates() {
            match (plan[j], plan[k]) {
                (ResolveStep::Ascend(b), ResolveStep::Descend(_)) => {
                    let rd = plan[j].reads(links)->Some_0;
                    let i = choose|i: int| 0 <= i < j && plan[i].sets(links) == rd;
                    assert(plan[i].sets(links) == plan[k].sets(links));
                },
                (ResolveStep::Descend(b), ResolveStep::Ascend(_)) => {
                    let rd = plan[j].reads(links)->Some_0;
                    let i = choose|i: int| 0 <= i < j && plan[i].sets(links) == rd;
                    assert(plan[i].sets(links) == plan[k].sets(links));
                },
                _ => {
                    assert(plan[j].sets(links) == plan[k].sets(links));
                },
            }
        }
    }
}

impl Hierarchy {
    /// Adds the steps that set body `b`, and the bodies above it that are
    /// not set yet, to `plan`.
    fn resolve_into(&self, b: usize, memo: &mut Vec<bool>, plan: &mut Vec<ResolveStep>, Ghost(origin): Ghost<usize>)
        requires
            self.wf(),
            b < self.links().len(),
            old(memo)@.len() == self.links().len(),
            plan_wf(self.links(), origin, old(plan)@),
            plan_sets(self.links(), old(plan)@, None),
            evaluates_what_it_sets(self.links(), old(plan)@),
            forall|x: usize| x < self.links().len() ==> (#[trigger] old(memo)@[x as int] <==> plan_sets(self.links(), old(plan)@, Some(x))),
        ensures
            evaluates_what_it_sets(self.links(), final(plan)@),
            final(memo)@.len() == self.links().len(),
            plan_wf(self.links(), origin, final(plan)@),
            plan_sets(self.links(), final(plan)@, Some(b)),
            forall|x: usize| x < self.links().len() ==> (#[trigger] final(memo)@[x as int] <==> plan_sets(self.links(), final(plan)@, Some(x))),
            forall|x: Option<usize>| plan_sets(self.links(), old(plan)@, x) ==> plan_sets(self.links(), final(plan)@, x),
            forall|x: usize| plan_sets(self.links(), final(plan)@, Some(x)) && !plan_sets(self.links(), old(plan)@, Some(x)) ==> x <= b,
            forall|x: Option<usize>| plan_sets(self.links(), final(plan)@, x) ==> (plan_sets(self.links(), old(plan)@, x) || x is Some),
        decreases b,
    {
        let ghost links = self.links();
        if memo[b] {
            return;
        }
        let above = self.node_at(b).parent;
        if let Some(p) = above {
            self.resolve_into(p, memo, plan, Ghost(origin));
        }
        let ghost before = plan@;
        let step = ResolveStep::Descend(b);
        proof {
            assert(!plan_sets(links, before, Some(b))) by {
                assert(!memo@[b as int]);
            }
            lemma_push_wf(links, origin, before, step);
        }
        plan.push(step);
        memo.set(b, true);
        proof {
            assert forall|x: usize| #[trigger] plan_sets(links, plan@, Some(x)) implies plan_evaluates(plan@, x) by {
                if x != b {
                    assert(plan_sets(links, before, Some(x)));
                }
            }
        }
    }

    /// The plan that sets, relative to the body `origin` names, the position
    /// of every body that `visit` names, visiting them in that order. Every
    /// body that it needs is resolved once, starting from the chain of
    /// bodies above the origin.
    pub fn resolution_plan(&self, origin: BodyTag, visit: &Vec<BodyTag>) -> (r: Result<Vec<ResolveStep>, HierarchyError>)
        requires
            self.wf(),
        ensures
            r is Ok <==> (self.handles().contains(origin) && forall|i: int| 0 <= i < visit@.len() ==> self.handles().contains(#[trigger] visit@[i])),
            r matches Ok(plan) ==> {
                &&& plan_wf(self.links(), self.slot_of(origin) as usize, plan@)
                &&& evaluates_what_it_sets(self.links(), plan@)
                &&& forall|i: int| 0 <= i < visit@.len() ==> plan_sets(self.links(), plan@, Some(self.slot_of(#[trigger] visit@[i]) as usize))
            },
    {
        let ghost links = self.links();
        let o = match self.slot(origin) {
            Some(s) => s,
            None => {
                return Err(HierarchyError::UnknownBody);
            },
        };
        let mut targets: Vec<usize> = Vec::new();
        let mut i: usize = 0;
        while i < visit.len()
            invariant
                self.wf(),
                i <= visit@.len(),
                targets@.len() == i,
                forall|j: int| 0 <= j < i ==> self.handles().contains(#[trigger] visit@[j]),
                forall|j: int| 0 <= j < i ==> #[trigger] targets@[j] == self.slot_of(visit@[j]) && targets@[j] < self.links().len(),
            decreases visit@.len() - i,
        {
            match self.slot(visit[i]) {
                Some(s) => {
                    targets.push(s);
                },
                None => {
                    return Err(HierarchyError::UnknownBody);
                },
            }
            i = i + 1;
        }
        let n = self.tags_len();
        let mut memo: Vec<bool> = Vec::new();
        let mut k: usize = 0;
        while k < n
            invariant
                k <= n,
                memo@.len() == k,
                forall|x: int| 0 <= x < k ==> !#[trigger] memo@[x],
            decreases n - k,
        {
            memo.push(false);
            k = k + 1;
        }
        let mut plan: Vec<ResolveStep> = Vec::new();
        plan.push(ResolveStep::Origin(o));
        memo.set(o, true);
        proof {
            assert(plan@[0].sets(links) == Some(o));
            assert forall|x: usize| x < n implies (#[trigger] memo@[x as int] <==> plan_sets(links, plan@, Some(x))) by {
                if plan_sets(links, plan@, Some(x)) {
                    let j = choose|j: int| 0 <= j < plan@.len() && #[trigger] plan@[j].sets(links) == Some(x);
                    assert(j == 0);
                }
            }
        }
        let mut cur = o;
        loop
            invariant_except_break
                plan_sets(links, plan@, Some(cur)),
                forall|x: usize| x != cur && #[trigger] plan_sets(links, plan@, Some(x)) ==> plan_evaluates(plan@, x),
                forall|x: Option<usize>| #[trigger] plan_sets(links, plan@, x) ==> (x matches Some(y) && cur <= y),
            invariant
                self.wf(),
                links == self.links(),
                n == links.len(),
                cur < n,
                memo@.len() == n,
                plan_wf(links, o, plan@),
                forall|x: usize| x < n ==> (#[trigger] memo@[x as int] <==> plan_sets(links, plan@, Some(x))),
            ensures
                plan_sets(links, plan@, None),
                evaluates_what_it_sets(links, plan@),
            decreases cur,
        {
            let step = ResolveStep::Ascend(cur);
            let above = self.node_at(cur).parent;
            proof {
                assert(!plan_sets(links, plan@, links[cur as int])) by {
                    if plan_sets(links, plan@, links[cur as int]) {
                        assert(links[cur as int] matches Some(y) && cur <= y);
                    }
                }
                lemma_push_wf(links, o, plan@, step);
            }
            let ghost old_plan = plan@;
            let ghost old_memo = memo@;
            plan.push(step);
            match above {
                Some(p) => {
                    memo.set(p, true);
                    proof {
                        assert forall|x: Option<usize>| #[trigger] plan_sets(links, plan@, x) implies (x matches Some(y) && p <= y) by {
                            if x != Some(p) {
                                assert(plan_sets(links, old_plan, x));
                            }
                        }
                        assert forall|x: usize| x != p && #[trigger] plan_sets(links, plan@, Some(x)) implies plan_evaluates(plan@, x) by {
                            assert(plan_sets(links, old_plan, Some(x)));
                        }
                        assert forall|x: usize| x < n implies (#[trigger] memo@[x as int] <==> plan_sets(links, plan@, Some(x))) by {
                            if x != p {
                                assert(memo@[x as int] == old_memo[x as int]);
                            }
                        }
                    }
                    cur = p;
                },
                None => {
                    proof {
                        assert forall|x: usize| #[trigger] plan_sets(links, plan@, Some(x)) implies plan_evaluates(plan@, x) by {
                            assert(plan_sets(links, old_plan, Some(x)));
                        }
                    }
                    break;
                },
            }
        }
        let mut i: usize = 0;
        while i < targets.len()
            invariant
                self.wf(),
                links == self.links(),
                n == links.len(),
                memo@.len() == n,
                targets@.len() == visit@.len(),
                forall|j: int| 0 <= j < targets@.len() ==> #[trigger] targets@[j] == self.slot_of(visit@[j]) && targets@[j] < n,
                i <= targets@.len(),
                plan_wf(links, o, plan@),
                plan_sets(links, plan@, None),
                evaluates_what_it_sets(links, plan@),
                forall|x: usize| x < n ==> (#[trigger] memo@[x as int] <==> plan_sets(links, plan@, Some(x))),
                forall|j: int| 0 <= j < i ==> plan_sets(links, plan@, Some(#[trigger] targets@[j])),
            decreases targets@.len() - i,
        {
            self.resolve_into(targets[i], &mut memo, &mut plan, Ghost(o));
            i = i + 1;
        }
        assert forall|j: int| 0 <= j < visit@.len() implies plan_sets(links, plan@, Some(self.slot_of(#[trigger] visit@[j]) as usize)) by {
            assert(targets@[j] == self.slot_of(visit@[j]));
        }
        Ok(plan)
    }

    /// The plan that sets the position of every body relative to the body
    /// `origin` names; by [`lemma_each_motion_once`] it evaluates each body's
    /// motion exactly once.
    pub fn full_resolution_plan(&self, origin: BodyTag) -> (r: Result<Vec<ResolveStep>, HierarchyError>)
        requires
            self.wf(),
        ensures
            r is Ok <==> self.handles().contains(origin),
            r matches Ok(plan) ==> {
                &&& plan_wf(self.links(), self.slot_of(origin) as usize, plan@)
                &&& evaluates_what_it_sets(self.links(), plan@)
                &&& forall|b: usize| b < self.links().len() ==> plan_sets(self.links(), plan@, Some(b))
            },
    {
        let all = self.tags();
        let r = self.resolution_plan(origin, &all);
        proof {
            assert forall|i: int| 0 <= i < all@.len() implies self.handles().contains(#[trigger] all@[i]) by {
                assert(self.handles()[i] == all@[i]);
            }
            if let Ok(ref plan) = r {
                assert forall|b: usize| b < self.links().len() implies plan_sets(self.links(), plan@, Some(b)) by {
                    let t = all@[b as int];
                    assert(plan_sets(self.links(), plan@, Some(self.slot_of(t) as usize)));
                    assert(self.handles().contains(t)) by {
                        assert(self.handles()[b as int] == t);
                    }
                    assert(self.slot_of(t) == b) by {
                        let j = self.slot_of(t);
                        assert(self.handles()[j] == t);
                        assert(self.handles()[b as int] == t);
                    }
                }
            }
        }
        r
    }
}

} // verus!
