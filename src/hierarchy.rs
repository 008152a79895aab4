//! The registry of bodies: an arena of tagged nodes, each linked to the body
//! it orbits, with the list of root bodies.
use crate::arena::{arena_contents, arena_get, arena_index, arena_index_mut, arena_insert, arena_new, BodyNode, BodyTag};
use crate::forest::{is_top_down, lemma_distinct_slots_all, lemma_distinct_slots_missing_one, links_wf, lists_exactly};
use valet::Valet;
use vstd::prelude::*;

verus! {

/// Why a body could not be added to, or looked up in, a [`Hierarchy`].
#[derive(Debug, Clone, Copy, PartialEq, Eq, Structural)]
pub enum HierarchyError {
    /// The tag does not name a body of this hierarchy.
    UnknownBody,
}

/// A forest of bodies addressed by tags. A body either is a root or orbits
/// a body added before it, so parent chains never cycle.
pub struct Hierarchy {
    bodies: Valet<BodyNode>,
    tags: Vec<BodyTag>,
    roots: Vec<usize>,
}

impl Hierarchy {
    /// The tags of the bodies, in insertion order.
    pub closed spec fn handles(&self) -> Seq<BodyTag> {
        self.tags@
    }

    /// For each body in insertion order, the position of its parent in that
    /// order, or `None` for a root.
    pub closed spec fn links(&self) -> Seq<Option<usize>> {
        Seq::new(self.tags@.len(), |i: int| arena_contents(self.bodies)[self.tags@[i]].parent)
    }

    /// The slot of the body that `t` names.
    pub open spec fn slot_of(&self, t: BodyTag) -> int {
        self.handles().index_of(t)
    }

    spec fn node(&self, i: int) -> BodyNode {
        arena_contents(self.bodies)[self.tags@[i]]
    }

    /// The arena, the tag list and the satellite and root lists agree.
    pub closed spec fn inv(&self) -> bool {
        let contents = arena_contents(self.bodies);
        let n = self.tags@.len();
        &&& forall|i: int| 0 <= i < n ==> contents.contains_key(#[trigger] self.tags@[i])
        &&& forall|i: int| 0 <= i < n ==> #[trigger] self.node(i).slot == i
        &&& forall|t: BodyTag| #[trigger] contents.contains_key(t) ==> contents[t].slot < n && self.tags@[contents[t].slot as int] == t
        &&& forall|i: int| 0 <= i < n ==> lists_exactly(self.links(), #[trigger] self.node(i).satellites@, Some(i as usize))
        &&& lists_exactly(self.links(), self.roots@, None)
    }

    /// The hierarchy is well formed: tags are distinct and links point back.
    pub open spec fn wf(&self) -> bool {
        &&& self.inv()
        &&& self.handles().len() == self.links().len()
        &&& self.handles().no_duplicates()
        &&& links_wf(self.links())
    }

    proof fn lemma_tags_distinct(&self)
        requires
            self.inv(),
        ensures
            self.handles().no_duplicates(),
    {
        let contents = arena_contents(self.bodies);
        assert forall|i: int, j: int| 0 <= i < self.tags@.len() && 0 <= j < self.tags@.len() && i != j implies self.tags@[i] != self.tags@[j] by {
            assert(self.node(i).slot == i);
            assert(self.node(j).slot == j);
        }
    }

    /// An empty hierarchy.
    pub fn new() -> (r: Hierarchy)
        ensures
            r.wf(),
            r.handles().len() == 0,
    {
        let r = Hierarchy { bodies: arena_new(), tags: Vec::new(), roots: Vec::new() };
        assert(r.links() =~= Seq::<Option<usize>>::empty());
        r
    }

    /// The number of bodies.
    pub fn len(&self) -> (r: usize)
        requires
            self.wf(),
        ensures
            r == self.handles().len(),
    {
        self.tags.len()
    }

    /// The slot of the body that `t` names, or `None` where it names no body
    /// of this hierarchy.
    pub fn slot(&self, t: BodyTag) -> (r: Option<usize>)
        requires
            self.wf(),
        ensures
            r is Some <==> self.handles().contains(t),
            r matches Some(s) ==> s == self.slot_of(t) && self.handles()[s as int] == t,
    {
        let contents = Ghost(arena_contents(self.bodies));
        match arena_get(&self.bodies, t) {
            Some(node) => {
                let s = node.slot;
                assert(self.handles()[s as int] == t);
                Some(s)
            },
            None => {
                assert(!self.handles().contains(t)) by {
                    if self.handles().contains(t) {
                        let i = self.handles().index_of(t);
                        assert(contents@.contains_key(self.tags@[i]));
                    }
                }
                None
            },
        }
    }

    /// The number of bodies.
    pub(crate) fn tags_len(&self) -> (r: usize)
        ensures
            r == self.links().len(),
    {
        self.tags.len()
    }

    /// The slot of the body that the body in slot `i` orbits, or `None` for
    /// a root.
    pub fn parent(&self, i: usize) -> (r: Option<usize>)
        requires
            self.wf(),
            i < self.handles().len(),
        ensures
            r == self.links()[i as int],
    {
        self.node_at(i).parent
    }

    /// The slots of the bodies that orbit the body in slot `i`, in insertion
    /// order.
    pub fn satellites(&self, i: usize) -> (r: &Vec<usize>)
        requires
            self.wf(),
            i < self.handles().len(),
        ensures
            lists_exactly(self.links(), r@, Some(i)),
    {
        &self.node_at(i).satellites
    }

    /// The slots of the root bodies, in insertion order.
    pub fn roots(&self) -> (r: &Vec<usize>)
        requires
            self.wf(),
        ensures
            lists_exactly(self.links(), r@, None),
    {
        &self.roots
    }

    /// The tags of all bodies, in insertion order.
    pub fn tags(&self) -> (r: Vec<BodyTag>)
        requires
            self.wf(),
        ensures
            r@ == self.handles(),
    {
        let mut r: Vec<BodyTag> = Vec::new();
        let mut i: usize = 0;
        while i < self.tags.len()
            invariant
                i <= self.tags@.len(),
                r@ == self.tags@.subrange(0, i as int),
            decreases self.tags@.len() - i,
        {
            r.push(self.tags[i]);
            i = i + 1;
        }
        assert(r@ =~= self.tags@);
        r
    }

    /// The tag of the body in slot `i`.
    pub fn tag(&self, i: usize) -> (r: BodyTag)
        requires
            self.wf(),
            i < self.handles().len(),
        ensures
            r == self.handles()[i as int],
    {
        self.tags[i]
    }

    /// The node of the body in slot `i`.
    pub(crate) fn node_at(&self, i: usize) -> (r: &BodyNode)
        requires
            self.wf(),
            i < self.handles().len(),
        ensures
            r.parent == self.links()[i as int],
            lists_exactly(self.links(), r.satellites@, Some(i)),
    {
        let t = self.tags[i];
        proof {
            assert(lists_exactly(self.links(), self.node(i as int).satellites@, Some(i)));
        }
        arena_index(&self.bodies, t)
    }

    /// The slots of all bodies, each after the body it orbits: the order in
    /// which positions are brought up to date from the roots down.
    pub fn update_order(&self) -> (r: Vec<usize>)
        requires
            self.wf(),
        ensures
            is_top_down(self.links(), r@),
    {
        let ghost links = self.links();
        let ghost n = links.len();
        let total = self.tags.len();
        let mut out: Vec<usize> = Vec::new();
        let mut pending: Vec<usize> = self.roots.clone();
        assert(pending@ == self.roots@);
        while pending.len() > 0
            invariant
                self.wf(),
                links == self.links(),
                n == links.len(),
                n == total,
                out@.no_duplicates(),
                forall|i: int| 0 <= i < out@.len() ==> #[trigger] out@[i] < n,
                forall|i: int| 0 <= i < out@.len() ==> (links[#[trigger] out@[i] as int] matches Some(p) ==> exists|j: int| 0 <= j < i && out@[j] == p),
                pending@.no_duplicates(),
                forall|j: int| 0 <= j < pending@.len() ==> #[trigger] pending@[j] < n,
                forall|j: int| 0 <= j < pending@.len() ==> !out@.contains(#[trigger] pending@[j]),
                forall|j: int| 0 <= j < pending@.len() ==> (links[#[trigger] pending@[j] as int] matches Some(p) ==> out@.contains(p)),
                forall|c: int| 0 <= c < n && (#[trigger] links[c] matches Some(p) ==> out@.contains(p)) ==> out@.contains(c as usize) || pending@.contains(c as usize),
            decreases n - out@.len(),
        {
            let ghost pre_pending = pending@;
            let b = pending.pop().unwrap();
            proof {
                lemma_distinct_slots_missing_one(out@, n, b);
            }
            let ghost old_out = out@;
            let ghost old_pending = pending@;
            out.push(b);
            let node = self.node_at(b);
            let sats = &node.satellites;
            let mut k: usize = 0;
            while k < sats.len()
                invariant
                    self.wf(),
                    links == self.links(),
                    n == links.len(),
                    lists_exactly(links, sats@, Some(b)),
                    k <= sats@.len(),
                    out@ == old_out.push(b),
                    pending@ == old_pending + sats@.subrange(0, k as int),
                    old_pending.no_duplicates(),
                    !old_out.contains(b),
                    forall|j: int| 0 <= j < old_pending.len() ==> #[trigger] old_pending[j] != b,
                    forall|j: int| 0 <= j < old_pending.len() ==> (links[#[trigger] old_pending[j] as int] matches Some(p) ==> old_out.contains(p)),
                decreases sats@.len() - k,
            {
                pending.push(sats[k]);
                k = k + 1;
            }
            proof {
                let s = sats@;
                assert(s.subrange(0, s.len() as int) =~= s);
                assert forall|j: int| 0 <= j < s.len() implies !old_out.contains(#[trigger] s[j]) && !old_pending.contains(s[j]) by {
                    if old_out.contains(s[j]) {
                        let i = old_out.index_of(s[j]);
                        assert(links[old_out[i] as int] == Some(b));
                    }
                    if old_pending.contains(s[j]) {
                        let i = old_pending.index_of(s[j]);
                        assert(links[old_pending[i] as int] == Some(b));
                    }
                }
                assert forall|i: int, j: int| 0 <= i < j < pending@.len() implies pending@[i] != pending@[j] by {
                    if j >= old_pending.len() && i < old_pending.len() {
                        assert(!old_pending.contains(s[j - old_pending.len()]));
                    }
                }
                assert forall|i: int| 0 <= i < out@.len() implies (links[#[trigger] out@[i] as int] matches Some(p) ==> exists|j: int| 0 <= j < i && out@[j] == p) by {
                    if i == old_out.len() {
                        if let Some(p) = links[b as int] {
                            let j = old_out.index_of(p);
                            assert(out@[j] == p);
                        }
                    } else {
                        assert(out@[i] == old_out[i]);
                        if let Some(p) = links[out@[i] as int] {
                            let j = choose|j: int| 0 <= j < i && old_out[j] == p;
                            assert(out@[j] == p);
                        }
                    }
                }
                assert forall|j: int| 0 <= j < pending@.len() implies !out@.contains(#[trigger] pending@[j]) by {
                    if j < old_pending.len() {
                        assert(pending@[j] == old_pending[j]);
                        if out@.contains(pending@[j]) {
                            let i = out@.index_of(pending@[j]);
                            if i < old_out.len() {
                                assert(old_out[i] == pending@[j]);
                            }
                        }
                    } else {
                        let x = s[j - old_pending.len()];
                        assert(pending@[j] == x);
                        assert(links[x as int] == Some(b));
                        if out@.contains(x) {
                            let i = out@.index_of(x);
                            if i < old_out.len() {
                                assert(old_out[i] == x);
                            }
                        }
                    }
                }
                assert forall|j: int| 0 <= j < pending@.len() implies (links[#[trigger] pending@[j] as int] matches Some(p) ==> out@.contains(p)) by {
                    if j < old_pending.len() {
                        assert(pending@[j] == old_pending[j]);
                        if let Some(p) = links[pending@[j] as int] {
                            let i = old_out.index_of(p);
                            assert(out@[i] == p);
                        }
                    } else {
                        assert(pending@[j] == s[j - old_pending.len()]);
                        assert(out@[old_out.len() as int] == b);
                    }
                }
                assert forall|c: int| 0 <= c < n && (#[trigger] links[c] matches Some(p) ==> out@.contains(p)) implies out@.contains(c as usize) || pending@.contains(c as usize) by {
                    if c == b {
                        assert(out@[old_out.len() as int] == b);
                    } else if links[c] == Some(b) {
                        assert(s.contains(c as usize));
                        let j = s.index_of(c as usize);
                        assert(pending@[old_pending.len() + j] == c as usize);
                    } else {
                        if let Some(p) = links[c] {
                            let i = out@.index_of(p);
                            assert(i < old_out.len());
                            assert(old_out[i] == p);
                        }
                        assert(old_out.contains(c as usize) || old_pending.contains(c as usize)) by {
                            assert(pre_pending =~= old_pending.push(b));
                            assert(links[c] matches Some(p) ==> old_out.contains(p));
                            if !old_out.contains(c as usize) {
                                assert(pre_pending.contains(c as usize));
                                let i = pre_pending.index_of(c as usize);
                                assert(i < old_pending.len());
                                assert(old_pending[i] == c as usize);
                            }
                        }
                        if old_out.contains(c as usize) {
                            let i = old_out.index_of(c as usize);
                            assert(out@[i] == c as usize);
                        } else {
                            let i = old_pending.index_of(c as usize);
                            assert(pending@[i] == c as usize);
                        }
                    }
                }
            }
        }
        proof {
            assert forall|v: usize| v < n implies out@.contains(v) by {
                self.lemma_all_reached(out@, v as int);
            }
            lemma_distinct_slots_all(out@, n);
        }
        out
    }

    /// Where every body whose parent is reached (or that is a root) is
    /// reached too, every body is.
    proof fn lemma_all_reached(&self, out: Seq<usize>, c: int)
        requires
            self.wf(),
            0 <= c < self.links().len(),
            forall|d: int| 0 <= d < self.links().len() && (#[trigger] self.links()[d] matches Some(p) ==> out.contains(p)) ==> out.contains(d as usize),
        ensures
            out.contains(c as usize),
        decreases c,
    {
        if let Some(p) = self.links()[c] {
            self.lemma_all_reached(out, p as int);
        }
    }

    /// Adds a body that orbits the body `parent` names, or a root where
    /// `parent` is `None`, and returns its tag.
    pub fn add_body(&mut self, parent: Option<BodyTag>) -> (r: Result<BodyTag, HierarchyError>)
        requires
            old(self).wf(),
        ensures
            final(self).wf(),
            r is Ok <==> (parent matches Some(p) ==> old(self).handles().contains(p)),
            r matches Ok(t) ==> {
                &&& !old(self).handles().contains(t)
                &&& final(self).handles() == old(self).handles().push(t)
                &&& final(self).links() == old(self).links().push(
                    match parent {
                        Some(p) => Some(old(self).slot_of(p) as usize),
                        None => None,
                    },
                )
            },
            r is Err ==> final(self).handles() == old(self).handles() && final(self).links() == old(self).links(),
    {
        let parent_slot: Option<usize> = match parent {
            Some(p) => match self.slot(p) {
                Some(s) => Some(s),
                None => {
                    return Err(HierarchyError::UnknownBody);
                },
            },
            None => None,
        };
        let ghost old_links = self.links();
        let ghost old_contents = arena_contents(self.bodies);
        let n = self.tags.len();
        let node = BodyNode { slot: n, parent: parent_slot, satellites: Vec::new() };
        let t = arena_insert(&mut self.bodies, node);
        assert(!old(self).handles().contains(t)) by {
            if old(self).handles().contains(t) {
                let i = old(self).handles().index_of(t);
                assert(old_contents.contains_key(old(self).tags@[i]));
            }
        }
        self.tags.push(t);
        let ghost mid_links = self.links();
        assert(mid_links =~= old_links.push(parent_slot)) by {
            assert forall|i: int| 0 <= i < n implies mid_links[i] == old_links[i] by {
                assert(old(self).tags@[i] != t);
            }
        }
        match parent_slot {
            Some(s) => {
                let pt = self.tags[s];
                let pnode = arena_index_mut(&mut self.bodies, pt);
                pnode.satellites.push(n);
            },
            None => {
                self.roots.push(n);
            },
        }
        proof {
            let contents = arena_contents(self.bodies);
            assert(self.links() =~= mid_links) by {
                assert forall|i: int| 0 <= i < self.tags@.len() implies self.links()[i] == mid_links[i] by {}
            }
            assert forall|i: int| 0 <= i < self.tags@.len() implies #[trigger] self.node(i).slot == i by {
                if i < n {
                    assert(old(self).node(i).slot == i);
                }
            }
            assert forall|t2: BodyTag| #[trigger] contents.contains_key(t2) implies contents[t2].slot < self.tags@.len() && self.tags@[contents[t2].slot as int] == t2 by {
                if t2 != t {
                    assert(old_contents.contains_key(t2));
                }
            }
            assert forall|i: int| 0 <= i < self.tags@.len() implies lists_exactly(self.links(), #[trigger] self.node(i).satellites@, Some(i as usize)) by {
                let links = self.links();
                let sats = self.node(i).satellites@;
                if i == n {
                    assert(sats.len() == 0);
                    assert forall|c: int| 0 <= c < links.len() && #[trigger] links[c] == Some(i as usize) implies sats.contains(c as usize) by {
                        if c < n {
                            assert(links[c] == old_links[c]);
                        }
                    }
                } else {
                    let osats = old(self).node(i).satellites@;
                    assert(lists_exactly(old_links, osats, Some(i as usize)));
                    assert forall|c: int| 0 <= c < links.len() && #[trigger] links[c] == Some(i as usize) implies sats.contains(c as usize) by {
                        if c < n {
                            assert(osats.contains(c as usize));
                            let k = osats.index_of(c as usize);
                            if parent_slot == Some(i as usize) {
                                assert(sats[k] == c as usize);
                            }
                        } else {
                            assert(sats[osats.len() as int] == n);
                        }
                    }
                    if parent_slot == Some(i as usize) {
                        assert(sats =~= osats.push(n));
                    } else {
                        assert(sats =~= osats);
                    }
                }
            }
            let links = self.links();
            let oroots = old(self).roots@;
            assert forall|c: int| 0 <= c < links.len() && #[trigger] links[c] == None::<usize> implies self.roots@.contains(c as usize) by {
                if c < n {
                    assert(oroots.contains(c as usize));
                    let k = oroots.index_of(c as usize);
                    if parent_slot is None {
                        assert(self.roots@[k] == c as usize);
                    }
                } else {
                    assert(self.roots@[oroots.len() as int] == n);
                }
            }
            self.lemma_tags_distinct();
        }
        Ok(t)
    }
}

} // verus!
