//! The body arena: `valet` stores each body's links under a tag that it hands
//! out, and these items are what the library assumes of it.
use valet::{Tag, Valet};
use vstd::prelude::*;

verus! {

#[verifier::external_type_specification]
#[verifier::external_body]
#[verifier::reject_recursive_types(T)]
pub struct ExTag<T>(Tag<T>);

#[verifier::external_type_specification]
#[verifier::external_body]
#[verifier::reject_recursive_types(T)]
pub struct ExValet<T>(Valet<T>);

/// What a body records of its place in the forest.
#[derive(Debug)]
pub struct BodyNode {
    /// Position of the body in insertion order.
    pub(crate) slot: usize,
    /// Slot of the parent body, if the body orbits one.
    pub(crate) parent: Option<usize>,
    /// Slots of the bodies that orbit this one, in insertion order.
    pub(crate) satellites: Vec<usize>,
}

/// A stable handle to a body of a [`crate::Hierarchy`].
pub type BodyTag = Tag<BodyNode>;

/// The tagged nodes that an arena holds.
pub uninterp spec fn arena_contents(v: Valet<BodyNode>) -> Map<BodyTag, BodyNode>;

/// Relies on `Valet::new`: the arena starts empty.
#[verifier::external_body]
pub(crate) fn arena_new() -> (r: Valet<BodyNode>)
    ensures
        arena_contents(r) =~= Map::empty(),
{
    Valet::new()
}

/// Relies on `Valet::insert`: the node is stored under a tag taken from a
/// process-wide counter that only grows, so no stored tag equals it.
#[verifier::external_body]
pub(crate) fn arena_insert(v: &mut Valet<BodyNode>, node: BodyNode) -> (r: BodyTag)
    ensures
        !arena_contents(*old(v)).contains_key(r),
        arena_contents(*final(v)) == arena_contents(*old(v)).insert(r, node),
{
    v.insert(node)
}

/// Relies on `Valet::get`: the node stored under the tag, if any.
#[verifier::external_body]
pub(crate) fn arena_get(v: &Valet<BodyNode>, t: BodyTag) -> (r: Option<&BodyNode>)
    ensures
        r.is_some() == arena_contents(*v).contains_key(t),
        r.is_some() ==> *r.unwrap() == arena_contents(*v)[t],
{
    v.get(&t)
}

/// Relies on `Valet`'s `Index`: the node stored under a tag that the arena
/// holds (it panics on any other tag).
#[verifier::external_body]
pub(crate) fn arena_index(v: &Valet<BodyNode>, t: BodyTag) -> (r: &BodyNode)
    requires
        arena_contents(*v).contains_key(t),
    ensures
        *r == arena_contents(*v)[t],
{
    &v[&t]
}

/// Relies on `Valet`'s `IndexMut`: the node stored under a tag that the
/// arena holds, to change in place (it panics on any other tag).
#[verifier::external_body]
pub(crate) fn arena_index_mut(v: &mut Valet<BodyNode>, t: BodyTag) -> (r: &mut BodyNode)
    requires
        arena_contents(*old(v)).contains_key(t),
    ensures
        *r == arena_contents(*old(v))[t],
        arena_contents(*final(v)) == arena_contents(*old(v)).insert(t, *final(r)),
{
    &mut v[&t]
}

} // verus!
