//! What a visibility edge promises to the threads that look on: whoever has
//! seen what the destination did has seen what the source did. Without the
//! edge nothing of the kind is promised, and a thread may see the later
//! action and miss the earlier one.

use vstd::prelude::*;
use crate::edge::{Edge, EdgeKind, EdgeView};
use crate::name::Name;

verus! {

/// Whether a thread that has seen the effects of exactly the actions in
/// `seen` has what `edge` promises it. Only an edge of the visibility kind
/// promises anything here.
pub open spec fn keeps(seen: Set<Seq<u8>>, edge: EdgeView) -> bool {
    edge.kind == EdgeKind::Visibility && seen.contains(edge.destination) ==> seen.contains(
        edge.source,
    )
}

/// Whether a thread may, at some moment, have seen the effects of exactly
/// the actions in `seen`, given what `edges` promise.
pub open spec fn may_see(seen: Set<Seq<u8>>, edges: Seq<EdgeView>) -> bool {
    forall|i: int| 0 <= i < edges.len() ==> keeps(seen, #[trigger] edges[i])
}

/// The names that a list of names holds.
pub open spec fn names_in(list: Seq<Name>) -> Set<Seq<u8>> {
    Set::new(|name: Seq<u8>| exists|i: int| 0 <= i < list.len() && (#[trigger] list[i])@ == name)
}

/// The edges of a list as contracts speak of them.
pub open spec fn views_of(edges: Seq<Edge>) -> Seq<EdgeView> {
    Seq::new(edges.len(), |i: int| edges[i]@)
}

/// Whether `name` is among `seen`.
pub fn has_seen(seen: &[Name], name: &Name) -> (r: bool)
    ensures
        r == names_in(seen@).contains(name@),
{
    let mut i: usize = 0;
    while i < seen.len()
        invariant
            i <= seen@.len(),
            forall|j: int| 0 <= j < i ==> (#[trigger] seen@[j])@ != name@,
        decreases seen@.len() - i,
    {
        if seen[i].same(name) {
            return true;
        }
        i += 1;
    }
    false
}

/// Whether a thread may have seen the effects of exactly the actions in
/// `seen`, given what `edges` promise.
pub fn observable(seen: &[Name], edges: &[Edge]) -> (r: bool)
    ensures
        r == may_see(names_in(seen@), views_of(edges@)),
{
    let mut i: usize = 0;
    while i < edges.len()
        invariant
            i <= edges@.len(),
            forall|j: int| 0 <= j < i ==> keeps(names_in(seen@), #[trigger] views_of(edges@)[j]),
        decreases edges@.len() - i,
    {
        let edge = &edges[i];
        let broken = match edge.kind {
            EdgeKind::Visibility => has_seen(seen, &edge.destination) && !has_seen(
                seen,
                &edge.source,
            ),
            _ => false,
        };
        if broken {
            proof {
                assert(!keeps(names_in(seen@), views_of(edges@)[i as int]));
            }
            return false;
        }
        i += 1;
    }
    true
}

/// Under a visibility edge, whoever has seen the destination has seen the
/// source.
pub proof fn lemma_seen_with_its_source(seen: Set<Seq<u8>>, edges: Seq<EdgeView>, i: int)
    requires
        may_see(seen, edges),
        0 <= i < edges.len(),
        edges[i].kind == EdgeKind::Visibility,
        seen.contains(edges[i].destination),
    ensures
        seen.contains(edges[i].source),
{
    assert(keeps(seen, edges[i]));
}

/// Visibility edges chain: with one from `first` to `second` and one from
/// `second` to `third`, whoever has seen the third has seen the first.
pub proof fn lemma_visibility_chains(seen: Set<Seq<u8>>, edges: Seq<EdgeView>, i: int, j: int)
    requires
        may_see(seen, edges),
        0 <= i < edges.len(),
        0 <= j < edges.len(),
        edges[i].kind == EdgeKind::Visibility,
        edges[j].kind == EdgeKind::Visibility,
        edges[i].destination == edges[j].source,
        seen.contains(edges[j].destination),
    ensures
        seen.contains(edges[i].source),
{
    assert(keeps(seen, edges[j]));
    assert(keeps(seen, edges[i]));
}

/// Where no visibility edge ends in an action, nothing is promised to those
/// who see it: a thread may have seen that action and no other.
pub proof fn lemma_unasked_is_not_promised(edges: Seq<EdgeView>, name: Seq<u8>)
    requires
        forall|i: int|
            0 <= i < edges.len() && (#[trigger] edges[i]).kind == EdgeKind::Visibility
                ==> edges[i].destination != name,
    ensures
        may_see(set![name], edges),
{
    assert forall|i: int| 0 <= i < edges.len() implies keeps(set![name], #[trigger] edges[i]) by {
        if edges[i].kind == EdgeKind::Visibility && set![name].contains(edges[i].destination) {
            assert(edges[i].destination == name);
        }
    }
}

/// A thread may always have seen nothing yet, and may always have seen
/// everything.
pub proof fn lemma_nothing_and_everything(edges: Seq<EdgeView>)
    ensures
        may_see(Set::empty(), edges),
        may_see(Set::full(), edges),
{
}

} // verus!
