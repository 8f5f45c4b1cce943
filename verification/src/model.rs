//! The annotation protocol as a state machine over plain mathematical values:
//! what is open, what has been closed and which edges have been declared
//! since the last push.

use vstd::prelude::*;
use crate::edge::EdgeView;

verus! {

/// The state of one compilation scope.
pub struct GraphView {
    /// The live handles, each with the name of the action it brackets.
    pub open: Map<nat, Seq<u8>>,
    /// The names closed since the last push, in the order in which each was
    /// first closed.
    pub closed: Seq<Seq<u8>>,
    /// The edges declared since the last push, in the order of declaration.
    pub edges: Seq<EdgeView>,
    /// How many handles the scope has given out since it began.
    pub issued: nat,
}

impl GraphView {
    /// The scope before anything has happened in it.
    pub open spec fn initial() -> GraphView {
        GraphView { open: Map::empty(), closed: Seq::empty(), edges: Seq::empty(), issued: 0 }
    }

    /// Every live handle was given out, no two live handles bracket the same
    /// name, and no name is listed as closed twice.
    pub open spec fn wf(self) -> bool {
        &&& forall|h: nat| self.open.dom().contains(h) ==> h < self.issued
        &&& forall|g: nat, h: nat|
            self.open.dom().contains(g) && self.open.dom().contains(h) && self.open[g]
                == self.open[h] ==> g == h
        &&& self.closed.no_duplicates()
    }

    /// Whether `handle` came from an open that has not been closed.
    pub open spec fn is_live(self, handle: nat) -> bool {
        self.open.dom().contains(handle)
    }

    /// Whether an action of this name is open now.
    pub open spec fn is_open(self, name: Seq<u8>) -> bool {
        exists|h: nat| self.open.dom().contains(h) && self.open[h] == name
    }

    /// Whether an action of this name was closed since the last push.
    pub open spec fn is_closed(self, name: Seq<u8>) -> bool {
        self.closed.contains(name)
    }

    /// Whether both ends of `edge` name an action closed since the last push.
    pub open spec fn defines(self, edge: EdgeView) -> bool {
        self.is_closed(edge.source) && self.is_closed(edge.destination)
    }

    /// Whether no edge of the window dangles.
    pub open spec fn resolved(self) -> bool {
        forall|i: int| 0 <= i < self.edges.len() ==> self.defines(#[trigger] self.edges[i])
    }

    /// Whether the edge at `i` is the first that dangles.
    pub open spec fn first_dangling(self, i: int) -> bool {
        &&& 0 <= i < self.edges.len()
        &&& !self.defines(self.edges[i])
        &&& forall|j: int| 0 <= j < i ==> self.defines(#[trigger] self.edges[j])
    }

    /// The state after an action named `name` was opened. Its handle is the
    /// number of handles given out before.
    pub open spec fn opened(self, name: Seq<u8>) -> GraphView {
        GraphView { open: self.open.insert(self.issued, name), issued: self.issued + 1, ..self }
    }

    /// The state after the action behind `handle` was closed.
    pub open spec fn shut(self, handle: nat) -> GraphView
        recommends
            self.is_live(handle),
    {
        GraphView {
            open: self.open.remove(handle),
            closed: if self.closed.contains(self.open[handle]) {
                self.closed
            } else {
                self.closed.push(self.open[handle])
            },
            ..self
        }
    }

    /// The state after `edge` was declared.
    pub open spec fn declared(self, edge: EdgeView) -> GraphView {
        GraphView { edges: self.edges.push(edge), ..self }
    }

    /// The state after a push went through: a new window, in which nothing is
    /// closed and nothing declared. What is open stays open.
    pub open spec fn pushed(self) -> GraphView {
        GraphView { closed: Seq::empty(), edges: Seq::empty(), ..self }
    }
}

/// The initial state is well formed.
pub proof fn lemma_initial_wf()
    ensures
        GraphView::initial().wf(),
{
}

/// Opening a name that is not open keeps the state well formed. The handle
/// is one that was not live before, and the name is open afterwards.
pub proof fn lemma_opened_wf(s: GraphView, name: Seq<u8>)
    requires
        s.wf(),
        !s.is_open(name),
    ensures
        s.opened(name).wf(),
        !s.is_live(s.issued),
        s.opened(name).is_live(s.issued),
        s.opened(name).is_open(name),
{
    let t = s.opened(name);
    assert(t.open.dom().contains(s.issued) && t.open[s.issued] == name);
    assert forall|g: nat, h: nat|
        t.open.dom().contains(g) && t.open.dom().contains(h) && t.open[g] == t.open[h] implies g
        == h by {
        if g != h {
            if g == s.issued {
                assert(s.open.dom().contains(h) && s.open[h] == name);
            } else if h == s.issued {
                assert(s.open.dom().contains(g) && s.open[g] == name);
            }
        }
    }
}

/// Closing a live handle keeps the state well formed; the name is then
/// closed and no longer open.
pub proof fn lemma_shut_wf(s: GraphView, handle: nat)
    requires
        s.wf(),
        s.is_live(handle),
    ensures
        s.shut(handle).wf(),
        !s.shut(handle).is_live(handle),
        !s.shut(handle).is_open(s.open[handle]),
        s.shut(handle).is_closed(s.open[handle]),
{
    let t = s.shut(handle);
    let name = s.open[handle];
    if !s.closed.contains(name) {
        assert(t.closed == s.closed.push(name));
        assert(t.closed[s.closed.len() as int] == name);
        assert forall|i: int, j: int|
            0 <= i < t.closed.len() && 0 <= j < t.closed.len() && i != j implies t.closed[i]
            != t.closed[j] by {
            if i == s.closed.len() {
                assert(s.closed[j] == t.closed[j]);
            } else if j == s.closed.len() {
                assert(s.closed[i] == t.closed[i]);
            }
        }
    }
    assert(t.closed.contains(name));
}

/// Declaring an edge and pushing keep the state well formed.
pub proof fn lemma_declared_pushed_wf(s: GraphView, edge: EdgeView)
    requires
        s.wf(),
    ensures
        s.declared(edge).wf(),
        s.pushed().wf(),
{
}

/// A name comes to count as closed by the close of an action of that name,
/// and in no other way: opening and declaring leave the closed names as they
/// are, and a push leaves none.
pub proof fn lemma_closed_by_close_only(s: GraphView, name: Seq<u8>, handle: nat, edge: EdgeView)
    ensures
        s.opened(name).closed == s.closed,
        s.declared(edge).closed == s.closed,
        forall|other: Seq<u8>|
            s.shut(handle).is_closed(other) <==> s.is_closed(other) || other == s.open[handle],
        forall|other: Seq<u8>| !s.pushed().is_closed(other),
{
    assert forall|other: Seq<u8>|
        s.shut(handle).is_closed(other) <==> s.is_closed(other) || other
            == s.open[handle] by {
        let listed = s.shut(handle).closed;
        if s.closed.contains(s.open[handle]) {
        } else {
            assert(listed == s.closed.push(s.open[handle]));
            if s.is_closed(other) {
                let i = choose|i: int| 0 <= i < s.closed.len() && s.closed[i] == other;
                assert(listed[i] == other);
            }
            if other == s.open[handle] {
                assert(listed[s.closed.len() as int] == other);
            }
        }
    }
}

/// Within a window edges are only added, at the end: opening and closing
/// leave the edges as they are, and declaring leaves those that were there
/// where they were.
pub proof fn lemma_edges_only_grow(s: GraphView, name: Seq<u8>, handle: nat, edge: EdgeView)
    ensures
        s.opened(name).edges == s.edges,
        s.shut(handle).edges == s.edges,
        s.declared(edge).edges.len() == s.edges.len() + 1,
        s.declared(edge).edges.take(s.edges.len() as int) == s.edges,
        s.declared(edge).edges.last() == edge,
{
    assert(s.declared(edge).edges.take(s.edges.len() as int) =~= s.edges);
}

/// A window in which an edge dangles has a first such edge, and only one.
pub proof fn lemma_first_dangling(s: GraphView, i: int, j: int)
    requires
        s.first_dangling(i),
        s.first_dangling(j),
    ensures
        i == j,
        !s.resolved(),
{
    if i < j {
        assert(s.defines(s.edges[i]));
    } else if j < i {
        assert(s.defines(s.edges[j]));
    }
}

/// A name that was closed can be opened again, and a push in between makes no
/// difference.
pub proof fn lemma_closed_name_reopens(s: GraphView, handle: nat)
    requires
        s.wf(),
        s.is_live(handle),
    ensures
        !s.shut(handle).is_open(s.open[handle]),
        !s.shut(handle).pushed().is_open(s.open[handle]),
        s.shut(handle).pushed().opened(s.open[handle]).wf(),
{
    lemma_shut_wf(s, handle);
    let t = s.shut(handle).pushed();
    assert(t.open == s.shut(handle).open);
    lemma_opened_wf(t, s.open[handle]);
}

/// A push that goes through leaves a window without edges, in which nothing
/// dangles.
pub proof fn lemma_pushed_resolved(s: GraphView)
    ensures
        s.pushed().resolved(),
        s.pushed().open == s.open,
        s.pushed().issued == s.issued,
{
}

} // verus!
