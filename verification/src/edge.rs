//! Edges: the relations that a program asks for between two named actions.

use vstd::prelude::*;
use crate::name::Name;

verus! {

/// What an edge asks for between its source and its destination.
#[derive(Clone, Copy, Debug, PartialEq, Eq, Structural)]
pub enum EdgeKind {
    /// The source is carried out before the destination begins, in the
    /// thread that runs both.
    Execution,
    /// Whoever has seen what the destination did also sees what the source
    /// did.
    Visibility,
    /// The combined relation that ties both together around a
    /// read-modify-write.
    Order,
}

impl EdgeKind {
    /// The number by which the lowering pass knows the kind.
    pub open spec fn code_of(self) -> int {
        match self {
            EdgeKind::Execution => 0,
            EdgeKind::Visibility => 1,
            EdgeKind::Order => 2,
        }
    }

    /// The number by which the lowering pass knows the kind.
    pub fn code(self) -> (c: i32)
        ensures
            c == self.code_of(),
    {
        match self {
            EdgeKind::Execution => 0,
            EdgeKind::Visibility => 1,
            EdgeKind::Order => 2,
        }
    }

    /// The kind that `code` stands for, if it stands for one.
    pub fn from_code(code: i32) -> (r: Option<EdgeKind>)
        ensures
            match r {
                Some(kind) => kind.code_of() == code,
                None => code < 0 || code > 2,
            },
    {
        if code == 0 {
            Some(EdgeKind::Execution)
        } else if code == 1 {
            Some(EdgeKind::Visibility)
        } else if code == 2 {
            Some(EdgeKind::Order)
        } else {
            None
        }
    }
}

/// An edge as contracts speak of it: its kind and the two names, as bytes.
pub struct EdgeView {
    pub kind: EdgeKind,
    pub source: Seq<u8>,
    pub destination: Seq<u8>,
}

/// A directed relation of one kind from the action named `source` to the
/// action named `destination`. It holds of every occurrence of the two.
#[derive(Debug, PartialEq, Eq)]
pub struct Edge {
    pub kind: EdgeKind,
    pub source: Name,
    pub destination: Name,
}

impl View for Edge {
    type V = EdgeView;

    open spec fn view(&self) -> EdgeView {
        EdgeView { kind: self.kind, source: self.source@, destination: self.destination@ }
    }
}

/// Different kinds have different codes, so the lowering pass can tell them
/// apart.
pub proof fn lemma_code_tells_kind(a: EdgeKind, b: EdgeKind)
    requires
        a.code_of() == b.code_of(),
    ensures
        a == b,
{
}

} // verus!
