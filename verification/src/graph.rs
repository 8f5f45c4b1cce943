//! The registry of actions and the graph of edges of one compilation scope,
//! and the push that hands a finished window over.

use vstd::prelude::*;
use crate::edge::{Edge, EdgeKind, EdgeView};
use crate::interner::Interner;
use crate::model::{lemma_first_dangling, lemma_opened_wf, lemma_shut_wf, GraphView};
use crate::name::Name;

verus! {

/// How a step of the protocol can fail. Each is an error of the program that
/// uses the protocol, found when it is built.
#[derive(Clone, Copy, Debug, PartialEq, Eq, Structural)]
pub enum Error {
    /// An action of that name is open already.
    DuplicateOpenAction,
    /// The handle belongs to no open action.
    UnknownHandle,
    /// The edge at this place of the window names an action that was not
    /// closed in the window.
    UndefinedActionReference { edge: usize },
}

/// What `open` hands out and `close` takes back. It stands for one action
/// from its open to its close and for nothing afterwards.
#[derive(Clone, Copy, Debug, PartialEq, Eq, Structural)]
pub struct ActionHandle {
    serial: u64,
}

impl View for ActionHandle {
    type V = nat;

    closed spec fn view(&self) -> nat {
        self.serial as nat
    }
}

/// One finished window as the lowering pass receives it.
#[derive(Debug, PartialEq, Eq)]
pub struct Request {
    /// The names closed in the window, each once, in the order in which each
    /// was first closed.
    pub actions: Vec<Name>,
    /// The edges declared in the window, in the order of declaration.
    pub edges: Vec<Edge>,
}

/// A request as contracts speak of it.
pub struct RequestView {
    pub actions: Seq<Seq<u8>>,
    pub edges: Seq<EdgeView>,
}

impl View for Request {
    type V = RequestView;

    open spec fn view(&self) -> RequestView {
        RequestView {
            actions: Seq::new(self.actions@.len(), |i: int| self.actions@[i]@),
            edges: Seq::new(self.edges@.len(), |i: int| self.edges@[i]@),
        }
    }
}

/// An action that is open: the serial number of its handle and the key of
/// its name.
struct Live {
    serial: u64,
    symbol: usize,
}

/// An edge, with keys in place of names.
struct Link {
    kind: EdgeKind,
    source: usize,
    destination: usize,
}

/// The actions and edges of one compilation scope.
///
/// Names are kept once, in a table, and everything else refers to them by
/// key. The table only grows, also across pushes.
pub struct Graph {
    symbols: Interner,
    live: Vec<Live>,
    closed: Vec<usize>,
    edges: Vec<Link>,
    issued: u64,
}

// What the books stand for.

spec fn holds_serial(live: Seq<Live>, h: nat) -> bool {
    exists|i: int| 0 <= i < live.len() && (#[trigger] live[i]).serial as nat == h
}

spec fn slot_of(live: Seq<Live>, h: nat) -> int {
    choose|i: int| 0 <= i < live.len() && (#[trigger] live[i]).serial as nat == h
}

spec fn name_behind(live: Seq<Live>, names: Seq<Seq<u8>>, h: nat) -> Seq<u8> {
    names[live[slot_of(live, h)].symbol as int]
}

spec fn open_map(live: Seq<Live>, names: Seq<Seq<u8>>) -> Map<nat, Seq<u8>> {
    Map::new(|h: nat| holds_serial(live, h), |h: nat| name_behind(live, names, h))
}

spec fn carried(live: Seq<Live>, symbol: usize) -> bool {
    exists|i: int| 0 <= i < live.len() && (#[trigger] live[i]).symbol == symbol
}

spec fn closed_names(closed: Seq<usize>, names: Seq<Seq<u8>>) -> Seq<Seq<u8>> {
    Seq::new(closed.len(), |i: int| names[closed[i] as int])
}

spec fn link_view(link: Link, names: Seq<Seq<u8>>) -> EdgeView {
    EdgeView {
        kind: link.kind,
        source: names[link.source as int],
        destination: names[link.destination as int],
    }
}

spec fn edge_views(edges: Seq<Link>, names: Seq<Seq<u8>>) -> Seq<EdgeView> {
    Seq::new(edges.len(), |i: int| link_view(edges[i], names))
}

// What keeps the books in order.

spec fn live_inv(live: Seq<Live>, table: nat, issued: nat) -> bool {
    &&& forall|i: int|
        0 <= i < live.len() ==> (#[trigger] live[i]).symbol < table && live[i].serial < issued
    &&& forall|i: int, j: int|
        0 <= i < j < live.len() ==> (#[trigger] live[i]).serial != (#[trigger] live[j]).serial
            && live[i].symbol != live[j].symbol
}

spec fn closed_inv(closed: Seq<usize>, table: nat) -> bool {
    &&& forall|i: int| 0 <= i < closed.len() ==> #[trigger] closed[i] < table
    &&& closed.no_duplicates()
}

spec fn edges_inv(edges: Seq<Link>, table: nat) -> bool {
    forall|i: int|
        0 <= i < edges.len() ==> (#[trigger] edges[i]).source < table && edges[i].destination
            < table
}

/// Among live actions with distinct serials, the slot of a serial is the one
/// place at which it stands.
proof fn lemma_slot(live: Seq<Live>, table: nat, issued: nat, i: int)
    requires
        live_inv(live, table, issued),
        0 <= i < live.len(),
    ensures
        holds_serial(live, live[i].serial as nat),
        slot_of(live, live[i].serial as nat) == i,
{
    let h = live[i].serial as nat;
    let s = slot_of(live, h);
    assert(0 <= s < live.len() && live[s].serial as nat == h);
    if s < i {
        assert(live[s].serial != live[i].serial);
    } else if i < s {
        assert(live[i].serial != live[s].serial);
    }
}

/// Names that enter the table behind the keys in use change nothing that
/// those keys stand for.
proof fn lemma_growth(
    live: Seq<Live>,
    closed: Seq<usize>,
    edges: Seq<Link>,
    before: Seq<Seq<u8>>,
    after: Seq<Seq<u8>>,
    issued: nat,
)
    requires
        before.len() <= after.len(),
        forall|k: int| 0 <= k < before.len() ==> after[k] == before[k],
        live_inv(live, before.len(), issued),
        closed_inv(closed, before.len()),
        edges_inv(edges, before.len()),
    ensures
        open_map(live, after) == open_map(live, before),
        closed_names(closed, after) == closed_names(closed, before),
        edge_views(edges, after) == edge_views(edges, before),
        live_inv(live, after.len(), issued),
        closed_inv(closed, after.len()),
        edges_inv(edges, after.len()),
{
    assert forall|h: nat| holds_serial(live, h) implies name_behind(live, after, h)
        == name_behind(live, before, h) by {
        let i = slot_of(live, h);
        assert(live[i].symbol < before.len());
    }
    assert(open_map(live, after) =~= open_map(live, before));
    assert(closed_names(closed, after) =~= closed_names(closed, before));
    assert(edge_views(edges, after) =~= edge_views(edges, before));
}

/// A new live action, with the next serial and a key that no live action
/// carries, is one more entry of the map of open actions.
proof fn lemma_live_push(live: Seq<Live>, names: Seq<Seq<u8>>, issued: nat, action: Live)
    requires
        live_inv(live, names.len(), issued),
        action.serial == issued,
        action.symbol < names.len(),
        !carried(live, action.symbol),
    ensures
        live_inv(live.push(action), names.len(), issued + 1),
        open_map(live.push(action), names) == open_map(live, names).insert(
            issued,
            names[action.symbol as int],
        ),
{
    let after = live.push(action);
    let last = live.len() as int;
    assert(after[last] == action);
    assert forall|i: int, j: int| 0 <= i < j < after.len() implies (#[trigger] after[i]).serial
        != (#[trigger] after[j]).serial && after[i].symbol != after[j].symbol by {
        assert(after[i] == live[i]);
        if j < last {
            assert(after[j] == live[j]);
        }
    }
    assert forall|i: int| 0 <= i < after.len() implies (#[trigger] after[i]).symbol < names.len()
        && after[i].serial < issued + 1 by {
        if i < last {
            assert(after[i] == live[i]);
        }
    }
    assert forall|h: nat| holds_serial(after, h) <==> (holds_serial(live, h) || h == issued) by {
        if holds_serial(after, h) {
            let i = slot_of(after, h);
            if i < last {
                assert(live[i].serial as nat == h);
            }
        }
        if holds_serial(live, h) {
            let i = slot_of(live, h);
            assert(after[i].serial as nat == h);
        }
        if h == issued {
            assert(after[last].serial as nat == h);
        }
    }
    assert forall|h: nat| holds_serial(after, h) implies #[trigger] name_behind(after, names, h)
        == open_map(live, names).insert(issued, names[action.symbol as int])[h] by {
        let i = slot_of(after, h);
        lemma_slot(after, names.len(), issued + 1, i);
        if i < last {
            assert(after[i] == live[i]);
            lemma_slot(live, names.len(), issued, i);
        }
    }
    assert(open_map(after, names) =~= open_map(live, names).insert(
        issued,
        names[action.symbol as int],
    ));
}

/// A live action that leaves is one entry less in the map of open actions,
/// and the entry that leaves is its own.
proof fn lemma_live_remove(live: Seq<Live>, names: Seq<Seq<u8>>, issued: nat, at: int)
    requires
        live_inv(live, names.len(), issued),
        0 <= at < live.len(),
    ensures
        live_inv(live.remove(at), names.len(), issued),
        open_map(live, names).dom().contains(live[at].serial as nat),
        open_map(live, names)[live[at].serial as nat] == names[live[at].symbol as int],
        open_map(live.remove(at), names) == open_map(live, names).remove(live[at].serial as nat),
{
    let after = live.remove(at);
    let h = live[at].serial as nat;
    lemma_slot(live, names.len(), issued, at);
    assert forall|i: int| 0 <= i < after.len() implies #[trigger] after[i] == live[if i < at {
        i
    } else {
        i + 1
    }] by {}
    assert forall|i: int, j: int| 0 <= i < j < after.len() implies (#[trigger] after[i]).serial
        != (#[trigger] after[j]).serial && after[i].symbol != after[j].symbol by {
        let a = if i < at { i } else { i + 1 };
        let b = if j < at { j } else { j + 1 };
        assert(after[i] == live[a] && after[j] == live[b] && a < b);
    }
    assert forall|g: nat| holds_serial(after, g) <==> (holds_serial(live, g) && g != h) by {
        if holds_serial(after, g) {
            let i = slot_of(after, g);
            let a = if i < at { i } else { i + 1 };
            assert(after[i] == live[a]);
            assert(live[a].serial as nat == g);
            if a < at {
                assert(live[a].serial != live[at].serial);
            } else {
                assert(live[at].serial != live[a].serial);
            }
        }
        if holds_serial(live, g) && g != h {
            let a = slot_of(live, g);
            let i = if a < at { a } else { a - 1 };
            assert(after[i] == live[a]);
            assert(after[i].serial as nat == g);
        }
    }
    assert forall|g: nat| holds_serial(after, g) implies #[trigger] name_behind(after, names, g)
        == name_behind(live, names, g) by {
        let i = slot_of(after, g);
        let a = if i < at { i } else { i + 1 };
        assert(after[i] == live[a]);
        lemma_slot(live, names.len(), issued, a);
    }
    assert(open_map(after, names) =~= open_map(live, names).remove(h));
}

/// A key listed as closed for the first time is one more closed name.
proof fn lemma_closed_push(closed: Seq<usize>, names: Seq<Seq<u8>>, symbol: usize)
    requires
        closed_inv(closed, names.len()),
        symbol < names.len(),
        !closed.contains(symbol),
    ensures
        closed_inv(closed.push(symbol), names.len()),
        closed_names(closed.push(symbol), names) == closed_names(closed, names).push(
            names[symbol as int],
        ),
{
    let after = closed.push(symbol);
    let last = closed.len() as int;
    assert forall|i: int, j: int|
        0 <= i < after.len() && 0 <= j < after.len() && i != j implies after[i] != after[j] by {
        if i < last {
            assert(after[i] == closed[i]);
        }
        if j < last {
            assert(after[j] == closed[j]);
        }
    }
    assert forall|i: int| 0 <= i < after.len() implies #[trigger] after[i] < names.len() by {
        if i < last {
            assert(after[i] == closed[i]);
        }
    }
    assert(closed_names(after, names) =~= closed_names(closed, names).push(names[symbol as int]));
}

impl View for Graph {
    type V = GraphView;

    closed spec fn view(&self) -> GraphView {
        GraphView {
            open: open_map(self.live@, self.symbols@),
            closed: closed_names(self.closed@, self.symbols@),
            edges: edge_views(self.edges@, self.symbols@),
            issued: self.issued as nat,
        }
    }
}

impl Graph {
    /// The books are in order: every key in use is a key of the name table,
    /// and no live action or closed name is listed twice.
    pub closed spec fn inv(&self) -> bool {
        &&& self.symbols.wf()
        &&& live_inv(self.live@, self.symbols@.len(), self.issued as nat)
        &&& closed_inv(self.closed@, self.symbols@.len())
        &&& edges_inv(self.edges@, self.symbols@.len())
    }

    /// The books are in order, and what they stand for is a well formed state
    /// of the protocol.
    pub open spec fn wf(&self) -> bool {
        self.inv() && self@.wf()
    }

    /// Books in order stand for a well formed state.
    proof fn lemma_view_wf(&self)
        requires
            self.inv(),
        ensures
            self@.wf(),
    {
        let live = self.live@;
        let names = self.symbols@;
        let m = open_map(live, names);
        assert forall|h: nat| m.dom().contains(h) implies h < self.issued as nat by {
            let i = slot_of(live, h);
            assert(0 <= i < live.len() && live[i].serial as nat == h);
        }
        assert forall|g: nat, h: nat|
            m.dom().contains(g) && m.dom().contains(h) && m[g] == m[h] implies g == h by {
            let i = slot_of(live, g);
            let j = slot_of(live, h);
            assert(0 <= i < live.len() && live[i].serial as nat == g);
            assert(0 <= j < live.len() && live[j].serial as nat == h);
            assert(names[live[i].symbol as int] == names[live[j].symbol as int]);
            assert(live[i].symbol == live[j].symbol);
            if i < j {
                assert(live[i].symbol != live[j].symbol);
            } else if j < i {
                assert(live[j].symbol != live[i].symbol);
            }
        }
        let c = closed_names(self.closed@, names);
        assert forall|i: int, j: int| 0 <= i < c.len() && 0 <= j < c.len() && i != j implies c[i]
            != c[j] by {
            assert(self.closed@[i] != self.closed@[j]);
        }
    }

    /// A name is open exactly if a live action carries its key.
    proof fn lemma_is_open(&self, symbol: usize)
        requires
            self.inv(),
            symbol < self.symbols@.len(),
        ensures
            self@.is_open(self.symbols@[symbol as int]) == carried(self.live@, symbol),
    {
        let live = self.live@;
        let names = self.symbols@;
        let name = names[symbol as int];
        let m = self@.open;
        if self@.is_open(name) {
            let h = choose|h: nat| m.dom().contains(h) && m[h] == name;
            let i = slot_of(live, h);
            assert(0 <= i < live.len() && names[live[i].symbol as int] == name);
            assert(live[i].symbol == symbol);
        }
        if carried(live, symbol) {
            let i = choose|i: int| 0 <= i < live.len() && (#[trigger] live[i]).symbol == symbol;
            lemma_slot(live, names.len(), self.issued as nat, i);
            let h = live[i].serial as nat;
            assert(m.dom().contains(h) && m[h] == name);
        }
    }

    /// A name that the table does not hold is neither open nor closed.
    proof fn lemma_unknown_name(&self, name: Seq<u8>)
        requires
            self.inv(),
            !self.symbols@.contains(name),
        ensures
            !self@.is_open(name),
            !self@.is_closed(name),
    {
        let live = self.live@;
        let names = self.symbols@;
        let m = self@.open;
        if self@.is_open(name) {
            let h = choose|h: nat| m.dom().contains(h) && m[h] == name;
            let i = slot_of(live, h);
            assert(0 <= i < live.len() && names[live[i].symbol as int] == name);
            assert(names.contains(names[live[i].symbol as int]));
        }
        let listed = closed_names(self.closed@, names);
        if listed.contains(name) {
            let i = choose|i: int| 0 <= i < listed.len() && listed[i] == name;
            assert(names.contains(names[self.closed@[i] as int]));
        }
    }

    /// A name counts as closed exactly if its key is listed as closed.
    proof fn lemma_is_closed(&self, symbol: usize)
        requires
            self.inv(),
            symbol < self.symbols@.len(),
        ensures
            self@.is_closed(self.symbols@[symbol as int]) == self.closed@.contains(symbol),
    {
        let names = self.symbols@;
        let name = names[symbol as int];
        let listed = closed_names(self.closed@, names);
        if listed.contains(name) {
            let i = choose|i: int| 0 <= i < listed.len() && listed[i] == name;
            assert(names[self.closed@[i] as int] == name);
            assert(self.closed@[i] == symbol);
        }
        if self.closed@.contains(symbol) {
            let i = choose|i: int| 0 <= i < self.closed@.len() && self.closed@[i] == symbol;
            assert(listed[i] == name);
        }
    }

    /// A scope in which nothing has happened yet.
    pub fn new() -> (g: Graph)
        ensures
            g.wf(),
            g@ == GraphView::initial(),
    {
        let g = Graph {
            symbols: Interner::new(),
            live: Vec::new(),
            closed: Vec::new(),
            edges: Vec::new(),
            issued: 0,
        };
        proof {
            assert(g@.open =~= Map::<nat, Seq<u8>>::empty());
            assert(g@.closed =~= Seq::<Seq<u8>>::empty());
            assert(g@.edges =~= Seq::<EdgeView>::empty());
            g.lemma_view_wf();
        }
        g
    }

    /// How many handles the scope has given out. `open` needs one more to be
    /// left.
    pub fn issued(&self) -> (n: u64)
        ensures
            n == self@.issued,
    {
        self.issued
    }

    /// How many edges the window holds.
    pub fn edge_count(&self) -> (n: usize)
        ensures
            n == self@.edges.len(),
    {
        self.edges.len()
    }

    /// Whether a live action carries the key `symbol`.
    fn carries(&self, symbol: usize) -> (r: bool)
        ensures
            r == carried(self.live@, symbol),
    {
        let mut i: usize = 0;
        while i < self.live.len()
            invariant
                i <= self.live@.len(),
                forall|j: int| 0 <= j < i ==> (#[trigger] self.live@[j]).symbol != symbol,
            decreases self.live@.len() - i,
        {
            if self.live[i].symbol == symbol {
                return true;
            }
            i += 1;
        }
        false
    }

    /// The place in the list of live actions of the one with this serial.
    fn slot(&self, serial: u64) -> (r: Option<usize>)
        ensures
            match r {
                Some(i) => i < self.live@.len() && self.live@[i as int].serial == serial,
                None => !holds_serial(self.live@, serial as nat),
            },
    {
        let mut i: usize = 0;
        while i < self.live.len()
            invariant
                i <= self.live@.len(),
                forall|j: int| 0 <= j < i ==> (#[trigger] self.live@[j]).serial != serial,
            decreases self.live@.len() - i,
        {
            if self.live[i].serial == serial {
                return Some(i);
            }
            i += 1;
        }
        None
    }

    /// Whether the key `symbol` is listed as closed.
    fn lists(&self, symbol: usize) -> (r: bool)
        ensures
            r == self.closed@.contains(symbol),
    {
        let mut i: usize = 0;
        while i < self.closed.len()
            invariant
                i <= self.closed@.len(),
                forall|j: int| 0 <= j < i ==> self.closed@[j] != symbol,
            decreases self.closed@.len() - i,
        {
            if self.closed[i] == symbol {
                return true;
            }
            i += 1;
        }
        false
    }

    /// Whether an action of this name is open now.
    pub fn is_open(&self, name: &Name) -> (r: bool)
        requires
            self.wf(),
        ensures
            r == self@.is_open(name@),
    {
        match self.symbols.lookup(name) {
            Some(symbol) => {
                proof {
                    self.lemma_is_open(symbol);
                }
                self.carries(symbol)
            },
            None => {
                proof {
                    self.lemma_unknown_name(name@);
                }
                false
            },
        }
    }

    /// Whether `handle` belongs to an action that is open now.
    pub fn is_live(&self, handle: ActionHandle) -> (r: bool)
        ensures
            r == self@.is_live(handle@),
    {
        self.slot(handle.serial).is_some()
    }

    /// Whether an action of this name was closed since the last push.
    pub fn is_closed(&self, name: &Name) -> (r: bool)
        requires
            self.wf(),
        ensures
            r == self@.is_closed(name@),
    {
        match self.symbols.lookup(name) {
            Some(symbol) => {
                proof {
                    self.lemma_is_closed(symbol);
                }
                self.lists(symbol)
            },
            None => {
                proof {
                    self.lemma_unknown_name(name@);
                }
                false
            },
        }
    }

    /// Opens an action named `name` and hands out its handle, unless an
    /// action of that name is open already.
    pub fn open(&mut self, name: &Name) -> (r: Result<ActionHandle, Error>)
        requires
            old(self).wf(),
            old(self)@.issued < u64::MAX,
        ensures
            final(self).wf(),
            match r {
                Ok(handle) => {
                    &&& !old(self)@.is_open(name@)
                    &&& handle@ == old(self)@.issued
                    &&& final(self)@ == old(self)@.opened(name@)
                },
                Err(e) => {
                    &&& old(self)@.is_open(name@)
                    &&& e == Error::DuplicateOpenAction
                    &&& final(self)@ == old(self)@
                },
            },
    {
        if self.is_open(name) {
            return Err(Error::DuplicateOpenAction);
        }
        let symbol = self.symbols.intern(name);
        proof {
            lemma_growth(
                self.live@,
                self.closed@,
                self.edges@,
                old(self).symbols@,
                self.symbols@,
                self.issued as nat,
            );
            assert(self@ == old(self)@);
            self.lemma_is_open(symbol);
            lemma_live_push(
                self.live@,
                self.symbols@,
                self.issued as nat,
                Live { serial: self.issued, symbol },
            );
            lemma_opened_wf(old(self)@, name@);
        }
        let serial = self.issued;
        self.live.push(Live { serial, symbol });
        self.issued = serial + 1;
        Ok(ActionHandle { serial })
    }

    /// Closes the action behind `handle`, unless the handle is not live. The
    /// name of the action then counts as closed in this window.
    pub fn close(&mut self, handle: ActionHandle) -> (r: Result<(), Error>)
        requires
            old(self).wf(),
        ensures
            final(self).wf(),
            match r {
                Ok(_) => {
                    &&& old(self)@.is_live(handle@)
                    &&& final(self)@ == old(self)@.shut(handle@)
                },
                Err(e) => {
                    &&& !old(self)@.is_live(handle@)
                    &&& e == Error::UnknownHandle
                    &&& final(self)@ == old(self)@
                },
            },
    {
        let slot = match self.slot(handle.serial) {
            Some(slot) => slot,
            None => {
                return Err(Error::UnknownHandle);
            },
        };
        proof {
            lemma_live_remove(self.live@, self.symbols@, self.issued as nat, slot as int);
            lemma_shut_wf(self@, handle@);
        }
        let action = self.live.remove(slot);
        proof {
            old(self).lemma_is_closed(action.symbol);
        }
        if !self.lists(action.symbol) {
            proof {
                lemma_closed_push(self.closed@, self.symbols@, action.symbol);
            }
            self.closed.push(action.symbol);
        }
        Ok(())
    }

    /// Records an edge of `kind` from `source` to `destination` and says at
    /// which place of the window it stands. Neither name has to be known yet;
    /// both have to be closed by the time of the push.
    pub fn declare(&mut self, kind: EdgeKind, source: &Name, destination: &Name) -> (place: usize)
        requires
            old(self).wf(),
        ensures
            final(self).wf(),
            place == old(self)@.edges.len(),
            final(self)@ == old(self)@.declared(
                (EdgeView { kind, source: source@, destination: destination@ }),
            ),
    {
        let from = self.symbols.intern(source);
        let ghost between = self.symbols@;
        proof {
            lemma_growth(
                self.live@,
                self.closed@,
                self.edges@,
                old(self).symbols@,
                between,
                self.issued as nat,
            );
        }
        let to = self.symbols.intern(destination);
        proof {
            lemma_growth(
                self.live@,
                self.closed@,
                self.edges@,
                between,
                self.symbols@,
                self.issued as nat,
            );
            assert(self.symbols@[from as int] == source@);
        }
        let place = self.edges.len();
        self.edges.push(Link { kind, source: from, destination: to });
        proof {
            let edge = EdgeView { kind, source: source@, destination: destination@ };
            assert(link_view(self.edges@[place as int], self.symbols@) == edge);
            assert(self@.edges =~= old(self)@.edges.push(edge));
        }
        place
    }

    /// The place of the first edge of the window that names an action not
    /// closed in it, if there is such an edge.
    pub fn dangling(&self) -> (r: Option<usize>)
        requires
            self.wf(),
        ensures
            match r {
                Some(place) => self@.first_dangling(place as int),
                None => self@.resolved(),
            },
    {
        let mut i: usize = 0;
        while i < self.edges.len()
            invariant
                self.wf(),
                i <= self.edges@.len(),
                forall|j: int| 0 <= j < i ==> self@.defines(#[trigger] self@.edges[j]),
            decreases self.edges@.len() - i,
        {
            let source = self.edges[i].source;
            let destination = self.edges[i].destination;
            proof {
                self.lemma_is_closed(source);
                self.lemma_is_closed(destination);
                assert(self@.edges[i as int] == link_view(self.edges@[i as int], self.symbols@));
            }
            if !self.lists(source) || !self.lists(destination) {
                return Some(i);
            }
            i += 1;
        }
        None
    }

    /// The window as a request, with every key turned back into its name.
    fn request(&self) -> (r: Request)
        requires
            self.wf(),
        ensures
            r@.actions == self@.closed,
            r@.edges == self@.edges,
    {
        let mut actions: Vec<Name> = Vec::new();
        let mut a: usize = 0;
        while a < self.closed.len()
            invariant
                self.wf(),
                a <= self.closed@.len(),
                actions@.len() == a,
                forall|j: int| 0 <= j < a ==> (#[trigger] actions@[j])@ == self@.closed[j],
            decreases self.closed@.len() - a,
        {
            let name = self.symbols.name(self.closed[a]).clone();
            actions.push(name);
            a += 1;
        }
        let mut edges: Vec<Edge> = Vec::new();
        let mut e: usize = 0;
        while e < self.edges.len()
            invariant
                self.wf(),
                e <= self.edges@.len(),
                edges@.len() == e,
                forall|j: int| 0 <= j < e ==> (#[trigger] edges@[j])@ == self@.edges[j],
            decreases self.edges@.len() - e,
        {
            let link = &self.edges[e];
            let edge = Edge {
                kind: link.kind,
                source: self.symbols.name(link.source).clone(),
                destination: self.symbols.name(link.destination).clone(),
            };
            proof {
                assert(self@.edges[e as int] == link_view(self.edges@[e as int], self.symbols@));
            }
            edges.push(edge);
            e += 1;
        }
        let r = Request { actions, edges };
        proof {
            assert(r@.actions =~= self@.closed);
            assert(r@.edges =~= self@.edges);
        }
        r
    }

    /// Finishes the window. Where every edge names actions that were closed
    /// in it, the window goes out as one request and a new one begins;
    /// otherwise nothing changes and the error says which edge dangles first.
    ///
    /// Names are resolved window by window: an edge of a later window cannot
    /// lean on a close of an earlier one. Actions that are open stay open
    /// across the push, and their names count for the window in which they
    /// are closed. Whether the lowering pass can realize the relations it is
    /// given is for that pass to say; cycles among them are sent as they are.
    pub fn push(&mut self) -> (r: Result<Request, Error>)
        requires
            old(self).wf(),
        ensures
            final(self).wf(),
            match r {
                Ok(request) => {
                    &&& old(self)@.resolved()
                    &&& request@.actions == old(self)@.closed
                    &&& request@.edges == old(self)@.edges
                    &&& final(self)@ == old(self)@.pushed()
                },
                Err(e) => {
                    &&& !old(self)@.resolved()
                    &&& match e {
                        Error::UndefinedActionReference { edge } => old(self)@.first_dangling(
                            edge as int,
                        ),
                        _ => false,
                    }
                    &&& final(self)@ == old(self)@
                },
            },
    {
        match self.dangling() {
            Some(edge) => {
                proof {
                    lemma_first_dangling(self@, edge as int, edge as int);
                }
                return Err(Error::UndefinedActionReference { edge });
            },
            None => {},
        }
        let request = self.request();
        self.closed = Vec::new();
        self.edges = Vec::new();
        proof {
            assert(self@.closed =~= Seq::<Seq<u8>>::empty());
            assert(self@.edges =~= Seq::<EdgeView>::empty());
        }
        Ok(request)
    }

    /// Runs `operation` as the action named `name`: opens the action, runs
    /// the operation, closes the action and hands back what the operation
    /// gave. Where an action of that name is open already, the operation is
    /// not run.
    pub fn labeled<R, F: FnOnce() -> R>(&mut self, name: &Name, operation: F) -> (r: Result<
        R,
        Error,
    >)
        requires
            old(self).wf(),
            old(self)@.issued < u64::MAX,
            operation.requires(()),
        ensures
            final(self).wf(),
            match r {
                Ok(value) => {
                    &&& !old(self)@.is_open(name@)
                    &&& operation.ensures((), value)
                    &&& final(self)@ == old(self)@.opened(name@).shut(old(self)@.issued)
                },
                Err(e) => {
                    &&& old(self)@.is_open(name@)
                    &&& e == Error::DuplicateOpenAction
                    &&& final(self)@ == old(self)@
                },
            },
    {
        let handle = match self.open(name) {
            Ok(handle) => handle,
            Err(e) => {
                return Err(e);
            },
        };
        let value = operation();
        match self.close(handle) {
            Ok(_) => Ok(value),
            Err(e) => Err(e),
        }
    }
}

} // verus!
