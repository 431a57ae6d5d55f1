//! Usage scores: how much of a call graph reaches each function.
//!
//! The score of a function is the share of the other functions from which
//! a chain of calls leads to it. The graph and its reachability queries are
//! petgraph's.

use vstd::multiset::Multiset;
use vstd::prelude::*;
use petgraph::algo::has_path_connecting;
use petgraph::graph::{DiGraph, NodeIndex};
use crate::error::Error;
use crate::protocol::{
    calls_into, calls_into_spec, copy_item, flatten_symbols, function_items, function_items_of,
    function_symbols, function_symbols_of, symbols_of, CallHierarchyItem, Position, Symbol,
    SymbolResponse,
};

verus! {

/// petgraph's graph, opaque to proofs; what a call graph holds is named by
/// `graph_edges` and `graph_node_count` below.
#[verifier::external_type_specification]
#[verifier::external_body]
#[verifier::reject_recursive_types(N)]
#[verifier::reject_recursive_types(E)]
#[verifier::reject_recursive_types(Ty)]
#[verifier::reject_recursive_types(Ix)]
pub struct ExGraph<N, E, Ty, Ix>(petgraph::graph::Graph<N, E, Ty, Ix>);

/// petgraph's marker type for directed graphs.
#[verifier::external_type_specification]
#[verifier::external_body]
pub struct ExDirected(petgraph::Directed);

/// The edges of a call graph as (caller, callee) node numbers, each as often
/// as it was added.
pub uninterp spec fn graph_edges(g: DiGraph<(), ()>) -> Multiset<(nat, nat)>;

/// The number of nodes of a call graph; they are numbered from 0.
pub uninterp spec fn graph_node_count(g: DiGraph<(), ()>) -> nat;

/// A sequence of nodes, each joined to the next by an edge.
pub open spec fn is_path(edges: Multiset<(nat, nat)>, p: Seq<nat>) -> bool {
    &&& p.len() >= 1
    &&& forall|i: int| 0 <= i < p.len() - 1 ==> edges.count((p[i], #[trigger] p[i + 1])) > 0
}

/// Whether a path leads from `a` to `b`; every node reaches itself.
pub open spec fn reaches(edges: Multiset<(nat, nat)>, a: nat, b: nat) -> bool {
    exists|p: Seq<nat>| #[trigger] is_path(edges, p) && p[0] == a && p.last() == b
}

/// Relies on `Graph::new`: a directed graph without nodes or edges.
#[verifier::external_body]
fn graph_new() -> (g: DiGraph<(), ()>)
    ensures
        graph_node_count(g) == 0,
        graph_edges(g) == Multiset::<(nat, nat)>::empty(),
{
    DiGraph::new()
}

/// Relies on `Graph::add_node`: the new node's number is the former node
/// count. It panics when the number would reach the `u32` index limit.
#[verifier::external_body]
fn graph_add_node(g: &mut DiGraph<(), ()>) -> (i: usize)
    requires
        graph_node_count(*old(g)) < u32::MAX,
    ensures
        i == graph_node_count(*old(g)),
        graph_node_count(*final(g)) == graph_node_count(*old(g)) + 1,
        graph_edges(*final(g)) == graph_edges(*old(g)),
{
    g.add_node(()).index()
}

/// Relies on `Graph::add_edge`: one more edge from `a` to `b`, parallel
/// edges kept. It panics for a node that does not exist and when the edge
/// number would reach the `u32` index limit.
#[verifier::external_body]
fn graph_add_edge(g: &mut DiGraph<(), ()>, a: usize, b: usize)
    requires
        a < graph_node_count(*old(g)),
        b < graph_node_count(*old(g)),
        graph_edges(*old(g)).len() < u32::MAX,
    ensures
        graph_node_count(*final(g)) == graph_node_count(*old(g)),
        graph_edges(*final(g)) == graph_edges(*old(g)).insert((a as nat, b as nat)),
{
    g.add_edge(NodeIndex::new(a), NodeIndex::new(b), ());
}

/// Relies on `petgraph::algo::has_path_connecting`: whether a path leads
/// from `a` to `b`, true when they are equal. Its depth-first search
/// panics for a start node that does not exist.
#[verifier::external_body]
fn graph_has_path(g: &DiGraph<(), ()>, a: usize, b: usize) -> (r: bool)
    requires
        a < graph_node_count(*g),
        b < graph_node_count(*g),
    ensures
        r == reaches(graph_edges(*g), a as nat, b as nat),
{
    has_path_connecting(g, NodeIndex::new(a), NodeIndex::new(b), None)
}

/// Two items stand for the same symbol: same document, same position.
pub open spec fn same_symbol(a: CallHierarchyItem, b: CallHierarchyItem) -> bool {
    a.uri@ == b.uri@ && a.position == b.position
}

/// The first index at or after `i` of an item for the same symbol as `it`.
pub open spec fn index_from(items: Seq<CallHierarchyItem>, it: CallHierarchyItem, i: int) -> Option<nat>
    decreases items.len() - i,
{
    if i < 0 || i >= items.len() {
        None
    } else if same_symbol(items[i], it) {
        Some(i as nat)
    } else {
        index_from(items, it, i + 1)
    }
}

/// The node of the symbol `it` in a graph whose nodes are `items`.
pub open spec fn node_of(items: Seq<CallHierarchyItem>, it: CallHierarchyItem) -> Option<nat> {
    index_from(items, it, 0)
}

/// The call graph over `items`: an edge for each call whose caller and
/// callee are both among them.
pub open spec fn call_edges(
    items: Seq<CallHierarchyItem>,
    calls: Seq<(CallHierarchyItem, CallHierarchyItem)>,
) -> Multiset<(nat, nat)>
    decreases calls.len(),
{
    if calls.len() == 0 {
        Multiset::empty()
    } else {
        let before = call_edges(items, calls.drop_last());
        match (node_of(items, calls.last().0), node_of(items, calls.last().1)) {
            (Some(a), Some(b)) => before.insert((a, b)),
            _ => before,
        }
    }
}

/// How many of the nodes below `k` reach `target`.
pub open spec fn reaching(edges: Multiset<(nat, nat)>, target: nat, k: nat) -> nat
    decreases k,
{
    if k == 0 {
        0
    } else {
        reaching(edges, target, (k - 1) as nat) + if reaches(edges, (k - 1) as nat, target) {
            1nat
        } else {
            0nat
        }
    }
}

proof fn lemma_reaches_itself(edges: Multiset<(nat, nat)>, a: nat)
    ensures
        reaches(edges, a, a),
{
    assert(is_path(edges, seq![a]));
}

proof fn lemma_edges_bounded(items: Seq<CallHierarchyItem>, calls: Seq<(CallHierarchyItem, CallHierarchyItem)>)
    ensures
        call_edges(items, calls).len() <= calls.len(),
        forall|e: (nat, nat)| #[trigger] call_edges(items, calls).count(e) > 0 ==> e.0 < items.len() && e.1 < items.len(),
    decreases calls.len(),
{
    if calls.len() > 0 {
        lemma_edges_bounded(items, calls.drop_last());
        lemma_node_in_range(items, calls.last().0, 0);
        lemma_node_in_range(items, calls.last().1, 0);
    }
}

proof fn lemma_node_in_range(items: Seq<CallHierarchyItem>, it: CallHierarchyItem, i: int)
    ensures
        index_from(items, it, i) matches Some(k) ==> i <= k < items.len() && same_symbol(items[k as int], it),
    decreases items.len() - i,
{
    if !(i < 0 || i >= items.len()) && !same_symbol(items[i], it) {
        lemma_node_in_range(items, it, i + 1);
    }
}

/// The node of the symbol `it` among `items`.
fn find_node(items: &Vec<CallHierarchyItem>, it: &CallHierarchyItem) -> (r: Option<usize>)
    ensures
        r is None <==> node_of(items@, *it) is None,
        r matches Some(k) ==> node_of(items@, *it) == Some(k as nat),
{
    let mut i: usize = 0;
    while i < items.len()
        invariant
            i <= items@.len(),
            node_of(items@, *it) == index_from(items@, *it, i as int),
        decreases items@.len() - i,
    {
        let cand = &items[i];
        if cand.position == it.position && cand.uri == it.uri {
            return Some(i);
        }
        i = i + 1;
    }
    None
}

/// The usage score of one function: how many other functions reach it
/// through calls, out of all functions.
#[derive(Debug, Clone, Copy, PartialEq, Eq)]
pub struct Usage {
    pub callers: usize,
    pub total: usize,
}

impl Usage {
    /// The score as a percentage in hundredths, rounded half up:
    /// `callers / total * 100`, so 6667 for two callers out of three.
    pub fn percent_hundredths(&self) -> (r: u64)
        requires
            self.callers < self.total,
        ensures
            r as int == (self.callers * 20000 + self.total) / (2 * self.total as int),
            r <= 10000,
    {
        let c = self.callers as u128;
        let t = self.total as u128;
        assert(c * 20000 + t < 10001 * (2 * t)) by (nonlinear_arith)
            requires
                c < t,
        ;
        let x: u128 = c * 20000 + t;
        let d: u128 = 2 * t;
        let q = x / d;
        assert(q <= 10000) by (nonlinear_arith)
            requires
                x < 10001 * d,
                d > 0,
                q == x / d,
        ;
        q as u64
    }
}

/// The usage score of each of `items`, in their order: for a function X,
/// the number of other functions from which a chain of `calls` leads to X,
/// out of all of `items`. A call is an edge (caller, callee); calls whose
/// ends are not among `items` are left out. Items are the same symbol when
/// their document and position agree.
pub fn calc_fn_usage(items: &Vec<CallHierarchyItem>, calls: &Vec<(CallHierarchyItem, CallHierarchyItem)>) -> (r:
    Vec<Usage>)
    requires
        items@.len() < u32::MAX,
        calls@.len() < u32::MAX,
    ensures
        r@.len() == items@.len(),
        forall|i: int|
            0 <= i < r@.len() ==> {
                &&& #[trigger] r@[i].total == items@.len()
                &&& r@[i].callers + 1 == reaching(
                    call_edges(items@, calls@),
                    i as nat,
                    items@.len() as nat,
                )
            },
{
    let n = items.len();
    let mut g = graph_new();
    let mut i: usize = 0;
    while i < n
        invariant
            n == items@.len(),
            n < u32::MAX,
            i <= n,
            graph_node_count(g) == i,
            graph_edges(g) == Multiset::<(nat, nat)>::empty(),
        decreases n - i,
    {
        graph_add_node(&mut g);
        i = i + 1;
    }
    let mut k: usize = 0;
    while k < calls.len()
        invariant
            n == items@.len(),
            calls@.len() < u32::MAX,
            k <= calls@.len(),
            graph_node_count(g) == n,
            graph_edges(g) == call_edges(items@, calls@.take(k as int)),
        decreases calls@.len() - k,
    {
        proof {
            lemma_edges_bounded(items@, calls@.take(k as int));
        }
        assert(calls@.take(k + 1).drop_last() =~= calls@.take(k as int));
        let (from, to) = (&calls[k].0, &calls[k].1);
        match (find_node(items, from), find_node(items, to)) {
            (Some(a), Some(b)) => {
                proof {
                    lemma_node_in_range(items@, *from, 0);
                    lemma_node_in_range(items@, *to, 0);
                }
                graph_add_edge(&mut g, a, b);
            },
            _ => {},
        }
        k = k + 1;
    }
    assert(calls@.take(k as int) =~= calls@);
    let ghost edges = call_edges(items@, calls@);
    let mut r: Vec<Usage> = Vec::new();
    let mut x: usize = 0;
    while x < n
        invariant
            n == items@.len(),
            x <= n,
            graph_node_count(g) == n,
            graph_edges(g) == edges,
            r@.len() == x,
            forall|i: int|
                0 <= i < x ==> {
                    &&& #[trigger] r@[i].total == n
                    &&& r@[i].callers + 1 == reaching(edges, i as nat, n as nat)
                },
        decreases n - x,
    {
        let mut count: usize = 0;
        let mut y: usize = 0;
        while y < n
            invariant
                n == items@.len(),
                x < n,
                y <= n,
                graph_node_count(g) == n,
                graph_edges(g) == edges,
                count as nat == reaching(edges, x as nat, y as nat),
                count <= y,
                y > x ==> count >= 1,
            decreases n - y,
        {
            if graph_has_path(&g, y, x) {
                count = count + 1;
            }
            proof {
                if y == x {
                    lemma_reaches_itself(edges, x as nat);
                }
            }
            y = y + 1;
        }
        r.push(Usage { callers: count - 1, total: n });
        x = x + 1;
    }
    assert(edges == call_edges(items@, calls@));
    assert forall|i: int| 0 <= i < r@.len() implies #[trigger] r@[i].callers + 1 == reaching(
        call_edges(items@, calls@),
        i as nat,
        items@.len() as nat,
    ) by {
        assert(r@[i].total == n);
    }
    r
}

/// The request that a usage walk needs answered next.
#[derive(Debug, PartialEq, Eq)]
pub enum UsageStep {
    /// The symbols of this document.
    Symbols(String),
    /// The call hierarchy items of the function at this position.
    Prepare(String, Position),
    /// The incoming calls of this function.
    IncomingCalls(CallHierarchyItem),
    /// Nothing more: the call graph is complete.
    Finished,
}

/// Which answer a usage walk waits for.
#[derive(Debug, Clone, Copy, PartialEq, Eq, Structural)]
pub enum UsageStage {
    Symbols,
    Prepare,
    IncomingCalls,
}

pub open spec fn lex3_less(a: (nat, nat, nat), b: (nat, nat, nat)) -> bool {
    a.0 < b.0 || (a.0 == b.0 && (a.1 < b.1 || (a.1 == b.1 && a.2 < b.2)))
}

/// The gathering of a project's functions and of the calls between them,
/// one server answer at a time.
///
/// For each document, in order, it asks for the document's symbols; for
/// each function or method among them, for its call hierarchy items; and
/// for each item that is a function or method, for its incoming calls,
/// keeping the calls from callers under the root.
pub struct UsageWalk {
    root: String,
    files: Vec<String>,
    file: usize,
    symbols: Vec<Symbol>,
    next_symbol: usize,
    prepared: Vec<CallHierarchyItem>,
    next_item: usize,
    stage: UsageStage,
    items: Vec<CallHierarchyItem>,
    calls: Vec<(CallHierarchyItem, CallHierarchyItem)>,
}

impl UsageWalk {
    pub closed spec fn wf(&self) -> bool {
        &&& self.files@.len() <= usize::MAX
        &&& self.symbols@.len() <= usize::MAX
        &&& self.prepared@.len() <= usize::MAX
        &&& self.file <= self.files@.len()
        &&& self.stage != UsageStage::Symbols ==> self.file < self.files@.len()
            && self.next_symbol < self.symbols@.len()
        &&& self.stage == UsageStage::IncomingCalls ==> self.next_item < self.prepared@.len()
    }

    pub closed spec fn root(&self) -> Seq<char> {
        self.root@
    }

    /// The project's documents, in order.
    pub closed spec fn files(&self) -> Seq<String> {
        self.files@
    }

    pub closed spec fn file_index(&self) -> int {
        self.file as int
    }

    pub closed spec fn stage(&self) -> UsageStage {
        self.stage
    }

    /// The functions of the current document still to be handled.
    pub closed spec fn pending_symbols(&self) -> Seq<Symbol> {
        self.symbols@.skip(self.next_symbol as int)
    }

    /// The items of the current function still to be handled.
    pub closed spec fn pending_items(&self) -> Seq<CallHierarchyItem> {
        self.prepared@.skip(self.next_item as int)
    }

    /// The functions gathered so far.
    pub closed spec fn items(&self) -> Seq<CallHierarchyItem> {
        self.items@
    }

    /// The calls gathered so far, as (caller, callee).
    pub closed spec fn calls(&self) -> Seq<(CallHierarchyItem, CallHierarchyItem)> {
        self.calls@
    }

    pub closed spec fn progress(&self) -> (nat, nat, nat) {
        (
            (2 * (self.files@.len() - self.file) + if self.stage == UsageStage::Symbols {
                1int
            } else {
                0int
            }) as nat,
            if self.stage == UsageStage::Symbols {
                0nat
            } else {
                (2 * (self.symbols@.len() - self.next_symbol) - if self.stage
                    == UsageStage::IncomingCalls {
                    1int
                } else {
                    0int
                }) as nat
            },
            if self.stage == UsageStage::IncomingCalls {
                (self.prepared@.len() - self.next_item) as nat
            } else {
                0nat
            },
        )
    }

    pub open spec fn is_finished(&self) -> bool {
        self.file_index() >= self.files().len()
    }

    pub open spec fn awaits_symbols(&self) -> bool {
        !self.is_finished() && self.stage() == UsageStage::Symbols
    }

    pub open spec fn awaits_prepare(&self) -> bool {
        self.stage() == UsageStage::Prepare
    }

    pub open spec fn awaits_incoming_calls(&self) -> bool {
        self.stage() == UsageStage::IncomingCalls
    }

    /// The function whose items are asked for.
    pub open spec fn symbol(&self) -> Symbol {
        self.pending_symbols()[0]
    }

    /// The item whose incoming calls are asked for.
    pub open spec fn item(&self) -> CallHierarchyItem {
        self.pending_items()[0]
    }

    pub open spec fn moved_to_next_document(&self, old: UsageWalk) -> bool {
        &&& self.file_index() == old.file_index() + 1
        &&& self.stage() == UsageStage::Symbols
    }

    pub open spec fn moved_to_next_symbol(&self, old: UsageWalk) -> bool {
        if old.pending_symbols().len() > 1 {
            &&& self.awaits_prepare()
            &&& self.file_index() == old.file_index()
            &&& self.pending_symbols() == old.pending_symbols().drop_first()
        } else {
            self.moved_to_next_document(old)
        }
    }

    pub open spec fn moved_to_next_item(&self, old: UsageWalk) -> bool {
        if old.pending_items().len() > 1 {
            &&& self.awaits_incoming_calls()
            &&& self.file_index() == old.file_index()
            &&& self.pending_symbols() == old.pending_symbols()
            &&& self.pending_items() == old.pending_items().drop_first()
        } else {
            self.moved_to_next_symbol(old)
        }
    }

    /// The gathered functions and calls are as in `old`.
    pub open spec fn gathered_same(&self, old: UsageWalk) -> bool {
        self.items() == old.items() && self.calls() == old.calls() && self.root() == old.root()
            && self.files() == old.files()
    }

    fn next_document(&mut self)
        requires
            old(self).files@.len() <= usize::MAX,
            old(self).symbols@.len() <= usize::MAX,
            old(self).prepared@.len() <= usize::MAX,
            old(self).file < old(self).files@.len(),
        ensures
            final(self).wf(),
            final(self).gathered_same(*old(self)),
            final(self).moved_to_next_document(*old(self)),
            final(self).progress().0 + 1 <= 2 * (old(self).files@.len() - old(self).file),
    {
        self.file = self.file + 1;
        self.stage = UsageStage::Symbols;
    }

    fn next_symbol(&mut self)
        requires
            old(self).wf(),
            old(self).stage != UsageStage::Symbols,
        ensures
            final(self).wf(),
            final(self).gathered_same(*old(self)),
            final(self).moved_to_next_symbol(*old(self)),
            lex3_less(final(self).progress(), old(self).progress()),
    {
        self.next_symbol = self.next_symbol + 1;
        if self.next_symbol < self.symbols.len() {
            self.stage = UsageStage::Prepare;
            assert(self.symbols@.skip(self.next_symbol as int) =~= old(self).symbols@.skip(
                old(self).next_symbol as int,
            ).drop_first());
        } else {
            self.next_document();
        }
    }

    fn next_item(&mut self)
        requires
            old(self).wf(),
            old(self).stage == UsageStage::IncomingCalls,
        ensures
            final(self).wf(),
            final(self).gathered_same(*old(self)),
            final(self).moved_to_next_item(*old(self)),
            lex3_less(final(self).progress(), old(self).progress()),
    {
        self.next_item = self.next_item + 1;
        if self.next_item < self.prepared.len() {
            assert(self.prepared@.skip(self.next_item as int) =~= old(self).prepared@.skip(
                old(self).next_item as int,
            ).drop_first());
        } else {
            self.next_symbol = self.next_symbol + 1;
            if self.next_symbol < self.symbols.len() {
                self.stage = UsageStage::Prepare;
                assert(self.symbols@.skip(self.next_symbol as int) =~= old(self).symbols@.skip(
                    old(self).next_symbol as int,
                ).drop_first());
            } else {
                self.next_document();
            }
        }
    }

    /// A walk over the documents `files` of the project under `root`.
    pub fn new(root: String, files: Vec<String>) -> (r: UsageWalk)
        ensures
            r.wf(),
            r.root() == root@,
            r.files() == files@,
            r.file_index() == 0,
            r.stage() == UsageStage::Symbols,
            r.items() == Seq::<CallHierarchyItem>::empty(),
            r.calls() == Seq::<(CallHierarchyItem, CallHierarchyItem)>::empty(),
    {
        // The length of a vector always fits a usize; asking makes it known.
        let _count = files.len();
        UsageWalk {
            root,
            files,
            file: 0,
            symbols: Vec::new(),
            next_symbol: 0,
            prepared: Vec::new(),
            next_item: 0,
            stage: UsageStage::Symbols,
            items: Vec::new(),
            calls: Vec::new(),
        }
    }

    /// The request to make next.
    pub fn step(&self) -> (r: UsageStep)
        requires
            self.wf(),
        ensures
            r is Finished <==> self.is_finished(),
            match r {
                UsageStep::Finished => true,
                UsageStep::Symbols(u) => self.awaits_symbols() && u == self.files()[self.file_index()],
                UsageStep::Prepare(u, p) => {
                    &&& self.awaits_prepare()
                    &&& self.pending_symbols().len() > 0
                    &&& u == self.files()[self.file_index()]
                    &&& p == self.symbol().position
                },
                UsageStep::IncomingCalls(it) => {
                    &&& self.awaits_incoming_calls()
                    &&& self.pending_items().len() > 0
                    &&& it == self.item()
                },
            },
    {
        if self.file >= self.files.len() {
            return UsageStep::Finished;
        }
        match self.stage {
            UsageStage::Symbols => UsageStep::Symbols(self.files[self.file].clone()),
            UsageStage::Prepare => UsageStep::Prepare(
                self.files[self.file].clone(),
                self.symbols[self.next_symbol].position,
            ),
            UsageStage::IncomingCalls => UsageStep::IncomingCalls(copy_item(&self.prepared[self.next_item])),
        }
    }

    /// Takes the answer to a symbols request: its functions and methods
    /// wait for their call hierarchy items, in order. A protocol error
    /// passes the document over and is returned.
    pub fn on_symbols(&mut self, response: Option<SymbolResponse>) -> (r: Result<(), Error>)
        requires
            old(self).wf(),
            old(self).awaits_symbols(),
        ensures
            final(self).wf(),
            final(self).gathered_same(*old(self)),
            lex3_less(final(self).progress(), old(self).progress()),
            match symbols_of(response) {
                Ok(s) => r is Ok && if function_symbols_of(s).len() > 0 {
                    &&& final(self).awaits_prepare()
                    &&& final(self).file_index() == old(self).file_index()
                    &&& final(self).pending_symbols() == function_symbols_of(s)
                } else {
                    final(self).moved_to_next_document(*old(self))
                },
                Err(e) => r == Err::<(), Error>(e) && final(self).moved_to_next_document(*old(self)),
            },
    {
        match flatten_symbols(response) {
            Ok(all) => {
                let functions = function_symbols(&all);
                if functions.len() > 0 {
                    self.symbols = functions;
                    self.next_symbol = 0;
                    self.stage = UsageStage::Prepare;
                    assert(self.symbols@.skip(0) =~= self.symbols@);
                } else {
                    self.next_document();
                }
                Ok(())
            },
            Err(e) => {
                self.next_document();
                Err(e)
            },
        }
    }

    /// Takes the answer to a call hierarchy request: its functions and
    /// methods wait for their incoming calls, in order.
    pub fn on_prepare(&mut self, response: Option<Vec<CallHierarchyItem>>)
        requires
            old(self).wf(),
            old(self).awaits_prepare(),
        ensures
            final(self).wf(),
            final(self).gathered_same(*old(self)),
            lex3_less(final(self).progress(), old(self).progress()),
            ({
                let found = match response {
                    None => Seq::<CallHierarchyItem>::empty(),
                    Some(v) => function_items_of(v@),
                };
                if found.len() > 0 {
                    &&& final(self).awaits_incoming_calls()
                    &&& final(self).file_index() == old(self).file_index()
                    &&& final(self).pending_symbols() == old(self).pending_symbols()
                    &&& final(self).pending_items() == found
                } else {
                    final(self).moved_to_next_symbol(*old(self))
                }
            }),
    {
        let found = function_items(response);
        if found.len() > 0 {
            self.prepared = found;
            self.next_item = 0;
            self.stage = UsageStage::IncomingCalls;
            assert(self.prepared@.skip(0) =~= self.prepared@);
        } else {
            self.next_symbol();
        }
    }

    /// Takes the answer to an incoming calls request: the item joins the
    /// functions, and the calls into it from callers under the root join
    /// the calls.
    pub fn on_incoming_calls(&mut self, callers: Option<Vec<CallHierarchyItem>>)
        requires
            old(self).wf(),
            old(self).awaits_incoming_calls(),
        ensures
            final(self).wf(),
            final(self).root() == old(self).root(),
            final(self).files() == old(self).files(),
            final(self).items() == old(self).items().push(old(self).item()),
            final(self).calls() == old(self).calls() + match callers {
                None => Seq::<(CallHierarchyItem, CallHierarchyItem)>::empty(),
                Some(v) => calls_into_spec(old(self).item(), v@, old(self).root()),
            },
            lex3_less(final(self).progress(), old(self).progress()),
            final(self).moved_to_next_item(*old(self)),
    {
        let item = copy_item(&self.prepared[self.next_item]);
        let mut found = calls_into(&item, callers, self.root.as_str());
        self.calls.append(&mut found);
        self.items.push(item);
        self.next_item();
    }

    /// Passes over the current document, function or item after its
    /// request failed. An item whose incoming calls failed still counts as
    /// a function, without calls.
    pub fn skip(&mut self)
        requires
            old(self).wf(),
            !old(self).is_finished(),
        ensures
            final(self).wf(),
            final(self).root() == old(self).root(),
            final(self).files() == old(self).files(),
            final(self).calls() == old(self).calls(),
            lex3_less(final(self).progress(), old(self).progress()),
            match old(self).stage() {
                UsageStage::Symbols => final(self).items() == old(self).items()
                    && final(self).moved_to_next_document(*old(self)),
                UsageStage::Prepare => final(self).items() == old(self).items()
                    && final(self).moved_to_next_symbol(*old(self)),
                UsageStage::IncomingCalls => final(self).items() == old(self).items().push(
                    old(self).item(),
                ) && final(self).moved_to_next_item(*old(self)),
            },
    {
        match self.stage {
            UsageStage::Symbols => self.next_document(),
            UsageStage::Prepare => self.next_symbol(),
            UsageStage::IncomingCalls => {
                let item = copy_item(&self.prepared[self.next_item]);
                self.items.push(item);
                self.next_item();
            },
        }
    }

    /// The usage score of each gathered function, in the order gathered;
    /// `None` when there are too many functions or calls for one graph.
    pub fn scores(&self) -> (r: Option<Vec<Usage>>)
        ensures
            r is Some <==> (self.items().len() < u32::MAX && self.calls().len() < u32::MAX),
            r matches Some(v) ==> {
                &&& v@.len() == self.items().len()
                &&& forall|i: int|
                    0 <= i < v@.len() ==> {
                        &&& #[trigger] v@[i].total == self.items().len()
                        &&& v@[i].callers + 1 == reaching(
                            call_edges(self.items(), self.calls()),
                            i as nat,
                            self.items().len() as nat,
                        )
                    }
            },
    {
        if self.items.len() >= 0xffff_ffff || self.calls.len() >= 0xffff_ffff {
            return None;
        }
        Some(calc_fn_usage(&self.items, &self.calls))
    }

    /// The functions gathered so far.
    pub fn functions(&self) -> (r: &Vec<CallHierarchyItem>)
        ensures
            r@ == self.items(),
    {
        &self.items
    }
}

} // verus!
