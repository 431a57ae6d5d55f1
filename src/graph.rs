//! The file-level reference graph of a project.
//!
//! Nodes are the project's documents, named relative to the project root.
//! An edge (A, B) says that A uses a symbol defined in B. Edges form a set:
//! a pair found through several symbols is one edge, and no document has
//! an edge to itself.

use vstd::prelude::*;
use crate::error::Error;
use crate::protocol::{
    copy_symbol, definition_documents, definition_uris, flatten_symbols, reference_uris,
    symbols_of, uris_of, DefinitionResponse, Location, Position, Symbol, SymbolResponse,
    SYMBOL_KIND_CLASS, SYMBOL_KIND_FUNCTION, SYMBOL_KIND_METHOD, SYMBOL_KIND_STRUCT,
};
use crate::uri::{is_under_root, relative, relative_to, under_root};

verus! {

pub open spec fn view_of_edge(e: (String, String)) -> (Seq<char>, Seq<char>) {
    (e.0@, e.1@)
}

/// Whether symbols of this kind take part in the graph: functions,
/// structs, classes and methods.
pub open spec fn in_symbol_mask(kind: u32) -> bool {
    kind == SYMBOL_KIND_FUNCTION || kind == SYMBOL_KIND_STRUCT || kind == SYMBOL_KIND_CLASS
        || kind == SYMBOL_KIND_METHOD
}

/// Whether a reference from document `r` to a symbol defined in `defining`
/// makes an edge: `r` is another document of the project, and both lie under the
/// root.
pub open spec fn makes_edge(root: Seq<char>, docs: Set<Seq<char>>, defining: Seq<char>, r: Seq<char>) -> bool {
    r != defining && docs.contains(r) && under_root(r, root) && under_root(defining, root)
}

/// The edges that the references `refs` to a symbol defined in `defining`
/// make.
pub open spec fn reference_edges(
    root: Seq<char>,
    docs: Set<Seq<char>>,
    defining: Seq<char>,
    refs: Seq<Seq<char>>,
) -> Set<(Seq<char>, Seq<char>)>
    decreases refs.len(),
{
    if refs.len() == 0 {
        Set::empty()
    } else {
        let before = reference_edges(root, docs, defining, refs.drop_last());
        if makes_edge(root, docs, defining, refs.last()) {
            before.insert((relative(refs.last(), root), relative(defining, root)))
        } else {
            before
        }
    }
}

/// The edge set after the references `refs` to a symbol of `defining`.
pub open spec fn after_references(
    edges: Set<(Seq<char>, Seq<char>)>,
    root: Seq<char>,
    docs: Set<Seq<char>>,
    defining: Seq<char>,
    refs: Seq<Seq<char>>,
) -> Set<(Seq<char>, Seq<char>)> {
    edges.union(reference_edges(root, docs, defining, refs))
}

/// The edge set after the references to each symbol of `defining` that
/// takes part, one batch per symbol.
pub open spec fn after_document(
    edges: Set<(Seq<char>, Seq<char>)>,
    root: Seq<char>,
    docs: Set<Seq<char>>,
    defining: Seq<char>,
    batches: Seq<Seq<Seq<char>>>,
) -> Set<(Seq<char>, Seq<char>)>
    decreases batches.len(),
{
    if batches.len() == 0 {
        edges
    } else {
        after_references(
            after_document(edges, root, docs, defining, batches.drop_last()),
            root,
            docs,
            defining,
            batches.last(),
        )
    }
}

/// The names of the documents in `files` that lie under `root`.
pub open spec fn node_names(root: Seq<char>, files: Seq<Seq<char>>) -> Set<Seq<char>>
    decreases files.len(),
{
    if files.len() == 0 {
        Set::empty()
    } else {
        let before = node_names(root, files.drop_last());
        if under_root(files.last(), root) {
            before.insert(relative(files.last(), root))
        } else {
            before
        }
    }
}

/// Whether a symbol of this kind takes part in the graph.
pub fn keeps_symbol(kind: u32) -> (r: bool)
    ensures
        r == in_symbol_mask(kind),
{
    kind == SYMBOL_KIND_FUNCTION || kind == SYMBOL_KIND_STRUCT || kind == SYMBOL_KIND_CLASS || kind
        == SYMBOL_KIND_METHOD
}

/// Whether `s` is among `list`.
fn contains_string(list: &Vec<String>, s: &String) -> (r: bool)
    ensures
        r == list@.map_values(|f: String| f@).contains(s@),
{
    let ghost views = list@.map_values(|f: String| f@);
    let mut i: usize = 0;
    while i < list.len()
        invariant
            i <= list@.len(),
            views == list@.map_values(|f: String| f@),
            forall|k: int| 0 <= k < i ==> views[k] != s@,
        decreases list@.len() - i,
    {
        if list[i] == *s {
            assert(views[i as int] == s@);
            return true;
        }
        i = i + 1;
    }
    false
}

/// The references to the symbols of a project's documents, gathered into
/// a set of edges between documents.
pub struct ReferenceGraph {
    root: String,
    files: Vec<String>,
    edges: Vec<(String, String)>,
}

impl ReferenceGraph {
    /// The project root; documents under it have nodes.
    pub closed spec fn root(&self) -> Seq<char> {
        self.root@
    }

    /// The documents of the project, in the order given.
    pub closed spec fn files(&self) -> Seq<Seq<char>> {
        self.files@.map_values(|f: String| f@)
    }

    /// The documents of the project.
    pub open spec fn documents(&self) -> Set<Seq<char>> {
        self.files().to_set()
    }

    pub closed spec fn edge_seq(&self) -> Seq<(Seq<char>, Seq<char>)> {
        self.edges@.map_values(|e: (String, String)| view_of_edge(e))
    }

    /// The edges found so far, as (referencing node, defining node).
    pub open spec fn edge_set(&self) -> Set<(Seq<char>, Seq<char>)> {
        self.edge_seq().to_set()
    }

    /// No edge is held twice.
    pub open spec fn wf(&self) -> bool {
        self.edge_seq().no_duplicates()
    }

    /// A graph of the documents `files` under `root`, without edges yet.
    pub fn new(root: String, files: Vec<String>) -> (r: ReferenceGraph)
        ensures
            r.wf(),
            r.root() == root@,
            r.files() == files@.map_values(|f: String| f@),
            r.edge_set() == Set::<(Seq<char>, Seq<char>)>::empty(),
    {
        let r = ReferenceGraph { root, files, edges: Vec::new() };
        assert(r.edge_seq() =~= Seq::<(Seq<char>, Seq<char>)>::empty());
        assert(r.edge_set() =~= Set::<(Seq<char>, Seq<char>)>::empty());
        r
    }

    /// Whether `uri` is one of the project's documents.
    pub fn in_project(&self, uri: &String) -> (r: bool)
        ensures
            r == self.documents().contains(uri@),
    {
        contains_string(&self.files, uri)
    }

    /// Whether a symbol with these definitions belongs to the project: some
    /// definition lies in one of its documents. Symbols defined only
    /// elsewhere, in libraries, are left out of the graph.
    pub fn defined_in_project(&self, definitions: &Vec<String>) -> (r: bool)
        ensures
            r == exists|k: int| 0 <= k < definitions@.len() && self.documents().contains(
                #[trigger] definitions@[k]@,
            ),
    {
        let mut i: usize = 0;
        while i < definitions.len()
            invariant
                i <= definitions@.len(),
                forall|k: int| 0 <= k < i ==> !self.documents().contains(#[trigger] definitions@[k]@),
            decreases definitions@.len() - i,
        {
            if self.in_project(&definitions[i]) {
                return true;
            }
            i = i + 1;
        }
        false
    }

    /// Adds the edge `e` unless it is there already.
    fn insert_edge(&mut self, e: (String, String))
        requires
            old(self).wf(),
        ensures
            final(self).wf(),
            final(self).root() == old(self).root(),
            final(self).files() == old(self).files(),
            final(self).edge_set() == old(self).edge_set().insert(view_of_edge(e)),
    {
        let ghost before = self.edge_seq();
        let mut i: usize = 0;
        while i < self.edges.len()
            invariant
                i <= self.edges@.len(),
                before == self.edge_seq(),
                before.no_duplicates(),
                self.root() == old(self).root(),
                self.files() == old(self).files(),
                forall|k: int| 0 <= k < i ==> before[k] != view_of_edge(e),
            decreases self.edges@.len() - i,
        {
            if self.edges[i].0 == e.0 && self.edges[i].1 == e.1 {
                assert(before[i as int] == view_of_edge(e));
                assert(self.edge_set() =~= self.edge_set().insert(view_of_edge(e)));
                return;
            }
            i = i + 1;
        }
        self.edges.push(e);
        assert(self.edge_seq() =~= before.push(view_of_edge(e)));
        proof {
            before.lemma_push_to_set_commute(view_of_edge(e));
        }
    }

    /// Records the references `refs` to a symbol defined in `defining`:
    /// each one from another document of the project under the root adds the edge
    /// (its node, the node of `defining`).
    pub fn add_references(&mut self, defining: &String, refs: &Vec<String>)
        requires
            old(self).wf(),
        ensures
            final(self).wf(),
            final(self).root() == old(self).root(),
            final(self).files() == old(self).files(),
            final(self).edge_set() == after_references(
                old(self).edge_set(),
                old(self).root(),
                old(self).documents(),
                defining@,
                refs@.map_values(|r: String| r@),
            ),
    {
        let ghost views = refs@.map_values(|r: String| r@);
        let ghost start = self.edge_set();
        let mut i: usize = 0;
        while i < refs.len()
            invariant
                self.wf(),
                i <= refs@.len(),
                views == refs@.map_values(|r: String| r@),
                self.root() == old(self).root(),
                self.files() == old(self).files(),
                self.edge_set() == start.union(
                    reference_edges(self.root(), self.documents(), defining@, views.take(i as int)),
                ),
            decreases refs@.len() - i,
        {
            assert(views.take(i + 1).drop_last() =~= views.take(i as int));
            let r = &refs[i];
            if *r != *defining && self.in_project(r) {
                match (relative_to(r.as_str(), self.root.as_str()), relative_to(defining.as_str(), self.root.as_str())) {
                    (Some(from), Some(to)) => {
                        self.insert_edge((from, to));
                    },
                    _ => {},
                }
            }
            i = i + 1;
            assert(self.edge_set() =~= start.union(
                reference_edges(self.root(), self.documents(), defining@, views.take(i as int)),
            ));
        }
        assert(views.take(i as int) =~= views);
    }

    /// How many edges there are.
    pub fn edge_count(&self) -> (r: usize)
        requires
            self.wf(),
        ensures
            r == self.edge_set().len(),
    {
        proof {
            self.edge_seq().unique_seq_to_set();
        }
        self.edges.len()
    }

    /// The edges, each once, as (referencing node, defining node).
    pub fn edge_list(&self) -> (r: Vec<(String, String)>)
        requires
            self.wf(),
        ensures
            r@.map_values(|e: (String, String)| view_of_edge(e)).no_duplicates(),
            r@.map_values(|e: (String, String)| view_of_edge(e)).to_set() == self.edge_set(),
    {
        let mut r: Vec<(String, String)> = Vec::new();
        let mut i: usize = 0;
        while i < self.edges.len()
            invariant
                i <= self.edges@.len(),
                r@.map_values(|e: (String, String)| view_of_edge(e)) == self.edge_seq().take(i as int),
            decreases self.edges@.len() - i,
        {
            let from = self.edges[i].0.clone();
            let to = self.edges[i].1.clone();
            let ghost prev = r@.map_values(|e: (String, String)| view_of_edge(e));
            assert(view_of_edge((from, to)) == self.edge_seq()[i as int]);
            r.push((from, to));
            assert(r@.map_values(|e: (String, String)| view_of_edge(e)) =~= prev.push(view_of_edge((from, to))));
            assert(self.edge_seq().take(i + 1) =~= self.edge_seq().take(i as int).push(self.edge_seq()[i as int]));
            i = i + 1;
        }
        assert(self.edge_seq().take(i as int) =~= self.edge_seq());
        r
    }

    /// The nodes: the names, relative to the root, of the documents under
    /// it, each once.
    pub fn nodes(&self) -> (r: Vec<String>)
        ensures
            r@.map_values(|s: String| s@).no_duplicates(),
            r@.map_values(|s: String| s@).to_set() == node_names(self.root(), self.files()),
    {
        let mut r: Vec<String> = Vec::new();
        let mut i: usize = 0;
        while i < self.files.len()
            invariant
                i <= self.files@.len(),
                r@.map_values(|s: String| s@).no_duplicates(),
                r@.map_values(|s: String| s@).to_set() == node_names(self.root(), self.files().take(i as int)),
            decreases self.files@.len() - i,
        {
            assert(self.files().take(i + 1).drop_last() =~= self.files().take(i as int));
            let ghost names = r@.map_values(|s: String| s@);
            match relative_to(self.files[i].as_str(), self.root.as_str()) {
                Some(name) => {
                    if !contains_string(&r, &name) {
                        r.push(name);
                        assert(r@.map_values(|s: String| s@) =~= names.push(name@));
                        proof {
                            names.lemma_push_to_set_commute(name@);
                        }
                    } else {
                        assert(names.to_set().insert(name@) =~= names.to_set());
                    }
                },
                None => {},
            }
            i = i + 1;
        }
        assert(self.files().take(i as int) =~= self.files());
        r
    }
}

/// The edge that a reference from `r` to a symbol of `defining` makes.
pub open spec fn edge_of(root: Seq<char>, defining: Seq<char>, r: Seq<char>) -> (Seq<char>, Seq<char>) {
    (relative(r, root), relative(defining, root))
}

proof fn lemma_reference_edges_members(
    root: Seq<char>,
    docs: Set<Seq<char>>,
    defining: Seq<char>,
    refs: Seq<Seq<char>>,
    e: (Seq<char>, Seq<char>),
)
    ensures
        reference_edges(root, docs, defining, refs).contains(e) <==> exists|k: int|
            0 <= k < refs.len() && makes_edge(root, docs, defining, #[trigger] refs[k]) && e == edge_of(
                root,
                defining,
                refs[k],
            ),
    decreases refs.len(),
{
    if refs.len() > 0 {
        let init = refs.drop_last();
        lemma_reference_edges_members(root, docs, defining, init, e);
        if reference_edges(root, docs, defining, init).contains(e) {
            let k = choose|k: int|
                0 <= k < init.len() && makes_edge(root, docs, defining, #[trigger] init[k]) && e
                    == edge_of(root, defining, init[k]);
            assert(refs[k] == init[k]);
        }
        if exists|k: int|
            0 <= k < refs.len() && makes_edge(root, docs, defining, #[trigger] refs[k]) && e
                == edge_of(root, defining, refs[k]) {
            let k = choose|k: int|
                0 <= k < refs.len() && makes_edge(root, docs, defining, #[trigger] refs[k]) && e
                    == edge_of(root, defining, refs[k]);
            if k < refs.len() - 1 {
                assert(init[k] == refs[k]);
            }
        }
    }
}

proof fn lemma_after_document_union(
    edges: Set<(Seq<char>, Seq<char>)>,
    root: Seq<char>,
    docs: Set<Seq<char>>,
    defining: Seq<char>,
    batches: Seq<Seq<Seq<char>>>,
)
    ensures
        after_document(edges, root, docs, defining, batches) == edges.union(
            after_document(Set::empty(), root, docs, defining, batches),
        ),
    decreases batches.len(),
{
    if batches.len() > 0 {
        lemma_after_document_union(edges, root, docs, defining, batches.drop_last());
        assert(after_document(edges, root, docs, defining, batches) =~= edges.union(
            after_document(Set::empty(), root, docs, defining, batches),
        ));
    } else {
        assert(edges.union(Set::<(Seq<char>, Seq<char>)>::empty()) =~= edges);
    }
}

/// Handling one document a second time, with the same answers for its
/// symbols, adds no edge: the edges after taking its batches of references
/// twice are the edges after taking them once. A document opened twice
/// with the same text therefore changes nothing.
pub proof fn lemma_document_twice_adds_nothing(
    edges: Set<(Seq<char>, Seq<char>)>,
    root: Seq<char>,
    docs: Set<Seq<char>>,
    defining: Seq<char>,
    batches: Seq<Seq<Seq<char>>>,
)
    ensures
        after_document(
            after_document(edges, root, docs, defining, batches),
            root,
            docs,
            defining,
            batches,
        ) == after_document(edges, root, docs, defining, batches),
{
    let once = after_document(edges, root, docs, defining, batches);
    lemma_after_document_union(edges, root, docs, defining, batches);
    lemma_after_document_union(once, root, docs, defining, batches);
    assert(once.union(after_document(Set::empty(), root, docs, defining, batches)) =~= once);
}

/// A (reference, definition) pair found again through another symbol is
/// the same edge: when every reference of the second symbol was a
/// reference of the first, the second adds nothing, and the pair is in
/// the set.
pub proof fn lemma_pair_found_twice_is_one_edge(
    edges: Set<(Seq<char>, Seq<char>)>,
    root: Seq<char>,
    docs: Set<Seq<char>>,
    defining: Seq<char>,
    first: Seq<Seq<char>>,
    second: Seq<Seq<char>>,
)
    requires
        forall|k: int| 0 <= k < second.len() ==> first.contains(#[trigger] second[k]),
    ensures
        after_references(
            after_references(edges, root, docs, defining, first),
            root,
            docs,
            defining,
            second,
        ) == after_references(edges, root, docs, defining, first),
        forall|k: int|
            0 <= k < second.len() && makes_edge(root, docs, defining, #[trigger] second[k])
                ==> after_references(edges, root, docs, defining, first).contains(
                edge_of(root, defining, second[k]),
            ),
{
    let once = after_references(edges, root, docs, defining, first);
    assert forall|e: (Seq<char>, Seq<char>)| #[trigger] reference_edges(root, docs, defining, second).contains(e)
        implies reference_edges(root, docs, defining, first).contains(e) by {
        lemma_reference_edges_members(root, docs, defining, second, e);
        lemma_reference_edges_members(root, docs, defining, first, e);
        let k = choose|k: int|
            0 <= k < second.len() && makes_edge(root, docs, defining, #[trigger] second[k]) && e
                == edge_of(root, defining, second[k]);
        assert(first.contains(second[k]));
        let j = choose|j: int| 0 <= j < first.len() && first[j] == second[k];
        assert(makes_edge(root, docs, defining, first[j]));
    }
    assert(once.union(reference_edges(root, docs, defining, second)) =~= once);
    assert forall|k: int| 0 <= k < second.len() && makes_edge(root, docs, defining, #[trigger] second[k])
        implies once.contains(edge_of(root, defining, second[k])) by {
        lemma_reference_edges_members(root, docs, defining, second, edge_of(root, defining, second[k]));
    }
}

/// The symbols of `symbols` that take part in the graph, in order.
pub open spec fn masked_symbols_of(symbols: Seq<Symbol>) -> Seq<Symbol>
    decreases symbols.len(),
{
    if symbols.len() == 0 {
        seq![]
    } else {
        let before = masked_symbols_of(symbols.drop_last());
        if in_symbol_mask(symbols.last().kind) {
            before.push(symbols.last())
        } else {
            before
        }
    }
}

/// The symbols of `symbols` that take part in the graph.
pub fn masked_symbols(symbols: &Vec<Symbol>) -> (r: Vec<Symbol>)
    ensures
        r@ == masked_symbols_of(symbols@),
{
    let mut r: Vec<Symbol> = Vec::new();
    let mut i: usize = 0;
    while i < symbols.len()
        invariant
            i <= symbols@.len(),
            r@ == masked_symbols_of(symbols@.take(i as int)),
        decreases symbols@.len() - i,
    {
        assert(symbols@.take(i + 1).drop_last() =~= symbols@.take(i as int));
        if keeps_symbol(symbols[i].kind) {
            r.push(copy_symbol(&symbols[i]));
        }
        i = i + 1;
    }
    assert(symbols@.take(i as int) =~= symbols@);
    r
}

/// The request that a walk over a project needs answered next.
#[derive(Debug, PartialEq, Eq)]
pub enum GraphStep {
    /// The symbols of this document.
    Symbols(String),
    /// The definitions of the symbol at this position of this document.
    Definition(String, Position),
    /// The references to the symbol at this position of this document.
    References(String, Position),
    /// Nothing more: the graph is complete.
    Finished,
}

/// Which answer a walk waits for.
#[derive(Debug, Clone, Copy, PartialEq, Eq, Structural)]
pub enum WalkStage {
    Symbols,
    Definition,
    References,
}

pub open spec fn lex_less(a: (nat, nat), b: (nat, nat)) -> bool {
    a.0 < b.0 || (a.0 == b.0 && a.1 < b.1)
}

/// The index of the first document at or after `i` that lies under
/// `root`, or the number of documents when none does.
pub open spec fn first_under_root(files: Seq<Seq<char>>, root: Seq<char>, i: int) -> int
    decreases files.len() - i,
{
    if i >= files.len() {
        files.len() as int
    } else if i >= 0 && under_root(files[i], root) {
        i
    } else {
        first_under_root(files, root, i + 1)
    }
}

/// The building of a reference graph, one server answer at a time.
///
/// For each document under the root, in order, it asks for the document's
/// symbols; for each symbol of a kind that takes part, in order, it asks
/// for its definitions, and, when one lies in a document of the project,
/// for its references, which it records as edges. Documents outside the
/// root are passed over.
pub struct GraphWalk {
    graph: ReferenceGraph,
    file: usize,
    queue: Vec<Symbol>,
    next: usize,
    stage: WalkStage,
}

impl GraphWalk {
    pub closed spec fn wf(&self) -> bool {
        &&& self.graph.wf()
        &&& self.graph.files().len() <= usize::MAX
        &&& self.queue@.len() <= usize::MAX
        &&& self.file <= self.graph.files().len()
        &&& self.next <= self.queue@.len()
        &&& self.stage != WalkStage::Symbols ==> self.next < self.queue@.len() && self.file
            < self.graph.files().len()
        &&& self.stage == WalkStage::Symbols && self.file < self.graph.files().len() ==> under_root(
            self.graph.files()[self.file as int],
            self.graph.root(),
        )
    }

    /// The graph built so far.
    pub closed spec fn graph_view(&self) -> ReferenceGraph {
        self.graph
    }

    /// The index, among the project's documents, of the current one.
    pub closed spec fn file_index(&self) -> int {
        self.file as int
    }

    pub closed spec fn stage(&self) -> WalkStage {
        self.stage
    }

    /// The symbols of the current document still to be handled, the
    /// current one first.
    pub closed spec fn pending_symbols(&self) -> Seq<Symbol> {
        self.queue@.skip(self.next as int)
    }

    /// How far the walk is from its end: documents left, counted twice and
    /// once more while their symbols are not known, then steps left in the
    /// current document. Every answer makes it smaller.
    pub closed spec fn progress(&self) -> (nat, nat) {
        (
            (2 * (self.graph.files().len() - self.file) + if self.stage == WalkStage::Symbols {
                1int
            } else {
                0int
            }) as nat,
            (2 * (self.queue@.len() - self.next) - if self.stage == WalkStage::References {
                1int
            } else {
                0int
            }) as nat,
        )
    }

    pub open spec fn is_finished(&self) -> bool {
        self.file_index() >= self.graph_view().files().len()
    }

    pub open spec fn awaits_symbols(&self) -> bool {
        !self.is_finished() && self.stage() == WalkStage::Symbols
    }

    pub open spec fn awaits_definition(&self) -> bool {
        self.stage() == WalkStage::Definition
    }

    pub open spec fn awaits_references(&self) -> bool {
        self.stage() == WalkStage::References
    }

    /// The document whose symbols are being handled.
    pub open spec fn document(&self) -> Seq<char> {
        self.graph_view().files()[self.file_index()]
    }

    /// The symbol being handled.
    pub open spec fn symbol(&self) -> Symbol {
        self.pending_symbols()[0]
    }

    /// The walk has moved from `old` on to the next document under the
    /// root, and waits for its symbols unless there is none.
    pub open spec fn moved_to_next_document(&self, old: GraphWalk) -> bool {
        &&& self.file_index() == first_under_root(
            old.graph_view().files(),
            old.graph_view().root(),
            old.file_index() + 1,
        )
        &&& self.stage() == WalkStage::Symbols
    }

    /// The walk has moved from `old` on to the next symbol of the same
    /// document, or to the next document after its last symbol.
    pub open spec fn moved_to_next_symbol(&self, old: GraphWalk) -> bool {
        if old.pending_symbols().len() > 1 {
            &&& self.awaits_definition()
            &&& self.file_index() == old.file_index()
            &&& self.pending_symbols() == old.pending_symbols().drop_first()
        } else {
            self.moved_to_next_document(old)
        }
    }

    /// Moves to the first document under the root at or after the current.
    fn seek_document(&mut self)
        requires
            old(self).graph.wf(),
            old(self).graph.files().len() <= usize::MAX,
            old(self).file <= old(self).graph.files().len(),
            old(self).stage == WalkStage::Symbols,
        ensures
            final(self).wf(),
            final(self).graph == old(self).graph,
            final(self).stage == WalkStage::Symbols,
            final(self).file >= old(self).file,
            final(self).file == first_under_root(
                old(self).graph.files(),
                old(self).graph.root(),
                old(self).file as int,
            ),
    {
        while self.file < self.graph.files.len() && !is_under_root(
            self.graph.files[self.file].as_str(),
            self.graph.root.as_str(),
        )
            invariant
                self.graph == old(self).graph,
                self.graph.wf(),
                self.graph.files().len() <= usize::MAX,
                self.graph.files@.len() == self.graph.files().len(),
                self.stage == WalkStage::Symbols,
                old(self).file <= self.file <= self.graph.files@.len(),
                first_under_root(self.graph.files(), self.graph.root(), old(self).file as int)
                    == first_under_root(self.graph.files(), self.graph.root(), self.file as int),
            decreases self.graph.files@.len() - self.file,
        {
            assert(self.graph.files()[self.file as int] == self.graph.files@[self.file as int]@);
            self.file = self.file + 1;
        }
        if self.file < self.graph.files.len() {
            assert(self.graph.files()[self.file as int] == self.graph.files@[self.file as int]@);
        }
        self.queue = Vec::new();
        self.next = 0;
    }

    /// Moves on to the next document under the root.
    fn next_document(&mut self)
        requires
            old(self).graph.wf(),
            old(self).graph.files().len() <= usize::MAX,
            old(self).file < old(self).graph.files().len(),
        ensures
            final(self).wf(),
            final(self).graph == old(self).graph,
            final(self).moved_to_next_document(*old(self)),
            final(self).progress().0 + 1 <= 2 * (old(self).graph.files().len() - old(self).file),
    {
        self.stage = WalkStage::Symbols;
        self.file = self.file + 1;
        self.seek_document();
    }

    /// Moves past the current symbol, and past the document after its last
    /// symbol.
    fn next_symbol(&mut self)
        requires
            old(self).wf(),
            old(self).stage != WalkStage::Symbols,
        ensures
            final(self).wf(),
            final(self).graph == old(self).graph,
            lex_less(final(self).progress(), old(self).progress()),
            final(self).moved_to_next_symbol(*old(self)),
    {
        self.next = self.next + 1;
        if self.next < self.queue.len() {
            self.stage = WalkStage::Definition;
            assert(self.queue@.skip(self.next as int) =~= old(self).queue@.skip(old(self).next as int).drop_first());
        } else {
            self.next_document();
        }
    }

    /// A walk over the documents `files` of the project under `root`; it
    /// starts at the first document under the root.
    pub fn new(root: String, files: Vec<String>) -> (r: GraphWalk)
        ensures
            r.wf(),
            r.graph_view().root() == root@,
            r.graph_view().files() == files@.map_values(|f: String| f@),
            r.graph_view().edge_set() == Set::<(Seq<char>, Seq<char>)>::empty(),
            r.file_index() == first_under_root(r.graph_view().files(), root@, 0),
            r.stage() == WalkStage::Symbols,
    {
        let count = files.len();
        let mut w = GraphWalk {
            graph: ReferenceGraph::new(root, files),
            file: 0,
            queue: Vec::new(),
            next: 0,
            stage: WalkStage::Symbols,
        };
        assert(w.graph.files().len() == count);
        w.seek_document();
        w
    }

    /// The request to make next.
    pub fn step(&self) -> (r: GraphStep)
        requires
            self.wf(),
        ensures
            r is Finished <==> self.is_finished(),
            match r {
                GraphStep::Finished => true,
                GraphStep::Symbols(u) => self.awaits_symbols() && u@ == self.document(),
                GraphStep::Definition(u, p) => {
                    &&& self.awaits_definition()
                    &&& self.pending_symbols().len() > 0
                    &&& u@ == self.document()
                    &&& p == self.symbol().position
                },
                GraphStep::References(u, p) => {
                    &&& self.awaits_references()
                    &&& self.pending_symbols().len() > 0
                    &&& u@ == self.document()
                    &&& p == self.symbol().position
                },
            },
    {
        if self.file >= self.graph.files.len() {
            return GraphStep::Finished;
        }
        let uri = self.graph.files[self.file].clone();
        match self.stage {
            WalkStage::Symbols => GraphStep::Symbols(uri),
            WalkStage::Definition => GraphStep::Definition(uri, self.queue[self.next].position),
            WalkStage::References => GraphStep::References(uri, self.queue[self.next].position),
        }
    }

    /// Takes the answer to a symbols request. The symbols of kinds that take
    /// part wait for their definitions, in order. A document without such
    /// symbols is done; a protocol error passes it over and is returned.
    pub fn on_symbols(&mut self, response: Option<SymbolResponse>) -> (r: Result<(), Error>)
        requires
            old(self).wf(),
            old(self).awaits_symbols(),
        ensures
            final(self).wf(),
            final(self).graph_view() == old(self).graph_view(),
            lex_less(final(self).progress(), old(self).progress()),
            match symbols_of(response) {
                Ok(s) => r is Ok && if masked_symbols_of(s).len() > 0 {
                    &&& final(self).awaits_definition()
                    &&& final(self).file_index() == old(self).file_index()
                    &&& final(self).pending_symbols() == masked_symbols_of(s)
                } else {
                    final(self).moved_to_next_document(*old(self))
                },
                Err(e) => r == Err::<(), Error>(e) && final(self).moved_to_next_document(*old(self)),
            },
    {
        match flatten_symbols(response) {
            Ok(all) => {
                let masked = masked_symbols(&all);
                if masked.len() > 0 {
                    self.queue = masked;
                    self.next = 0;
                    self.stage = WalkStage::Definition;
                    assert(self.queue@.skip(0) =~= self.queue@);
                } else {
                    self.next_document();
                }
                Ok(())
            },
            Err(e) => {
                self.next_document();
                Err(e)
            },
        }
    }

    /// Takes the answer to a definition request. The symbol's references are
    /// asked for next exactly when one of its definitions lies in a
    /// document of the project; otherwise the walk moves on.
    pub fn on_definition(&mut self, response: Option<DefinitionResponse>)
        requires
            old(self).wf(),
            old(self).awaits_definition(),
        ensures
            final(self).wf(),
            final(self).graph_view() == old(self).graph_view(),
            lex_less(final(self).progress(), old(self).progress()),
            if exists|k: int|
                0 <= k < definition_documents(response).len() && old(self).graph_view().documents().contains(
                    #[trigger] definition_documents(response)[k]@,
                ) {
                &&& final(self).awaits_references()
                &&& final(self).file_index() == old(self).file_index()
                &&& final(self).pending_symbols() == old(self).pending_symbols()
            } else {
                final(self).moved_to_next_symbol(*old(self))
            },
    {
        let definitions = definition_uris(response);
        if self.graph.defined_in_project(&definitions) {
            self.stage = WalkStage::References;
        } else {
            self.next_symbol();
        }
    }

    /// Takes the answer to a references request, records its edges, and
    /// moves on.
    pub fn on_references(&mut self, response: Option<Vec<Location>>)
        requires
            old(self).wf(),
            old(self).awaits_references(),
        ensures
            final(self).wf(),
            final(self).graph_view().root() == old(self).graph_view().root(),
            final(self).graph_view().files() == old(self).graph_view().files(),
            final(self).graph_view().edge_set() == after_references(
                old(self).graph_view().edge_set(),
                old(self).graph_view().root(),
                old(self).graph_view().documents(),
                old(self).document(),
                match response {
                    None => Seq::<Seq<char>>::empty(),
                    Some(v) => uris_of(v@).map_values(|u: String| u@),
                },
            ),
            lex_less(final(self).progress(), old(self).progress()),
            final(self).moved_to_next_symbol(*old(self)),
    {
        let refs = reference_uris(response);
        let defining = self.graph.files[self.file].clone();
        self.graph.add_references(&defining, &refs);
        self.next_symbol();
    }

    /// Passes over the current symbol, or the current document while its
    /// symbols are asked for, after its request failed.
    pub fn skip(&mut self)
        requires
            old(self).wf(),
            !old(self).is_finished(),
        ensures
            final(self).wf(),
            final(self).graph_view() == old(self).graph_view(),
            lex_less(final(self).progress(), old(self).progress()),
            if old(self).stage() == WalkStage::Symbols {
                final(self).moved_to_next_document(*old(self))
            } else {
                final(self).moved_to_next_symbol(*old(self))
            },
    {
        if self.stage == WalkStage::Symbols {
            self.next_document();
        } else {
            self.next_symbol();
        }
    }

    /// The graph built so far.
    pub fn graph(&self) -> (r: &ReferenceGraph)
        ensures
            *r == self.graph_view(),
    {
        &self.graph
    }
}

} // verus!
