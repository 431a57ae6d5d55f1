//! The server answers that the analyses read, as plain values, and their
//! normalisation into uniform lists.

use vstd::prelude::*;
use crate::error::{Capability, Error, ProtocolError};
use crate::uri::{is_under_root, under_root};

verus! {

/// The protocol's number for a function symbol.
pub const SYMBOL_KIND_FUNCTION: u32 = 12;

/// The protocol's number for a method symbol.
pub const SYMBOL_KIND_METHOD: u32 = 6;

/// The protocol's number for a class symbol.
pub const SYMBOL_KIND_CLASS: u32 = 5;

/// The protocol's number for a struct symbol.
pub const SYMBOL_KIND_STRUCT: u32 = 23;

/// A zero-based line and column in a document.
#[derive(Debug, Clone, Copy, PartialEq, Eq, Structural)]
pub struct Position {
    pub line: u32,
    pub character: u32,
}

/// A place in a document.
#[derive(Debug, Clone, PartialEq, Eq)]
pub struct Location {
    pub uri: String,
    pub position: Position,
}

/// A symbol of a document as the server reports it, with the symbols that
/// are nested in it. `position` is where its name starts.
#[derive(Debug, PartialEq, Eq)]
pub struct DocumentSymbol {
    pub name: String,
    pub kind: u32,
    pub position: Position,
    pub children: Vec<DocumentSymbol>,
}

/// One symbol of a flattened symbol list.
#[derive(Debug, Clone, PartialEq, Eq)]
pub struct Symbol {
    pub name: String,
    pub kind: u32,
    pub position: Position,
}

/// An entry of a flat symbol list, the form a server uses when it does not
/// report hierarchies.
#[derive(Debug, Clone, PartialEq, Eq)]
pub struct SymbolInformation {
    pub name: String,
    pub kind: u32,
    pub location: Location,
}

/// The two shapes of a document symbol answer.
#[derive(Debug, PartialEq, Eq)]
pub enum SymbolResponse {
    Flat(Vec<SymbolInformation>),
    Nested(Vec<DocumentSymbol>),
}

pub open spec fn entry(s: DocumentSymbol) -> Symbol {
    Symbol { name: s.name, kind: s.kind, position: s.position }
}

/// The symbols of a forest in pre-order: each symbol, then the symbols
/// nested in it, then its later siblings.
pub open spec fn flatten(forest: Seq<DocumentSymbol>) -> Seq<Symbol>
    decreases forest,
{
    if forest.len() == 0 {
        seq![]
    } else {
        let s = forest[0];
        seq![entry(s)] + flatten(s.children@) + flatten(forest.drop_first())
    }
}

proof fn lemma_flatten_single(s: DocumentSymbol)
    ensures
        flatten(seq![s]) == seq![entry(s)] + flatten(s.children@),
{
    assert(seq![s].drop_first() =~= Seq::<DocumentSymbol>::empty());
    assert(flatten(Seq::<DocumentSymbol>::empty()) =~= Seq::<Symbol>::empty());
    assert(seq![entry(s)] + flatten(s.children@) + Seq::<Symbol>::empty() =~= seq![entry(s)]
        + flatten(s.children@));
}

proof fn lemma_flatten_push(a: Seq<DocumentSymbol>, s: DocumentSymbol)
    ensures
        flatten(a.push(s)) == flatten(a) + flatten(seq![s]),
    decreases a.len(),
{
    if a.len() == 0 {
        assert(a.push(s) =~= seq![s]);
        assert(flatten(a) =~= Seq::<Symbol>::empty());
        assert(flatten(a) + flatten(seq![s]) =~= flatten(seq![s]));
    } else {
        assert(a.push(s).drop_first() =~= a.drop_first().push(s));
        assert(a.push(s)[0] == a[0]);
        lemma_flatten_push(a.drop_first(), s);
        let h = seq![entry(a[0])] + flatten(a[0].children@);
        assert(flatten(a.push(s)) == h + flatten(a.drop_first().push(s)));
        assert(flatten(a) == h + flatten(a.drop_first()));
        assert(h + (flatten(a.drop_first()) + flatten(seq![s])) =~= (h + flatten(a.drop_first()))
            + flatten(seq![s]));
    }
}

/// Appends the pre-order flattening of `forest` to `out`.
fn flatten_into(forest: &Vec<DocumentSymbol>, out: &mut Vec<Symbol>)
    ensures
        final(out)@ == old(out)@ + flatten(forest@),
    decreases forest@,
{
    let ghost start = out@;
    let mut i: usize = 0;
    while i < forest.len()
        invariant
            i <= forest@.len(),
            out@ == start + flatten(forest@.take(i as int)),
        decreases forest@.len() - i,
    {
        let s = &forest[i];
        out.push(Symbol { name: s.name.clone(), kind: s.kind, position: s.position });
        proof {
            assert(forest@[i as int] == *s);
        }
        flatten_into(&s.children, out);
        proof {
            lemma_flatten_push(forest@.take(i as int), forest@[i as int]);
            lemma_flatten_single(forest@[i as int]);
            assert(forest@.take(i + 1) =~= forest@.take(i as int).push(forest@[i as int]));
            assert(out@ =~= start + flatten(forest@.take(i + 1)));
        }
        i = i + 1;
    }
    assert(forest@.take(i as int) =~= forest@);
}

/// The symbols of a document symbol answer, as one flat list.
pub open spec fn symbols_of(response: Option<SymbolResponse>) -> Result<Seq<Symbol>, Error> {
    match response {
        None => Ok(seq![]),
        Some(SymbolResponse::Flat(list)) => if list@.len() == 0 {
            Ok(seq![])
        } else {
            Err(Error::Protocol(ProtocolError::FlatSymbols))
        },
        Some(SymbolResponse::Nested(forest)) => Ok(flatten(forest@)),
    }
}

/// The symbols of an answer as one flat list.
///
/// A hierarchy is flattened in pre-order. No answer gives no symbols. A
/// non-empty flat list breaks the negotiated hierarchical form and is a
/// protocol error; an empty one gives no symbols.
pub fn flatten_symbols(response: Option<SymbolResponse>) -> (r: Result<Vec<Symbol>, Error>)
    ensures
        match symbols_of(response) {
            Ok(s) => r matches Ok(v) && v@ == s,
            Err(e) => r == Err::<Vec<Symbol>, Error>(e),
        },
{
    match response {
        None => {
            let v: Vec<Symbol> = Vec::new();
            assert(v@ =~= Seq::<Symbol>::empty());
            Ok(v)
        },
        Some(SymbolResponse::Flat(list)) => {
            if list.len() == 0 {
                let v: Vec<Symbol> = Vec::new();
                assert(v@ =~= Seq::<Symbol>::empty());
                Ok(v)
            } else {
                Err(Error::Protocol(ProtocolError::FlatSymbols))
            }
        },
        Some(SymbolResponse::Nested(forest)) => {
            let mut out: Vec<Symbol> = Vec::new();
            flatten_into(&forest, &mut out);
            assert(out@ =~= flatten(forest@));
            Ok(out)
        },
    }
}

/// A link to a definition: the target document and where its name starts.
#[derive(Debug, Clone, PartialEq, Eq)]
pub struct LocationLink {
    pub target_uri: String,
    pub target_position: Position,
}

/// The three shapes of a definition answer.
#[derive(Debug, Clone, PartialEq, Eq)]
pub enum DefinitionResponse {
    Scalar(Location),
    Array(Vec<Location>),
    Link(Vec<LocationLink>),
}

pub open spec fn uris_of(locations: Seq<Location>) -> Seq<String> {
    locations.map_values(|l: Location| l.uri)
}

pub open spec fn targets_of(links: Seq<LocationLink>) -> Seq<String> {
    links.map_values(|l: LocationLink| l.target_uri)
}

/// The documents that a definition answer names, in its order.
pub open spec fn definition_documents(response: Option<DefinitionResponse>) -> Seq<String> {
    match response {
        None => seq![],
        Some(DefinitionResponse::Scalar(l)) => seq![l.uri],
        Some(DefinitionResponse::Array(v)) => uris_of(v@),
        Some(DefinitionResponse::Link(v)) => targets_of(v@),
    }
}

/// The documents of a list of locations, in its order.
fn location_uris(locations: &Vec<Location>) -> (r: Vec<String>)
    ensures
        r@ == uris_of(locations@),
{
    let mut r: Vec<String> = Vec::new();
    let mut i: usize = 0;
    while i < locations.len()
        invariant
            i <= locations@.len(),
            r@ == uris_of(locations@.take(i as int)),
        decreases locations@.len() - i,
    {
        r.push(locations[i].uri.clone());
        i = i + 1;
        assert(r@ =~= uris_of(locations@.take(i as int)));
    }
    assert(locations@.take(i as int) =~= locations@);
    r
}

/// The documents that a definition answer names, whichever of its three
/// shapes it has; none for no answer.
pub fn definition_uris(response: Option<DefinitionResponse>) -> (r: Vec<String>)
    ensures
        r@ == definition_documents(response),
{
    match response {
        None => Vec::new(),
        Some(DefinitionResponse::Scalar(l)) => {
            let mut r: Vec<String> = Vec::new();
            r.push(l.uri);
            assert(r@ =~= seq![l.uri]);
            r
        },
        Some(DefinitionResponse::Array(v)) => location_uris(&v),
        Some(DefinitionResponse::Link(v)) => {
            let mut r: Vec<String> = Vec::new();
            let mut i: usize = 0;
            while i < v.len()
                invariant
                    i <= v@.len(),
                    r@ == targets_of(v@.take(i as int)),
                decreases v@.len() - i,
            {
                r.push(v[i].target_uri.clone());
                i = i + 1;
                assert(r@ =~= targets_of(v@.take(i as int)));
            }
            assert(v@.take(i as int) =~= v@);
            r
        },
    }
}

/// The documents of a references answer, in its order; none for no answer.
pub fn reference_uris(response: Option<Vec<Location>>) -> (r: Vec<String>)
    ensures
        r@ == match response {
            None => Seq::<String>::empty(),
            Some(v) => uris_of(v@),
        },
{
    match response {
        None => Vec::new(),
        Some(v) => location_uris(&v),
    }
}

/// Which of the needed capabilities a server announced.
#[derive(Debug, Clone, Copy, PartialEq, Eq)]
pub struct ServerCapabilities {
    pub document_symbol: bool,
    pub references: bool,
    pub definition: bool,
    pub call_hierarchy: bool,
}

pub open spec fn provides(caps: ServerCapabilities, c: Capability) -> bool {
    match c {
        Capability::DocumentSymbol => caps.document_symbol,
        Capability::References => caps.references,
        Capability::Definition => caps.definition,
        Capability::CallHierarchy => caps.call_hierarchy,
    }
}

/// The first of `required` that the server lacks.
pub open spec fn first_missing(caps: ServerCapabilities, required: Seq<Capability>) -> Option<Capability>
    decreases required.len(),
{
    if required.len() == 0 {
        None
    } else if !provides(caps, required[0]) {
        Some(required[0])
    } else {
        first_missing(caps, required.drop_first())
    }
}

/// Whether the server announced capability `c`.
pub fn provides_capability(caps: &ServerCapabilities, c: Capability) -> (r: bool)
    ensures
        r == provides(*caps, c),
{
    match c {
        Capability::DocumentSymbol => caps.document_symbol,
        Capability::References => caps.references,
        Capability::Definition => caps.definition,
        Capability::CallHierarchy => caps.call_hierarchy,
    }
}

/// Checks the answer to `initialize` against what the caller needs: a
/// capability error for the first one missing, in the order given.
pub fn check_capabilities(caps: &ServerCapabilities, required: &[Capability]) -> (r: Result<(), Error>)
    ensures
        r == match first_missing(*caps, required@) {
            None => Ok::<(), Error>(()),
            Some(c) => Err(Error::Capability(c)),
        },
        r is Ok <==> forall|i: int| 0 <= i < required@.len() ==> provides(*caps, #[trigger] required@[i]),
{
    let mut i: usize = 0;
    assert(required@.skip(0) =~= required@);
    while i < required.len()
        invariant
            i <= required@.len(),
            first_missing(*caps, required@) == first_missing(*caps, required@.skip(i as int)),
            forall|k: int| 0 <= k < i ==> provides(*caps, #[trigger] required@[k]),
        decreases required@.len() - i,
    {
        let c = required[i];
        if !provides_capability(caps, c) {
            return Err(Error::Capability(c));
        }
        assert(required@.skip(i as int).drop_first() =~= required@.skip(i + 1));
        i = i + 1;
    }
    assert(required@.skip(i as int) =~= Seq::<Capability>::empty());
    Ok(())
}

/// What the reference graph needs of a server.
pub fn reference_graph_capabilities() -> (r: Vec<Capability>)
    ensures
        r@ == seq![Capability::DocumentSymbol, Capability::References, Capability::Definition],
{
    let mut r: Vec<Capability> = Vec::new();
    r.push(Capability::DocumentSymbol);
    r.push(Capability::References);
    r.push(Capability::Definition);
    assert(r@ =~= seq![Capability::DocumentSymbol, Capability::References, Capability::Definition]);
    r
}

/// What the usage scores need of a server.
pub fn usage_capabilities() -> (r: Vec<Capability>)
    ensures
        r@ == seq![Capability::DocumentSymbol, Capability::CallHierarchy],
{
    let mut r: Vec<Capability> = Vec::new();
    r.push(Capability::DocumentSymbol);
    r.push(Capability::CallHierarchy);
    assert(r@ =~= seq![Capability::DocumentSymbol, Capability::CallHierarchy]);
    r
}

/// A function or method as the call hierarchy reports it. `position` is
/// where its name starts; with `uri` it identifies the symbol.
#[derive(Debug, Clone, PartialEq, Eq)]
pub struct CallHierarchyItem {
    pub name: String,
    pub kind: u32,
    pub uri: String,
    pub position: Position,
}

pub open spec fn is_function_kind(kind: u32) -> bool {
    kind == SYMBOL_KIND_FUNCTION || kind == SYMBOL_KIND_METHOD
}

/// The functions and methods of `symbols`, in order.
pub open spec fn function_symbols_of(symbols: Seq<Symbol>) -> Seq<Symbol>
    decreases symbols.len(),
{
    if symbols.len() == 0 {
        seq![]
    } else {
        let before = function_symbols_of(symbols.drop_last());
        if is_function_kind(symbols.last().kind) {
            before.push(symbols.last())
        } else {
            before
        }
    }
}

/// The functions and methods of `items`, in order.
pub open spec fn function_items_of(items: Seq<CallHierarchyItem>) -> Seq<CallHierarchyItem>
    decreases items.len(),
{
    if items.len() == 0 {
        seq![]
    } else {
        let before = function_items_of(items.drop_last());
        if is_function_kind(items.last().kind) {
            before.push(items.last())
        } else {
            before
        }
    }
}

pub fn copy_symbol(s: &Symbol) -> (r: Symbol)
    ensures
        r == *s,
{
    Symbol { name: s.name.clone(), kind: s.kind, position: s.position }
}

pub fn copy_item(it: &CallHierarchyItem) -> (r: CallHierarchyItem)
    ensures
        r == *it,
{
    CallHierarchyItem { name: it.name.clone(), kind: it.kind, uri: it.uri.clone(), position: it.position }
}

/// The functions and methods among the symbols of a document.
pub fn function_symbols(symbols: &Vec<Symbol>) -> (r: Vec<Symbol>)
    ensures
        r@ == function_symbols_of(symbols@),
{
    let mut r: Vec<Symbol> = Vec::new();
    let mut i: usize = 0;
    while i < symbols.len()
        invariant
            i <= symbols@.len(),
            r@ == function_symbols_of(symbols@.take(i as int)),
        decreases symbols@.len() - i,
    {
        assert(symbols@.take(i + 1).drop_last() =~= symbols@.take(i as int));
        let s = &symbols[i];
        if s.kind == SYMBOL_KIND_FUNCTION || s.kind == SYMBOL_KIND_METHOD {
            r.push(copy_symbol(s));
        }
        i = i + 1;
    }
    assert(symbols@.take(i as int) =~= symbols@);
    r
}

/// The functions and methods of a call hierarchy answer; none for no
/// answer.
pub fn function_items(response: Option<Vec<CallHierarchyItem>>) -> (r: Vec<CallHierarchyItem>)
    ensures
        r@ == match response {
            None => Seq::<CallHierarchyItem>::empty(),
            Some(items) => function_items_of(items@),
        },
{
    let items = match response {
        None => return Vec::new(),
        Some(items) => items,
    };
    let mut r: Vec<CallHierarchyItem> = Vec::new();
    let mut i: usize = 0;
    while i < items.len()
        invariant
            i <= items@.len(),
            r@ == function_items_of(items@.take(i as int)),
        decreases items@.len() - i,
    {
        assert(items@.take(i + 1).drop_last() =~= items@.take(i as int));
        let it = &items[i];
        if it.kind == SYMBOL_KIND_FUNCTION || it.kind == SYMBOL_KIND_METHOD {
            r.push(copy_item(it));
        }
        i = i + 1;
    }
    assert(items@.take(i as int) =~= items@);
    r
}

/// The calls into `callee` from callers under `root`, as (caller, callee)
/// pairs, in the order of the answer.
pub open spec fn calls_into_spec(
    callee: CallHierarchyItem,
    callers: Seq<CallHierarchyItem>,
    root: Seq<char>,
) -> Seq<(CallHierarchyItem, CallHierarchyItem)>
    decreases callers.len(),
{
    if callers.len() == 0 {
        seq![]
    } else {
        let before = calls_into_spec(callee, callers.drop_last(), root);
        if under_root(callers.last().uri@, root) {
            before.push((callers.last(), callee))
        } else {
            before
        }
    }
}

/// The call edges into `callee` from an incoming-calls answer, keeping the
/// callers under `root`; none for no answer.
pub fn calls_into(callee: &CallHierarchyItem, callers: Option<Vec<CallHierarchyItem>>, root: &str) -> (r:
    Vec<(CallHierarchyItem, CallHierarchyItem)>)
    ensures
        r@ == match callers {
            None => Seq::<(CallHierarchyItem, CallHierarchyItem)>::empty(),
            Some(v) => calls_into_spec(*callee, v@, root@),
        },
{
    let callers = match callers {
        None => return Vec::new(),
        Some(v) => v,
    };
    let mut r: Vec<(CallHierarchyItem, CallHierarchyItem)> = Vec::new();
    let mut i: usize = 0;
    while i < callers.len()
        invariant
            i <= callers@.len(),
            r@ == calls_into_spec(*callee, callers@.take(i as int), root@),
        decreases callers@.len() - i,
    {
        assert(callers@.take(i + 1).drop_last() =~= callers@.take(i as int));
        let from = &callers[i];
        if is_under_root(from.uri.as_str(), root) {
            r.push((copy_item(from), copy_item(callee)));
        }
        i = i + 1;
    }
    assert(callers@.take(i as int) =~= callers@);
    r
}

} // verus!
