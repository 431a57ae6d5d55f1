use lsp_client::graph::{keeps_symbol, masked_symbols};
use lsp_client::uri::{is_under_root, relative_to};
use lsp_client::{
    DefinitionResponse, DocumentSymbol, Error, GraphStep, GraphWalk, Location, Position,
    ProtocolError, ReferenceGraph, Symbol, SymbolInformation, SymbolResponse,
};

const ROOT: &str = "file:///p/";

fn s(x: &str) -> String {
    x.to_string()
}

fn files() -> Vec<String> {
    vec![s("file:///p/a.rs"), s("file:///p/b.rs"), s("file:///p/c.rs")]
}

fn edges_of(g: &ReferenceGraph) -> Vec<(String, String)> {
    let mut e = g.edge_list();
    e.sort();
    e
}

fn pos(line: u32) -> Position {
    Position { line, character: 3 }
}

fn loc(uri: &str) -> Location {
    Location { uri: s(uri), position: pos(0) }
}

#[test]
fn same_pair_through_two_symbols_is_one_edge() {
    let mut g = ReferenceGraph::new(s(ROOT), files());
    g.add_references(&s("file:///p/a.rs"), &vec![s("file:///p/b.rs")]);
    g.add_references(&s("file:///p/a.rs"), &vec![s("file:///p/b.rs"), s("file:///p/b.rs")]);
    assert_eq!(g.edge_count(), 1);
    assert_eq!(edges_of(&g), vec![(s("b.rs"), s("a.rs"))]);
}

#[test]
fn document_handled_twice_adds_no_edges() {
    let mut once = ReferenceGraph::new(s(ROOT), files());
    once.add_references(&s("file:///p/a.rs"), &vec![s("file:///p/b.rs"), s("file:///p/c.rs")]);
    let mut twice = ReferenceGraph::new(s(ROOT), files());
    for _ in 0..2 {
        twice.add_references(&s("file:///p/a.rs"), &vec![s("file:///p/b.rs"), s("file:///p/c.rs")]);
    }
    assert_eq!(edges_of(&once), edges_of(&twice));
    assert_eq!(twice.edge_count(), 2);
}

#[test]
fn self_and_foreign_references_make_no_edges() {
    let mut g = ReferenceGraph::new(s(ROOT), files());
    g.add_references(
        &s("file:///p/a.rs"),
        &vec![s("file:///p/a.rs"), s("file:///p/zz.rs"), s("file:///other/x.rs"), s("file:///p/c.rs")],
    );
    assert_eq!(edges_of(&g), vec![(s("c.rs"), s("a.rs"))]);
}

#[test]
fn definitions_decide_project_membership() {
    let g = ReferenceGraph::new(s(ROOT), files());
    assert!(g.defined_in_project(&vec![s("file:///lib/std.rs"), s("file:///p/b.rs")]));
    assert!(!g.defined_in_project(&vec![s("file:///lib/std.rs")]));
    assert!(!g.defined_in_project(&vec![]));
    assert!(g.in_project(&s("file:///p/c.rs")));
    assert!(!g.in_project(&s("file:///p/d.rs")));
}

#[test]
fn nodes_are_relative_and_unique() {
    let g = ReferenceGraph::new(
        s(ROOT),
        vec![s("file:///p/a.rs"), s("file:///q/x.rs"), s("file:///p/src/b.rs"), s("file:///p/a.rs")],
    );
    assert_eq!(g.nodes(), vec![s("a.rs"), s("src/b.rs")]);
}

#[test]
fn relative_names_strip_the_root() {
    assert_eq!(relative_to("file:///p/src/a.rs", ROOT), Some(s("src/a.rs")));
    assert_eq!(relative_to("file:///q/a.rs", ROOT), None);
    assert_eq!(relative_to(ROOT, ROOT), Some(s("")));
    assert!(is_under_root("file:///p/é.rs", ROOT));
    assert!(!is_under_root("file:///", ROOT));
}

#[test]
fn symbol_mask_keeps_functions_structs_classes_methods() {
    assert!(keeps_symbol(12));
    assert!(keeps_symbol(23));
    assert!(keeps_symbol(5));
    assert!(keeps_symbol(6));
    assert!(!keeps_symbol(13));
    let symbols = vec![
        Symbol { name: s("f"), kind: 12, position: pos(0) },
        Symbol { name: s("v"), kind: 13, position: pos(1) },
    ];
    assert_eq!(masked_symbols(&symbols), vec![Symbol { name: s("f"), kind: 12, position: pos(0) }]);
}

fn sym(name: &str, kind: u32, line: u32) -> DocumentSymbol {
    DocumentSymbol { name: s(name), kind, position: pos(line), children: vec![] }
}

#[test]
fn walk_builds_the_reference_graph() {
    let mut walk = GraphWalk::new(
        s(ROOT),
        vec![s("file:///p/a.rs"), s("file:///elsewhere/x.rs"), s("file:///p/b.rs")],
    );
    assert_eq!(walk.step(), GraphStep::Symbols(s("file:///p/a.rs")));
    let tree = vec![DocumentSymbol {
        name: s("A"),
        kind: 23,
        position: pos(0),
        children: vec![sym("field", 8, 1), sym("new", 6, 2)],
    }];
    walk.on_symbols(Some(SymbolResponse::Nested(tree))).unwrap();
    assert_eq!(walk.step(), GraphStep::Definition(s("file:///p/a.rs"), pos(0)));
    walk.on_definition(Some(DefinitionResponse::Scalar(loc("file:///p/a.rs"))));
    assert_eq!(walk.step(), GraphStep::References(s("file:///p/a.rs"), pos(0)));
    walk.on_references(Some(vec![loc("file:///p/b.rs"), loc("file:///p/a.rs")]));
    assert_eq!(walk.step(), GraphStep::Definition(s("file:///p/a.rs"), pos(2)));
    walk.on_definition(Some(DefinitionResponse::Array(vec![loc("file:///lib/core.rs")])));
    assert_eq!(walk.step(), GraphStep::Symbols(s("file:///p/b.rs")));
    walk.on_symbols(Some(SymbolResponse::Nested(vec![sym("main", 12, 0)]))).unwrap();
    walk.on_definition(Some(DefinitionResponse::Scalar(loc("file:///p/b.rs"))));
    walk.on_references(None);
    assert_eq!(walk.step(), GraphStep::Finished);
    assert_eq!(edges_of(walk.graph()), vec![(s("b.rs"), s("a.rs"))]);
}

#[test]
fn walk_passes_over_documents_after_errors() {
    let mut walk = GraphWalk::new(s(ROOT), vec![s("file:///p/a.rs"), s("file:///p/b.rs")]);
    let flat = vec![SymbolInformation { name: s("f"), kind: 12, location: loc("file:///p/a.rs") }];
    assert_eq!(
        walk.on_symbols(Some(SymbolResponse::Flat(flat))),
        Err(Error::Protocol(ProtocolError::FlatSymbols))
    );
    assert_eq!(walk.step(), GraphStep::Symbols(s("file:///p/b.rs")));
    walk.skip();
    assert_eq!(walk.step(), GraphStep::Finished);
}

fn walk_edges(files: Vec<String>) -> Vec<(String, String)> {
    let mut walk = GraphWalk::new(s(ROOT), files);
    loop {
        match walk.step() {
            GraphStep::Finished => break,
            GraphStep::Symbols(uri) => {
                let answer = if uri == "file:///p/a.rs" { vec![sym("f", 12, 0)] } else { vec![] };
                walk.on_symbols(Some(SymbolResponse::Nested(answer))).unwrap();
            }
            GraphStep::Definition(uri, _) => walk.on_definition(Some(DefinitionResponse::Scalar(loc(&uri)))),
            GraphStep::References(_, _) => walk.on_references(Some(vec![loc("file:///p/b.rs")])),
        }
    }
    edges_of(walk.graph())
}

#[test]
fn walk_over_a_document_listed_twice_adds_no_edges() {
    let once = walk_edges(vec![s("file:///p/a.rs"), s("file:///p/b.rs")]);
    let twice = walk_edges(vec![s("file:///p/a.rs"), s("file:///p/b.rs"), s("file:///p/a.rs")]);
    assert_eq!(once, vec![(s("b.rs"), s("a.rs"))]);
    assert_eq!(once, twice);
}
