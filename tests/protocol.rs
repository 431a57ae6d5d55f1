use lsp_client::protocol::{
    calls_into, check_capabilities, definition_uris, flatten_symbols, function_items,
    function_symbols, reference_graph_capabilities, reference_uris, usage_capabilities,
};
use lsp_client::{
    CallHierarchyItem, Capability, DefinitionResponse, DocumentSymbol, Error, Location,
    LocationLink, Position, ProtocolError, ServerCapabilities, Symbol, SymbolInformation,
    SymbolResponse,
};

fn pos(line: u32, character: u32) -> Position {
    Position { line, character }
}

fn doc_symbol(name: &str, kind: u32, line: u32, children: Vec<DocumentSymbol>) -> DocumentSymbol {
    DocumentSymbol { name: name.to_string(), kind, position: pos(line, 3), children }
}

fn loc(uri: &str) -> Location {
    Location { uri: uri.to_string(), position: pos(0, 0) }
}

fn item(name: &str, kind: u32, uri: &str, line: u32) -> CallHierarchyItem {
    CallHierarchyItem { name: name.to_string(), kind, uri: uri.to_string(), position: pos(line, 3) }
}

#[test]
fn nested_symbols_flatten_in_pre_order() {
    let tree = vec![
        doc_symbol("main", 12, 0, vec![doc_symbol("a", 13, 1, vec![])]),
        doc_symbol("S", 23, 5, vec![doc_symbol("m", 6, 6, vec![doc_symbol("x", 13, 7, vec![])])]),
    ];
    let flat = flatten_symbols(Some(SymbolResponse::Nested(tree))).unwrap();
    let names: Vec<&str> = flat.iter().map(|s| s.name.as_str()).collect();
    assert_eq!(names, vec!["main", "a", "S", "m", "x"]);
    assert_eq!(flat[3], Symbol { name: "m".to_string(), kind: 6, position: pos(6, 3) });
}

#[test]
fn absent_or_empty_symbol_answers_give_no_symbols() {
    assert_eq!(flatten_symbols(None), Ok(vec![]));
    assert_eq!(flatten_symbols(Some(SymbolResponse::Flat(vec![]))), Ok(vec![]));
    assert_eq!(flatten_symbols(Some(SymbolResponse::Nested(vec![]))), Ok(vec![]));
}

#[test]
fn non_empty_flat_symbols_are_protocol_error() {
    let flat = vec![SymbolInformation { name: "f".to_string(), kind: 12, location: loc("file:///a.rs") }];
    assert_eq!(
        flatten_symbols(Some(SymbolResponse::Flat(flat))),
        Err(Error::Protocol(ProtocolError::FlatSymbols))
    );
}

#[test]
fn definition_shapes_normalise_to_documents() {
    assert_eq!(definition_uris(None), Vec::<String>::new());
    assert_eq!(
        definition_uris(Some(DefinitionResponse::Scalar(loc("file:///a.rs")))),
        vec!["file:///a.rs".to_string()]
    );
    assert_eq!(
        definition_uris(Some(DefinitionResponse::Array(vec![loc("file:///a.rs"), loc("file:///b.rs")]))),
        vec!["file:///a.rs".to_string(), "file:///b.rs".to_string()]
    );
    let link = LocationLink { target_uri: "file:///c.rs".to_string(), target_position: pos(1, 1) };
    assert_eq!(
        definition_uris(Some(DefinitionResponse::Link(vec![link]))),
        vec!["file:///c.rs".to_string()]
    );
}

#[test]
fn references_normalise_to_documents() {
    assert_eq!(reference_uris(None), Vec::<String>::new());
    assert_eq!(
        reference_uris(Some(vec![loc("file:///x.rs"), loc("file:///x.rs")])),
        vec!["file:///x.rs".to_string(), "file:///x.rs".to_string()]
    );
}

#[test]
fn missing_document_symbol_provider_is_capability_error() {
    let caps = ServerCapabilities { document_symbol: false, references: true, definition: true, call_hierarchy: true };
    let needed = reference_graph_capabilities();
    assert_eq!(check_capabilities(&caps, &needed), Err(Error::Capability(Capability::DocumentSymbol)));
}

#[test]
fn capabilities_are_checked_in_order() {
    let caps = ServerCapabilities { document_symbol: true, references: false, definition: false, call_hierarchy: false };
    assert_eq!(
        check_capabilities(&caps, &reference_graph_capabilities()),
        Err(Error::Capability(Capability::References))
    );
    assert_eq!(
        check_capabilities(&caps, &usage_capabilities()),
        Err(Error::Capability(Capability::CallHierarchy))
    );
    let all = ServerCapabilities { document_symbol: true, references: true, definition: true, call_hierarchy: true };
    assert_eq!(check_capabilities(&all, &reference_graph_capabilities()), Ok(()));
    assert_eq!(check_capabilities(&caps, &[]), Ok(()));
}

#[test]
fn only_functions_and_methods_are_kept() {
    let symbols = vec![
        Symbol { name: "f".to_string(), kind: 12, position: pos(0, 3) },
        Symbol { name: "S".to_string(), kind: 23, position: pos(1, 7) },
        Symbol { name: "m".to_string(), kind: 6, position: pos(2, 7) },
    ];
    let kept: Vec<String> = function_symbols(&symbols).into_iter().map(|s| s.name).collect();
    assert_eq!(kept, vec!["f".to_string(), "m".to_string()]);
    let items = vec![item("f", 12, "file:///p/a.rs", 0), item("C", 5, "file:///p/a.rs", 1)];
    assert_eq!(function_items(Some(items)), vec![item("f", 12, "file:///p/a.rs", 0)]);
    assert_eq!(function_items(None), vec![]);
}

#[test]
fn incoming_calls_outside_root_are_dropped() {
    let callee = item("bar", 12, "file:///p/src/main.rs", 9);
    let callers = vec![
        item("foo", 12, "file:///p/src/main.rs", 4),
        item("lib", 12, "file:///rustlib/core.rs", 1),
    ];
    let calls = calls_into(&callee, Some(callers), "file:///p/");
    assert_eq!(calls, vec![(item("foo", 12, "file:///p/src/main.rs", 4), callee.clone())]);
    assert_eq!(calls_into(&callee, None, "file:///p/"), vec![]);
}
