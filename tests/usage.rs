use lsp_client::{
    calc_fn_usage, CallHierarchyItem, DocumentSymbol, Position, SymbolResponse, Usage, UsageStep, UsageWalk,
};

fn item(name: &str, line: u32) -> CallHierarchyItem {
    CallHierarchyItem {
        name: name.to_string(),
        kind: 12,
        uri: "file:///p/src/main.rs".to_string(),
        position: Position { line, character: 3 },
    }
}

#[test]
fn usage_of_a_call_chain() {
    let main = item("main", 0);
    let foo = item("foo", 4);
    let bar = item("bar", 8);
    let items = vec![main.clone(), foo.clone(), bar.clone()];
    let calls = vec![(main.clone(), foo.clone()), (foo.clone(), bar.clone())];
    let usage = calc_fn_usage(&items, &calls);
    assert_eq!(usage, vec![
        Usage { callers: 0, total: 3 },
        Usage { callers: 1, total: 3 },
        Usage { callers: 2, total: 3 },
    ]);
    let scores: Vec<u64> = usage.iter().map(|u| u.percent_hundredths()).collect();
    assert_eq!(scores, vec![0, 3333, 6667]);
}

#[test]
fn usage_identifies_symbols_by_document_and_position() {
    let a = item("a", 0);
    let b = item("b", 4);
    let renamed_b = CallHierarchyItem { name: "b'".to_string(), ..b.clone() };
    let elsewhere = CallHierarchyItem { uri: "file:///p/src/other.rs".to_string(), ..b.clone() };
    let items = vec![a.clone(), b.clone()];
    let calls = vec![(a.clone(), renamed_b), (elsewhere, a.clone())];
    let usage = calc_fn_usage(&items, &calls);
    assert_eq!(usage, vec![Usage { callers: 0, total: 2 }, Usage { callers: 1, total: 2 }]);
}

#[test]
fn usage_in_a_cycle() {
    let a = item("a", 0);
    let b = item("b", 4);
    let c = item("c", 8);
    let items = vec![a.clone(), b.clone(), c.clone()];
    let calls = vec![(a.clone(), b.clone()), (b.clone(), a.clone()), (b.clone(), b.clone())];
    let usage = calc_fn_usage(&items, &calls);
    assert_eq!(usage, vec![
        Usage { callers: 1, total: 3 },
        Usage { callers: 1, total: 3 },
        Usage { callers: 0, total: 3 },
    ]);
    assert_eq!(usage[0].percent_hundredths(), 3333);
}

#[test]
fn usage_of_nothing_is_empty() {
    assert_eq!(calc_fn_usage(&vec![], &vec![]), vec![]);
}

#[test]
fn percent_rounds_half_up() {
    assert_eq!(Usage { callers: 1, total: 8 }.percent_hundredths(), 1250);
    assert_eq!(Usage { callers: 1, total: 6 }.percent_hundredths(), 1667);
    assert_eq!(Usage { callers: 0, total: 1 }.percent_hundredths(), 0);
    assert_eq!(Usage { callers: 99, total: 100 }.percent_hundredths(), 9900);
}

fn at(uri: &str, name: &str, kind: u32, line: u32) -> CallHierarchyItem {
    CallHierarchyItem { name: name.to_string(), kind, uri: uri.to_string(), position: Position { line, character: 3 } }
}

#[test]
fn usage_walk_gathers_functions_and_calls() {
    let a = "file:///p/a.rs";
    let mut walk = UsageWalk::new("file:///p/".to_string(), vec![a.to_string()]);
    assert_eq!(walk.step(), UsageStep::Symbols(a.to_string()));
    let sym = |name: &str, kind: u32, line: u32| DocumentSymbol {
        name: name.to_string(),
        kind,
        position: Position { line, character: 3 },
        children: vec![],
    };
    walk.on_symbols(Some(SymbolResponse::Nested(vec![sym("main", 12, 0), sym("S", 23, 2), sym("foo", 12, 4)])))
        .unwrap();
    assert_eq!(walk.step(), UsageStep::Prepare(a.to_string(), Position { line: 0, character: 3 }));
    walk.on_prepare(Some(vec![at(a, "main", 12, 0)]));
    assert_eq!(walk.step(), UsageStep::IncomingCalls(at(a, "main", 12, 0)));
    walk.on_incoming_calls(None);
    assert_eq!(walk.step(), UsageStep::Prepare(a.to_string(), Position { line: 4, character: 3 }));
    walk.on_prepare(Some(vec![at(a, "foo", 12, 4), at(a, "C", 5, 9)]));
    assert_eq!(walk.step(), UsageStep::IncomingCalls(at(a, "foo", 12, 4)));
    walk.on_incoming_calls(Some(vec![at(a, "main", 12, 0), at("file:///std/lib.rs", "x", 12, 1)]));
    assert_eq!(walk.step(), UsageStep::Finished);
    assert_eq!(walk.functions(), &vec![at(a, "main", 12, 0), at(a, "foo", 12, 4)]);
    let scores: Vec<u64> = walk.scores().unwrap().iter().map(|u| u.percent_hundredths()).collect();
    assert_eq!(scores, vec![0, 5000]);
}
