use lsp_client::{Error, PendingTable, ProtocolError};

#[test]
fn responses_in_any_order_reach_their_callers() {
    let mut table: PendingTable<&str> = PendingTable::new();
    let callers = ["a", "b", "c", "d", "e"];
    let mut ids = Vec::new();
    for caller in callers {
        ids.push(table.register(caller).unwrap());
    }
    assert_eq!(ids, vec![0, 1, 2, 3, 4]);
    assert_eq!(table.in_flight(), 5);
    for id in [3u64, 0, 4, 1, 2] {
        let delivered = table.route(false, Some(id)).unwrap();
        assert_eq!(delivered, Some((id, callers[id as usize])));
        assert!(!table.is_waiting(id));
    }
    assert_eq!(table.in_flight(), 0);
}

#[test]
fn server_messages_are_not_routed() {
    let mut table: PendingTable<u8> = PendingTable::new();
    let id = table.register(7).unwrap();
    assert_eq!(table.route(true, Some(id)), Ok(None));
    assert_eq!(table.route(true, None), Ok(None));
    assert!(table.is_waiting(id));
    assert_eq!(table.route(false, Some(id)), Ok(Some((id, 7))));
}

#[test]
fn unknown_id_is_correlation_error() {
    let mut table: PendingTable<u8> = PendingTable::new();
    table.register(1).unwrap();
    assert_eq!(table.route(false, Some(9)), Err(Error::Correlation(9)));
    assert_eq!(table.route(false, Some(0)), Ok(Some((0, 1))));
    assert_eq!(table.route(false, Some(0)), Err(Error::Correlation(0)));
}

#[test]
fn message_without_id_or_method_is_protocol_error() {
    let mut table: PendingTable<u8> = PendingTable::new();
    assert_eq!(table.route(false, None), Err(Error::Protocol(ProtocolError::MissingId)));
}

#[test]
fn ids_are_never_reused_after_close() {
    let mut table: PendingTable<u8> = PendingTable::new();
    table.register(1).unwrap();
    table.register(2).unwrap();
    let taken = table.close();
    assert_eq!(taken.len(), 2);
    assert_eq!(taken.get(&0), Some(&1));
    assert_eq!(taken.get(&1), Some(&2));
    assert_eq!(table.in_flight(), 0);
    assert_eq!(table.register(3), Ok(2));
}

#[test]
fn issue_builds_requests_with_fresh_ids() {
    let mut table: PendingTable<()> = PendingTable::new();
    let first = table.issue("initialize".to_string(), 5u8, ()).unwrap();
    let second = table.issue("shutdown".to_string(), 6u8, ()).unwrap();
    assert_eq!(first.id, Some(0));
    assert_eq!(first.method, "initialize");
    assert_eq!(first.params, 5);
    assert_eq!(second.id, Some(1));
    assert!(!second.is_notification());
}
