use lsp_client::{Error, JsonRpcResult, Notification, ProtocolError, Request, Response};

#[test]
fn request_new_keeps_fields() {
    let request = Request::new("subtract".to_string(), vec![42, 23], Some(1));
    assert_eq!(request.method, "subtract");
    assert_eq!(request.params, vec![42, 23]);
    assert_eq!(request.id, Some(1));
    assert!(!request.is_notification());
    let one_way = Request::new("method".to_string(), (), None);
    assert!(one_way.is_notification());
}

#[test]
fn notification_new_keeps_fields() {
    let n = Notification::new("initialized".to_string(), vec![42, 23]);
    assert_eq!(n.method, "initialized");
    assert_eq!(n.params, vec![42, 23]);
}

#[test]
fn response_result_is_returned() {
    let r: Response<i32, ()> = Response { result: JsonRpcResult::Result(19), id: Some(1) };
    assert_eq!(r.into_result(), Ok(19));
}

#[test]
fn response_error_is_protocol_error() {
    let r: Response<(), Vec<String>> = Response {
        result: JsonRpcResult::Error {
            code: -32601,
            message: "Method not found".to_string(),
            data: Some(vec!["Some".to_string(), "data".to_string()]),
        },
        id: None,
    };
    assert_eq!(
        r.into_result(),
        Err(Error::Protocol(ProtocolError::Rpc { code: -32601, message: "Method not found".to_string() }))
    );
}
