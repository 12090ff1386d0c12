use glide_core::codec::encode_request;
use glide_core::errors::ProtocolError;
use glide_core::listener::{CommandOutcome, ConnectionHandler};
use glide_core::protocol::{Request, RequestType, ResponseType};

fn request_frame(callback_index: u32, request_type: RequestType, args: Vec<Vec<u8>>) -> Vec<u8> {
    encode_request(&Request {
        callback_index,
        request_type,
        args,
    })
    .unwrap()
}

#[test]
fn two_concurrent_requests_get_independent_responses() {
    let mut handler = ConnectionHandler::new();
    // both requests arrive back-to-back before either backend call completes
    let mut bytes = request_frame(1, RequestType::GetString, vec![b"a".to_vec()]);
    bytes.extend_from_slice(&request_frame(
        2,
        RequestType::SetString,
        vec![b"b".to_vec(), b"v".to_vec()],
    ));
    handler.feed(&bytes);

    let first = handler.next_request().unwrap().unwrap();
    assert_eq!(first.callback_index, 1);
    assert_eq!(first.request_type, RequestType::GetString);
    let second = handler.next_request().unwrap().unwrap();
    assert_eq!(second.callback_index, 2);
    assert_eq!(second.request_type, RequestType::SetString);
    assert_eq!(handler.next_request(), Ok(None));

    // the backend completes them in the opposite order
    let resp2 = handler
        .handle_backend_result(2, CommandOutcome::Nil)
        .unwrap();
    assert_eq!(resp2.callback_index, 2);
    assert_eq!(resp2.response_type, ResponseType::Null);
    assert!(resp2.payload.is_empty());

    let resp1 = handler
        .handle_backend_result(1, CommandOutcome::Value(b"v".to_vec()))
        .unwrap();
    assert_eq!(resp1.callback_index, 1);
    assert_eq!(resp1.response_type, ResponseType::String);
    assert_eq!(resp1.payload, b"v".to_vec());
}

#[test]
fn each_callback_index_is_answered_exactly_once() {
    let mut handler = ConnectionHandler::new();
    handler.feed(&request_frame(8, RequestType::GetString, vec![b"k".to_vec()]));
    handler.next_request().unwrap().unwrap();
    assert!(handler
        .handle_backend_result(8, CommandOutcome::Value(b"x".to_vec()))
        .is_some());
    // a second result for the same index finds no entry and is dropped
    assert!(handler
        .handle_backend_result(8, CommandOutcome::Value(b"y".to_vec()))
        .is_none());
}

#[test]
fn result_for_unknown_index_is_dropped_without_harm() {
    let mut handler = ConnectionHandler::new();
    handler.feed(&request_frame(1, RequestType::GetString, vec![b"k".to_vec()]));
    handler.next_request().unwrap().unwrap();
    assert!(handler
        .handle_backend_result(99, CommandOutcome::Nil)
        .is_none());
    // the pending request is untouched
    assert!(handler
        .handle_backend_result(1, CommandOutcome::Nil)
        .is_some());
}

#[test]
fn command_error_becomes_a_request_error_response() {
    let mut handler = ConnectionHandler::new();
    handler.feed(&request_frame(4, RequestType::GetString, vec![b"k".to_vec()]));
    handler.next_request().unwrap().unwrap();
    let resp = handler
        .handle_backend_result(4, CommandOutcome::Error(b"timeout".to_vec()))
        .unwrap();
    assert_eq!(resp.callback_index, 4);
    assert_eq!(resp.response_type, ResponseType::RequestError);
    assert_eq!(resp.payload, b"timeout".to_vec());
}

#[test]
fn teardown_fails_every_pending_request_and_discards_later_results() {
    let mut handler = ConnectionHandler::new();
    let mut bytes = request_frame(1, RequestType::GetString, vec![b"a".to_vec()]);
    bytes.extend_from_slice(&request_frame(2, RequestType::GetString, vec![b"b".to_vec()]));
    handler.feed(&bytes);
    handler.next_request().unwrap().unwrap();
    handler.next_request().unwrap().unwrap();

    let reason = b"backend unreachable".to_vec();
    let out = handler.teardown(&reason);
    assert_eq!(out.len(), 2);
    assert_eq!(out[0].callback_index, 1);
    assert_eq!(out[1].callback_index, 2);
    for resp in &out {
        assert_eq!(resp.response_type, ResponseType::ClosingError);
        assert_eq!(resp.payload, reason);
    }
    // a backend result arriving after teardown is discarded
    assert!(handler
        .handle_backend_result(1, CommandOutcome::Nil)
        .is_none());
}

#[test]
fn duplicate_callback_index_is_a_protocol_violation() {
    let mut handler = ConnectionHandler::new();
    let mut bytes = request_frame(6, RequestType::GetString, vec![b"a".to_vec()]);
    bytes.extend_from_slice(&request_frame(6, RequestType::GetString, vec![b"b".to_vec()]));
    handler.feed(&bytes);
    handler.next_request().unwrap().unwrap();
    assert_eq!(
        handler.next_request(),
        Err(ProtocolError::DuplicateCallbackIndex)
    );
    // teardown is owed, and still answers the request that was pending
    let out = handler.teardown(&b"duplicate callback index".to_vec());
    assert_eq!(out.len(), 1);
    assert_eq!(out[0].callback_index, 6);
}

#[test]
fn unknown_request_tag_closes_the_connection() {
    let mut handler = ConnectionHandler::new();
    // frame of a valid length holding tag 9
    let mut bytes = (8u32).to_le_bytes().to_vec();
    bytes.extend_from_slice(&1u32.to_le_bytes());
    bytes.extend_from_slice(&9u32.to_le_bytes());
    handler.feed(&bytes);
    assert_eq!(
        handler.next_request(),
        Err(ProtocolError::UnknownRequestTag)
    );
}

#[test]
fn request_arriving_split_is_served_once_whole() {
    let mut handler = ConnectionHandler::new();
    let bytes = request_frame(3, RequestType::GetString, vec![b"split".to_vec()]);
    handler.feed(&bytes[..2].to_vec());
    assert_eq!(handler.next_request(), Ok(None));
    handler.feed(&bytes[2..7].to_vec());
    assert_eq!(handler.next_request(), Ok(None));
    handler.feed(&bytes[7..].to_vec());
    let req = handler.next_request().unwrap().unwrap();
    assert_eq!(req.callback_index, 3);
    assert_eq!(req.args, vec![b"split".to_vec()]);
}
