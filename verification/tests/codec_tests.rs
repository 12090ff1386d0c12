use glide_core::codec::{
    HEADER_LENGTH_IN_BYTES, MAX_FRAME_LENGTH, decode_request, decode_response, encode_request,
    encode_response,
};
use glide_core::errors::ProtocolError;
use glide_core::protocol::{
    Request, RequestType, Response, ResponseType, request_of_tag, request_tag, response_of_tag,
    response_tag,
};

fn frame_payload(frame: &[u8]) -> Vec<u8> {
    frame[HEADER_LENGTH_IN_BYTES as usize..].to_vec()
}

#[test]
fn request_round_trip_simple() {
    let req = Request {
        callback_index: 7,
        request_type: RequestType::GetString,
        args: vec![b"a".to_vec()],
    };
    let frame = encode_request(&req).unwrap();
    let decoded = decode_request(&frame_payload(&frame)).unwrap();
    assert_eq!(decoded, req);
}

#[test]
fn request_round_trip_no_args() {
    let req = Request {
        callback_index: 0,
        request_type: RequestType::ServerAddress,
        args: vec![],
    };
    let frame = encode_request(&req).unwrap();
    let decoded = decode_request(&frame_payload(&frame)).unwrap();
    assert_eq!(decoded, req);
}

#[test]
fn request_round_trip_empty_and_multi_args() {
    let req = Request {
        callback_index: u32::MAX,
        request_type: RequestType::SetString,
        args: vec![vec![], b"key".to_vec(), vec![], b"value".to_vec()],
    };
    let frame = encode_request(&req).unwrap();
    let decoded = decode_request(&frame_payload(&frame)).unwrap();
    assert_eq!(decoded, req);
}

#[test]
fn response_round_trip_empty_payload() {
    let resp = Response {
        callback_index: 3,
        response_type: ResponseType::Null,
        payload: vec![],
    };
    let frame = encode_response(&resp).unwrap();
    let decoded = decode_response(&frame_payload(&frame)).unwrap();
    assert_eq!(decoded, resp);
}

#[test]
fn response_round_trip_max_payload() {
    let max_payload = (MAX_FRAME_LENGTH - 8) as usize;
    let resp = Response {
        callback_index: 9,
        response_type: ResponseType::String,
        payload: vec![0xabu8; max_payload],
    };
    let frame = encode_response(&resp).unwrap();
    assert_eq!(frame.len(), HEADER_LENGTH_IN_BYTES as usize + 8 + max_payload);
    let decoded = decode_response(&frame_payload(&frame)).unwrap();
    assert_eq!(decoded, resp);
}

#[test]
fn response_over_max_is_rejected() {
    let resp = Response {
        callback_index: 9,
        response_type: ResponseType::String,
        payload: vec![0u8; (MAX_FRAME_LENGTH - 8) as usize + 1],
    };
    assert_eq!(encode_response(&resp), Err(ProtocolError::FrameTooLarge));
}

#[test]
fn request_over_max_is_rejected() {
    let req = Request {
        callback_index: 1,
        request_type: RequestType::SetString,
        args: vec![vec![0u8; MAX_FRAME_LENGTH as usize]],
    };
    assert_eq!(encode_request(&req), Err(ProtocolError::FrameTooLarge));
}

#[test]
fn exact_wire_bytes() {
    let req = Request {
        callback_index: 1,
        request_type: RequestType::GetString,
        args: vec![b"a".to_vec()],
    };
    let frame = encode_request(&req).unwrap();
    let expected = vec![
        13, 0, 0, 0, // frame length: 8-byte header + 5-byte argument section
        1, 0, 0, 0, // callback index
        2, 0, 0, 0, // get-string tag
        1, 0, 0, 0, // argument length
        b'a',
    ];
    assert_eq!(frame, expected);
}

#[test]
fn short_payload_is_too_short() {
    assert_eq!(
        decode_request(&vec![1, 2, 3]),
        Err(ProtocolError::MessageTooShort)
    );
    assert_eq!(
        decode_response(&vec![0; 7]),
        Err(ProtocolError::MessageTooShort)
    );
}

#[test]
fn unknown_tags_are_rejected() {
    // callback index 0, tag 77
    let payload = vec![0, 0, 0, 0, 77, 0, 0, 0];
    assert_eq!(
        decode_request(&payload),
        Err(ProtocolError::UnknownRequestTag)
    );
    assert_eq!(
        decode_response(&payload),
        Err(ProtocolError::UnknownResponseTag)
    );
}

#[test]
fn malformed_arguments_are_rejected() {
    // valid header, then an argument declaring 9 bytes with only 1 present
    let payload = vec![0, 0, 0, 0, 2, 0, 0, 0, 9, 0, 0, 0, b'x'];
    assert_eq!(
        decode_request(&payload),
        Err(ProtocolError::MalformedArguments)
    );
    // a dangling partial length prefix
    let payload = vec![0, 0, 0, 0, 2, 0, 0, 0, 1];
    assert_eq!(
        decode_request(&payload),
        Err(ProtocolError::MalformedArguments)
    );
}

#[test]
fn tag_values_match_the_wire_enums() {
    assert_eq!(request_tag(RequestType::ServerAddress), 1);
    assert_eq!(request_tag(RequestType::GetString), 2);
    assert_eq!(request_tag(RequestType::SetString), 3);
    assert_eq!(response_tag(ResponseType::Null), 0);
    assert_eq!(response_tag(ResponseType::String), 1);
    assert_eq!(response_tag(ResponseType::RequestError), 2);
    assert_eq!(response_tag(ResponseType::ClosingError), 3);
    assert_eq!(request_of_tag(2), Some(RequestType::GetString));
    assert_eq!(request_of_tag(4), None);
    assert_eq!(response_of_tag(3), Some(ResponseType::ClosingError));
    assert_eq!(response_of_tag(4), None);
}
