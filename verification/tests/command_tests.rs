use smart_home::codec::{decode_request, decode_response, encode_request, encode_response};
use smart_home::command::{CommandRequest, CommandResponse, RequestType, ResponseType};

#[test]
fn command_request() {
    let request = CommandRequest::new().socket("socket_123").get_state();
    assert_eq!(request.id(), "socket_123");
    assert!(matches!(request.req_type(), RequestType::SocketGetState));
}

#[test]
fn builder_kinds() {
    let r = CommandRequest::new().socket("s").turn_on();
    assert!(matches!(r.req_type(), RequestType::SocketTurnOn));
    let r = CommandRequest::new().socket("s").turn_off();
    assert!(matches!(r.req_type(), RequestType::SocketTurnOff));
    let r = CommandRequest::new().therm("t").get_temp();
    assert!(matches!(r.req_type(), RequestType::ThermGetTemp));
    assert_eq!(r.id(), "t");
}

#[test]
fn request_round_trip_every_kind() {
    let kinds = [
        RequestType::SocketTurnOn,
        RequestType::SocketTurnOff,
        RequestType::SocketGetState,
        RequestType::ThermGetTemp,
    ];
    for kind in kinds {
        let request = CommandRequest::from_parts("device-1", kind);
        let encoded = encode_request(&request);
        let decoded = decode_request(encoded.as_str()).expect("canonical document decodes");
        assert_eq!(decoded.id(), "device-1");
        assert_eq!(*decoded.req_type(), kind);
    }
}

#[test]
fn request_round_trip_escaped_id() {
    let id = "we\"ird\\id";
    let request = CommandRequest::from_parts(id, RequestType::SocketTurnOn);
    let encoded = encode_request(&request);
    let decoded = decode_request(encoded.as_str()).expect("escaped id decodes");
    assert_eq!(decoded.id(), id);
}

#[test]
fn response_round_trip() {
    let cases = [
        ResponseType::Success(String::new()),
        ResponseType::Success("State: off, power consumption 0.0W".to_string()),
        ResponseType::Error("No socket".to_string()),
        ResponseType::Error("Wrong request".to_string()),
    ];
    for case in cases {
        let expected = match &case {
            ResponseType::Success(s) => ResponseType::Success(s.clone()),
            ResponseType::Error(s) => ResponseType::Error(s.clone()),
        };
        let response = CommandResponse::new("dev", case);
        let encoded = encode_response(&response);
        let decoded = decode_response(encoded.as_str()).expect("canonical document decodes");
        assert_eq!(decoded, CommandResponse::new("dev", expected));
    }
}

#[test]
fn malformed_documents_refused() {
    assert!(decode_request("").is_none());
    assert!(decode_request("{}").is_none());
    assert!(decode_request("{\"id\":\"a\"}").is_none());
    assert!(decode_request("{\"id\":\"a\",\"request\":\"Nonsense\"}").is_none());
    assert!(decode_request("{\"id\":\"a\",\"request\":\"SocketTurnOn\"} ").is_none());
    assert!(decode_response("{\"id\":\"a\",\"response\":{\"Maybe\":\"x\"}}").is_none());
    assert!(decode_response("{\"id\":\"a\",\"response\":{\"Success\":\"x\"}").is_none());
}

#[test]
fn wire_format_matches_field_tagged_json() {
    let request = CommandRequest::from_parts("socket_123", RequestType::ThermGetTemp);
    let encoded = encode_request(&request);
    let v: serde_json::Value = serde_json::from_str(&encoded).expect("valid json");
    assert_eq!(v["id"], "socket_123");
    assert_eq!(v["request"], "ThermGetTemp");

    let response = CommandResponse::new("socket_123", ResponseType::Success("ok".to_string()));
    let encoded = encode_response(&response);
    let v: serde_json::Value = serde_json::from_str(&encoded).expect("valid json");
    assert_eq!(v["id"], "socket_123");
    assert_eq!(v["response"]["Success"], "ok");

    let response = CommandResponse::new("x", ResponseType::Error("No socket".to_string()));
    let encoded = encode_response(&response);
    let v: serde_json::Value = serde_json::from_str(&encoded).expect("valid json");
    assert_eq!(v["response"]["Err"], "No socket");
}

#[test]
fn wire_format_escapes_quotes() {
    let request = CommandRequest::from_parts("a\"b\\c", RequestType::SocketTurnOn);
    let encoded = encode_request(&request);
    let v: serde_json::Value = serde_json::from_str(&encoded).expect("valid json");
    assert_eq!(v["id"], "a\"b\\c");
}

#[test]
fn response_success_helper() {
    let r = CommandResponse::new("d", ResponseType::Success("payload".to_string()));
    assert_eq!(r.success(), Some("payload".to_string()));
    let r = CommandResponse::new("d", ResponseType::Error("No socket".to_string()));
    assert_eq!(r.success(), None);
}

#[test]
fn request_from_bytes() {
    let request = CommandRequest::from_parts("socket_123", RequestType::SocketGetState);
    let encoded = encode_request(&request);
    let decoded = CommandRequest::request_from(encoded.as_bytes()).expect("bytes decode");
    assert_eq!(decoded.id(), "socket_123");
    assert_eq!(*decoded.req_type(), RequestType::SocketGetState);

    assert!(CommandRequest::request_from(&[0xff, 0xfe]).is_err());
    assert!(CommandRequest::request_from(b"not a frame").is_err());
}
