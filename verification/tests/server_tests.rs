use smart_home::client::Client;
use smart_home::codec::{decode_response, encode_request};
use smart_home::command::{CommandRequest, CommandResponse, RequestType, ResponseType};
use smart_home::controller::{Command, CommandResponse as ControllerResponse, Controller};
use smart_home::errors::NetworkError;
use smart_home::registry::Registry;
use smart_home::server::{handle_datagram, handle_frame, handle_stream_session};

fn request_frame(request: &CommandRequest) -> String {
    encode_request(request)
}

fn answer(registry: &mut Registry, request: CommandRequest) -> ResponseType {
    let frame = request_frame(&request);
    let out = handle_frame(registry, frame.as_str()).expect("well-formed frame is answered");
    let response = decode_response(out.as_str()).expect("server answers a canonical document");
    match response.response() {
        ResponseType::Success(s) => ResponseType::Success(s.clone()),
        ResponseType::Error(m) => ResponseType::Error(m.clone()),
    }
}

#[test]
fn not_found_every_kind() {
    let mut registry = Registry::new();
    registry.add_socket("present");
    let socket_kinds = [
        RequestType::SocketTurnOn,
        RequestType::SocketTurnOff,
        RequestType::SocketGetState,
    ];
    for kind in socket_kinds {
        let resp = answer(&mut registry, CommandRequest::from_parts("absent", kind));
        assert_eq!(resp, ResponseType::Error("No socket".to_string()));
    }
    let resp = answer(
        &mut registry,
        CommandRequest::from_parts("absent", RequestType::ThermGetTemp),
    );
    assert_eq!(resp, ResponseType::Error("No device".to_string()));
}

#[test]
fn kind_mismatch_through_registry() {
    let mut registry = Registry::new();
    registry.add_socket("sock");
    registry.add_thermometer("therm");
    let resp = answer(&mut registry, CommandRequest::new().therm("sock").get_temp());
    assert_eq!(resp, ResponseType::Error("Wrong request".to_string()));
    let resp = answer(&mut registry, CommandRequest::new().socket("therm").get_state());
    assert_eq!(resp, ResponseType::Error("Wrong request".to_string()));
}

#[test]
fn register_overwrites_silently() {
    let mut registry = Registry::new();
    registry.add_socket("id1");
    let resp = answer(&mut registry, CommandRequest::new().socket("id1").turn_on());
    assert_eq!(resp, ResponseType::Success(String::new()));
    // a fresh socket under the same id starts off again
    registry.add_socket("id1");
    let resp = answer(&mut registry, CommandRequest::new().socket("id1").get_state());
    assert_eq!(
        resp,
        ResponseType::Success("State: off, power consumption 0.0W".to_string())
    );
}

#[test]
fn register_overwrite_changes_kind() {
    let mut registry = Registry::new();
    registry.add_socket("id1");
    registry.add_thermometer("id1");
    // the slot now answers thermometer operations and refuses socket ones
    let resp = answer(&mut registry, CommandRequest::new().therm("id1").get_temp());
    assert!(matches!(resp, ResponseType::Success(_)));
    let resp = answer(&mut registry, CommandRequest::new().socket("id1").turn_on());
    assert_eq!(resp, ResponseType::Error("Wrong request".to_string()));
}

#[test]
fn stream_scenario() {
    let mut registry = Registry::new();
    registry.add_socket("First");
    let frames = vec![
        request_frame(&CommandRequest::new().socket("First").turn_on()),
        request_frame(&CommandRequest::new().socket("First").get_state()),
        request_frame(&CommandRequest::new().socket("Second").get_state()),
        request_frame(&CommandRequest::new().socket("First").turn_off()),
        request_frame(&CommandRequest::new().socket("First").get_state()),
    ];
    let outs = handle_stream_session(&mut registry, &frames);
    assert_eq!(outs.len(), 5);
    let responses: Vec<CommandResponse> = outs
        .iter()
        .map(|o| decode_response(o.as_str()).expect("canonical response"))
        .collect();
    assert_eq!(
        responses[0],
        CommandResponse::new("First", ResponseType::Success(String::new()))
    );
    match responses[1].response() {
        ResponseType::Success(s) => assert!(s.starts_with("State: on, power consumption")),
        ResponseType::Error(_) => panic!("state query failed"),
    }
    assert_eq!(
        responses[2],
        CommandResponse::new("Second", ResponseType::Error("No socket".to_string()))
    );
    assert_eq!(
        responses[3],
        CommandResponse::new("First", ResponseType::Success(String::new()))
    );
    assert_eq!(
        responses[4],
        CommandResponse::new(
            "First",
            ResponseType::Success("State: off, power consumption 0.0W".to_string())
        )
    );
}

#[test]
fn stream_session_stops_at_malformed_frame() {
    let mut registry = Registry::new();
    registry.add_socket("First");
    let frames = vec![
        request_frame(&CommandRequest::new().socket("First").turn_on()),
        "this is not a frame".to_string(),
        request_frame(&CommandRequest::new().socket("First").get_state()),
    ];
    let outs = handle_stream_session(&mut registry, &frames);
    // the session answers the first frame and ends silently at the bad one
    assert_eq!(outs.len(), 1);
    // but the turn-on before the bad frame did happen
    let resp = answer(&mut registry, CommandRequest::new().socket("First").get_state());
    match resp {
        ResponseType::Success(s) => assert!(s.starts_with("State: on, power consumption")),
        ResponseType::Error(_) => panic!("state query failed"),
    }
}

#[test]
fn datagram_scenario() {
    let mut registry = Registry::new();
    registry.add_socket("First");
    let script = [
        CommandRequest::new().socket("First").turn_on(),
        CommandRequest::new().socket("First").get_state(),
        CommandRequest::new().socket("Second").get_state(),
        CommandRequest::new().socket("First").turn_off(),
        CommandRequest::new().socket("First").get_state(),
    ];
    let mut bodies: Vec<ResponseType> = Vec::new();
    for request in script {
        let frame = request_frame(&request);
        let out = handle_datagram(&mut registry, frame.as_str()).expect("answered");
        let response = decode_response(out.as_str()).expect("canonical response");
        match response.response() {
            ResponseType::Success(s) => bodies.push(ResponseType::Success(s.clone())),
            ResponseType::Error(m) => bodies.push(ResponseType::Error(m.clone())),
        }
    }
    assert_eq!(bodies[0], ResponseType::Success(String::new()));
    match &bodies[1] {
        ResponseType::Success(s) => assert!(s.starts_with("State: on, power consumption")),
        ResponseType::Error(_) => panic!("state query failed"),
    }
    assert_eq!(bodies[2], ResponseType::Error("No socket".to_string()));
    assert_eq!(bodies[3], ResponseType::Success(String::new()));
    assert_eq!(
        bodies[4],
        ResponseType::Success("State: off, power consumption 0.0W".to_string())
    );
}

#[test]
fn datagram_server_survives_malformed_packet() {
    let mut registry = Registry::new();
    registry.add_thermometer("123");
    assert!(handle_datagram(&mut registry, "garbage{{{").is_none());
    // the server keeps answering after the bad packet
    let resp = answer(&mut registry, CommandRequest::new().therm("123").get_temp());
    match resp {
        ResponseType::Success(reading) => {
            let celsius = reading.parse::<f64>().expect("temperature is a number");
            assert!((20.0..25.0).contains(&celsius));
        }
        ResponseType::Error(_) => panic!("temperature query failed"),
    }
}

#[test]
fn serialized_switch_runs_keep_last_write() {
    // every serialization of concurrent on/off pairs leaves the socket in the
    // state of the last command in that order
    let runs: [&[bool]; 6] = [
        &[true, false],
        &[false, true],
        &[true, true, false, false],
        &[true, false, true, false],
        &[false, false, true, true],
        &[true, true, true, false, true],
    ];
    for ops in runs {
        let mut registry = Registry::new();
        registry.add_socket("shared");
        for &on in ops {
            let request = if on {
                CommandRequest::new().socket("shared").turn_on()
            } else {
                CommandRequest::new().socket("shared").turn_off()
            };
            let resp = answer(&mut registry, request);
            assert_eq!(resp, ResponseType::Success(String::new()));
        }
        let resp = answer(&mut registry, CommandRequest::new().socket("shared").get_state());
        let last = *ops.last().unwrap();
        match resp {
            ResponseType::Success(s) => {
                if last {
                    assert!(s.starts_with("State: on, power consumption"));
                } else {
                    assert_eq!(s, "State: off, power consumption 0.0W");
                }
            }
            ResponseType::Error(_) => panic!("state query failed"),
        }
    }
}

/// A client whose transport is an in-process registry: what `send` writes is
/// handled at once and `receive` reads the answer back.
struct LoopbackClient {
    registry: Registry,
    pending: Option<String>,
}

impl Client for LoopbackClient {
    fn send(&mut self, request: CommandRequest) -> Result<(), NetworkError> {
        let frame = encode_request(&request);
        match handle_frame(&mut self.registry, frame.as_str()) {
            Some(out) => {
                self.pending = Some(out);
                Ok(())
            }
            None => Err(NetworkError::Serialization("bad frame".to_string())),
        }
    }

    fn receive(&mut self) -> Result<CommandResponse, NetworkError> {
        match self.pending.take() {
            Some(out) => match decode_response(out.as_str()) {
                Some(response) => Ok(response),
                None => Err(NetworkError::Serialization("bad response".to_string())),
            },
            None => Err(NetworkError::Connection("nothing sent".to_string())),
        }
    }
}

#[test]
fn client_get_round_trip() {
    let mut registry = Registry::new();
    registry.add_thermometer("123");
    let mut client = LoopbackClient { registry, pending: None };
    let response = client
        .get(CommandRequest::new().therm("123").get_temp())
        .unwrap();
    assert_eq!(response.id(), "123");
    match response.response() {
        ResponseType::Success(reading) => {
            let celsius = reading.parse::<f64>().expect("temperature is a number");
            assert!((20.0..25.0).contains(&celsius));
        }
        ResponseType::Error(_) => panic!("temperature query failed"),
    }
}

#[test]
fn base_main() {
    let mut server = Controller::new();
    server.add_socket("First");

    // Turn on
    let response = server.s_turn_on("First");
    assert_eq!(response, Ok(()));

    // Get state
    let response = server.s_get_state("First").unwrap();
    // compare only beginning of messages (message from server contains random value)
    assert!(response.starts_with("State: on, power consumption"));

    // Get state from non existing device
    let response = server.s_get_state("Second");
    assert_eq!(response, Err("No socket".to_string()));

    // Turn off socket and get state
    server.s_turn_off("First").unwrap();
    let response = server.s_get_state("First").unwrap();
    assert_eq!(response, "State: off, power consumption 0.0W".to_string());
}

#[test]
fn controller_commands() {
    let mut server = Controller::new();
    server.add_socket("First");
    server.add_thermometer("T1");
    let r = server.process_command(&Command::SocketTurnOn {
        id: "First".to_string(),
    });
    assert!(matches!(r, ControllerResponse::SocketTurnOn(Ok(()))));
    let r = server.process_command(&Command::SocketGetState {
        id: "First".to_string(),
    });
    match r {
        ControllerResponse::SocketGetState(Ok(s)) => {
            assert!(s.starts_with("State: on, power consumption"))
        }
        _ => panic!("state query failed"),
    }
    let r = server.process_command(&Command::SocketTurnOff {
        id: "Missing".to_string(),
    });
    match r {
        ControllerResponse::SocketTurnOff(Err(m)) => assert_eq!(m, "No socket"),
        _ => panic!("missing socket must be refused"),
    }
}

#[test]
fn network_error_messages() {
    assert_eq!(
        NetworkError::Connection("x".to_string()).message(),
        "Connection error".to_string()
    );
    assert_eq!(
        NetworkError::Serialization("x".to_string()).message(),
        "Error serializing/deserializing data".to_string()
    );
    assert_eq!(
        NetworkError::Other("boom".to_string()).message(),
        "boom".to_string()
    );
}
