use smart_home::client::parse_response;
use smart_home::command::{CommandRequest, ResponseType};
use smart_home::device::Device;
use smart_home::socket::{Socket, SocketError};
use smart_home::therm::Thermometer;

fn power_of(report: &str) -> f64 {
    let word = parse_response(report).expect("status line has a power figure");
    let digits = word.strip_suffix('W').expect("power figure ends in W");
    digits.parse::<f64>().expect("power figure is a number")
}

#[test]
fn socket_test_display() {
    let t = Socket::new("Test");
    assert_eq!(
        t.state_report(),
        "State: off, power consumption 0.0W".to_string()
    );
}

#[test]
fn therm_test_display() {
    let t = Thermometer::new("therm_123");
    assert_eq!(t.state_report(), "State: off".to_string());
}

#[test]
fn socket_turn_on_idempotent() {
    let mut s = Socket::new("s1");
    assert!(s.turn_on().is_ok());
    let first = s.state_report();
    assert!(first.starts_with("State: on, power consumption"));
    assert!(s.turn_on().is_ok());
    let second = s.state_report();
    assert!(second.starts_with("State: on, power consumption"));
    assert!(s.turn_off().is_ok());
    assert!(s.turn_off().is_ok());
    assert_eq!(s.state_report(), "State: off, power consumption 0.0W".to_string());
}

#[test]
fn power_draw_bounds() {
    let mut s = Socket::new("s1");
    s.turn_on().unwrap();
    for _ in 0..1000 {
        let report = s.state_report();
        let p = power_of(&report);
        assert!((20.0..1000.0).contains(&p), "power {p} out of bounds");
    }
    s.turn_off().unwrap();
    for _ in 0..1000 {
        assert_eq!(s.state_report(), "State: off, power consumption 0.0W".to_string());
    }
}

#[test]
fn power_consuption_bounds() {
    let mut s = Socket::new("s1");
    assert_eq!(s.power_consuption(), 0);
    s.turn_on().unwrap();
    for _ in 0..1000 {
        let tenths = s.power_consuption();
        assert!((200..10000).contains(&tenths), "tenths {tenths} out of bounds");
    }
}

#[test]
fn temperature_bounds() {
    let mut t = Thermometer::new("t1");
    for _ in 0..1000 {
        let tenths = t.get_temperature().unwrap();
        assert!((200..250).contains(&tenths), "tenths {tenths} out of bounds");
        let celsius = tenths as f64 / 10.0;
        assert!((20.0..25.0).contains(&celsius));
    }
    t.turn_on().unwrap();
    let tenths = t.get_temperature().unwrap();
    assert!((200..250).contains(&tenths));
}

#[test]
fn process_kind_mismatch() {
    let mut s = Socket::new("sock");
    let resp = s.process(CommandRequest::new().therm("sock").get_temp());
    assert_eq!(
        *resp.response(),
        ResponseType::Error("Wrong request".to_string())
    );
    let mut t = Thermometer::new("therm");
    let resp = t.process(CommandRequest::new().socket("therm").get_state());
    assert_eq!(
        *resp.response(),
        ResponseType::Error("Wrong request".to_string())
    );
}

#[test]
fn process_id_mismatch() {
    let mut s = Socket::new("sock");
    let resp = s.process(CommandRequest::new().socket("other").turn_on());
    assert_eq!(resp.id(), "other");
    assert_eq!(
        *resp.response(),
        ResponseType::Error("id mismatch".to_string())
    );
    assert_eq!(s.state_report(), "State: off, power consumption 0.0W".to_string());
}

#[test]
fn process_switches_and_reports() {
    let mut s = Socket::new("sock");
    let resp = s.process(CommandRequest::new().socket("sock").turn_on());
    assert_eq!(*resp.response(), ResponseType::Success(String::new()));
    let resp = s.process(CommandRequest::new().socket("sock").get_state());
    match resp.response() {
        ResponseType::Success(line) => {
            assert!(line.starts_with("State: on, power consumption"))
        }
        ResponseType::Error(_) => panic!("state query failed"),
    }
    let mut t = Thermometer::new("therm");
    let resp = t.process(CommandRequest::new().therm("therm").get_temp());
    match resp.response() {
        ResponseType::Success(reading) => {
            let celsius = reading.parse::<f64>().expect("temperature is a number");
            assert!((20.0..25.0).contains(&celsius));
        }
        ResponseType::Error(_) => panic!("temperature query failed"),
    }
}

#[test]
fn socket_error_messages() {
    assert_eq!(SocketError::DeviceErrorState.message(), "DeviceErrorState".to_string());
    assert_eq!(
        SocketError::MaxVoltageExceed.message(),
        "Max voltage value 250V excceed".to_string()
    );
}

#[test]
fn parse_response_picks_last_word() {
    assert_eq!(
        parse_response("State: on, power consumption 43.5W"),
        Some("43.5W")
    );
    assert_eq!(parse_response("word"), None);
    assert_eq!(parse_response(""), None);
}
