use smart_home::home::SmartHome;
use smart_home::socket::Socket;
use smart_home::sources::{create_provider, DeviceSource, DeviceSourceError};
use smart_home::DeviceInfoProvider;

#[test]
/// If device exists return error
fn sources_test_add_device() {
    let mut s = DeviceSource::new();
    let result = s.add_device("Socket-1", "Guestroom", "Socket-1 state description");
    assert_eq!(result, Ok(()));
    let result = s.add_device("Socket-1", "Guestroom", "Socket-1 state description");
    assert_eq!(
        result,
        Err(DeviceSourceError::DupDevice {
            device: "Socket-1".to_string(),
            room: "Guestroom".to_string()
        })
    );
}

#[test]
fn test_get_info() {
    let mut s = DeviceSource::new();
    s.add_device("Socket-1", "Guestroom", "Socket-1 state description")
        .unwrap();

    assert_eq!(
        s.get_info("Guestroom", "Socket-1"),
        "Guestroom           Socket-1            Socket-1 state description"
    );
    assert_eq!(
        s.get_info("Kitchen", "Socket-2"),
        "Kitchen             Socket-2            Error connecting device"
    );
}

#[test]
fn test_report() {
    let socket1 = Socket::new("Smart Socket v1.0");
    let mut house = SmartHome::new("City home");
    house.add_device("guestroom", "Thermometer1").unwrap();
    house.add_device("bedroom", "Socket1").unwrap();

    let mut info_provider1 = DeviceSource::new();
    info_provider1
        .add_device("Socket1", "bedroom", socket1.state_report().as_str())
        .unwrap();
    let report1 = house.create_report(&info_provider1).unwrap();

    assert_eq!(
        report1.to_string(),
        "Report for City home smart home

bedroom             Socket1             State: off, power consumption 0.0W
guestroom           Thermometer1        Error connecting device
"
    )
}

#[test]
fn provider_holds_live_status_lines() {
    let provider = create_provider();
    let line = provider.get_info("Guestroom", "Socket");
    assert!(line.starts_with("Guestroom           Socket              State: on, power consumption"));
    let line = provider.get_info("Bathroom", "Thermometer");
    assert_eq!(line, "Bathroom            Thermometer         State: off");
}

#[test]
fn source_error_message() {
    let e = DeviceSourceError::DupDevice {
        device: "Socket-1".to_string(),
        room: "Guestroom".to_string(),
    };
    assert_eq!(
        e.message(),
        "Device Socket-1 already exists in the room Guestroom".to_string()
    );
}
