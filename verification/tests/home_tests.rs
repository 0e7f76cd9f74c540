use smart_home::home::{SmartHome, SmartHomeError};

#[test]
fn test_rooms() {
    let mut h = SmartHome::new("My home");
    h.add_room("Guestroom").unwrap();
    h.add_room("Bathroom").unwrap();
    assert_eq!(
        h.get_rooms(),
        vec!["Bathroom".to_string(), "Guestroom".to_string()]
    )
}

#[test]
fn test_devices() {
    let mut h = SmartHome::new("My home");
    h.add_room("Guestroom").unwrap();
    h.add_device("Guestroom", "Thermometer").unwrap();
    h.add_device("Guestroom", "Socket").unwrap();
    assert_eq!(
        h.devices("Guestroom").unwrap(),
        vec!["Socket".to_string(), "Thermometer".to_string()]
    )
}

#[test]
/// Try to add room with existing name returns error
fn test_add_room() {
    let mut h = SmartHome::new("My home");
    // Ok if first room
    assert_eq!(h.add_room("Oneroom"), Ok(()));
    // Error if name already exists
    assert_eq!(
        h.add_room("Oneroom"),
        Err(SmartHomeError::DupRoom("Oneroom".to_string()))
    );
}

#[test]
/// Try to add room with existing name returns error
fn test_remove_room() {
    let mut h = SmartHome::new("My home");
    h.add_room("Oneroom").unwrap();
    assert_eq!(h.remove_room("Oneroom"), Ok(()));
    // Error if no such room
    assert_eq!(
        h.remove_room("Oneroom"),
        Err(SmartHomeError::NoRoom("Oneroom".to_string()))
    );
}

#[test]
/// Try to add device with existing name within a room returns error
fn home_test_add_device() {
    let mut h = SmartHome::new("My home");
    // Ok if first device
    assert_eq!(h.add_device("Oneroom", "mydevice"), Ok(()));
    // Error if name already exists
    assert_eq!(
        h.add_device("Oneroom", "mydevice"),
        Err(SmartHomeError::DupDevice {
            device: "mydevice".to_string(),
            room: "Oneroom".to_string()
        })
    );
}

#[test]
fn test_remove_device() {
    let mut h = SmartHome::new("My home");
    h.add_device("Oneroom", "mydevice").unwrap();
    assert_eq!(h.remove_device("Oneroom", "mydevice"), Ok(()));
    // if no such device return error
    assert_eq!(
        h.remove_device("Oneroom", "mydevice"),
        Err(SmartHomeError::NoDevice {
            room: "Oneroom".to_string(),
            device: "mydevice".to_string()
        })
    )
}

#[test]
fn remove_device_from_missing_room() {
    let mut h = SmartHome::new("My home");
    assert_eq!(
        h.remove_device("Nowhere", "mydevice"),
        Err(SmartHomeError::NoRoom("Nowhere".to_string()))
    );
    assert_eq!(
        h.devices("Nowhere"),
        Err(SmartHomeError::NoRoom("Nowhere".to_string()))
    );
}

#[test]
fn report_on_empty_home_refused() {
    let h = SmartHome::new("My home");
    let provider = smart_home::sources::DeviceSource::new();
    match h.create_report(&provider) {
        Err(SmartHomeError::NoRooms) => {}
        _ => panic!("empty home must refuse a report"),
    }
}

#[test]
fn error_messages() {
    assert_eq!(
        SmartHomeError::NoRooms.message(),
        "No rooms in home".to_string()
    );
    assert_eq!(
        SmartHomeError::DupRoom("Oneroom".to_string()).message(),
        "Room Oneroom already exists".to_string()
    );
    assert_eq!(
        SmartHomeError::NoRoom("Oneroom".to_string()).message(),
        "No such room Oneroom".to_string()
    );
    assert_eq!(
        SmartHomeError::DupDevice {
            room: "Oneroom".to_string(),
            device: "d".to_string()
        }
        .message(),
        "Device d already exists in the room Oneroom".to_string()
    );
    assert_eq!(
        SmartHomeError::NoDevice {
            room: "Oneroom".to_string(),
            device: "d".to_string()
        }
        .message(),
        "No device d in the room Oneroom".to_string()
    );
}
