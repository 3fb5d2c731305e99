use smart_house::clever_house::CleverHouse;
use smart_house::smart_house::clever_room::clever_device::CleverDevice;
use smart_house::smart_house::clever_room::CleverRoom;
use smart_house::smart_house::errors::SmartHouseErrors;
use smart_house::smart_house::smart_room::electric_socket::ElectricSocket;
use smart_house::smart_house::smart_room::smart_device::SmartDevice;
use smart_house::smart_house::smart_room::thermometer::Thermometer;
use smart_house::smart_house::smart_room::SmartRoom;
use smart_house::smart_house::SmartHouse;

fn socket(name: &str) -> CleverDevice {
    CleverDevice::ElecticSocket(ElectricSocket::new(String::from(name)).ok().expect("valid name"))
}

fn thermometer(name: &str) -> CleverDevice {
    CleverDevice::Thermometer(Thermometer::new(String::from(name)).ok().expect("valid name"))
}

fn clever_house() -> CleverHouse {
    let mut house = CleverHouse::new(String::from("Clever House #1")).ok().expect("valid name");
    let mut room = CleverRoom::new(String::from("Clever Room #1")).ok().expect("valid name");
    room.add(socket("Electric socket #2")).ok().expect("valid device");
    room.add(socket("Electric socket #1")).ok().expect("valid device");
    room.add(thermometer("Thermometer #1")).ok().expect("valid device");
    if let Some(CleverDevice::ElecticSocket(s)) = room.get_mut("Electric socket #2") {
        s.on();
    }
    house.add(room).ok().expect("valid room");
    house
}

#[test]
fn short_names_are_refused() {
    assert!(matches!(SmartHouse::new(String::from("House")), Err(SmartHouseErrors::InvalidHouseName)));
    assert!(matches!(CleverHouse::new(String::from("1234567")), Err(SmartHouseErrors::InvalidHouseName)));
    assert!(CleverHouse::new(String::from("12345678")).is_ok());
    assert!(matches!(SmartRoom::new(String::from("Room")), Err(SmartHouseErrors::InvalidRoomName)));
    assert!(matches!(CleverRoom::new(String::from("Room")), Err(SmartHouseErrors::InvalidRoomName)));
    assert!(matches!(ElectricSocket::new(String::from("Socket")), Err(SmartHouseErrors::InvalidDeviceIdentity)));
    assert!(matches!(Thermometer::new(String::from("Thermo")), Err(SmartHouseErrors::InvalidDeviceIdentity)));
}

#[test]
fn name_length_counts_bytes() {
    // Four characters of two bytes each.
    assert!(ElectricSocket::new(String::from("\u{e9}\u{e9}\u{e9}\u{e9}")).is_ok());
    assert!(Thermometer::new(String::from("\u{e9}\u{e9}\u{e9}")).is_err());
}

#[test]
fn socket_off_clears_power() {
    let mut s = ElectricSocket::new(String::from("Electric socket #1")).ok().expect("valid name");
    s.on();
    assert!(s.status());
    s.off();
    assert!(!s.status());
    assert_eq!(s.power_consumption(), 0);
}

#[test]
fn thermometer_reports_negative_values() {
    let mut t = Thermometer::new(String::from("Thermometer #1")).ok().expect("valid name");
    t.set_temperature(-5);
    assert_eq!(t.temperature(), -5);
    assert_eq!(t.info(), "Thermometer: Thermometer #1 Value: -5");
    t.set_temperature(i8::MIN);
    assert_eq!(t.info(), "Thermometer: Thermometer #1 Value: -128");
}

#[test]
fn clever_house_reports_rooms_in_name_order() {
    let house = clever_house();
    assert_eq!(
        house.info(),
        "House 'Clever House #1'\nElectric socket: Electric socket #1 State: OFF\nElectric socket: Electric socket #2 State: ON Consumption power: 0\nThermometer: Thermometer #1 Value: 0\n"
    );
    assert_eq!(house.info_rooms(), "Room: Clever Room #1\n");
    assert_eq!(house.list(), vec![String::from("Clever Room #1")]);
}

#[test]
fn clever_house_device_status_and_errors() {
    let house = clever_house();
    assert_eq!(
        house.device_status("Clever Room #1", "Electric socket #2").ok().expect("found"),
        "Room Clever Room #1 Device status Electric socket: Electric socket #2 State: ON Consumption power: 0"
    );
    match house.device_status("Clever Room #9", "Electric socket #2") {
        Err(SmartHouseErrors::RoomNotFound(room)) => assert_eq!(room, "Clever Room #9"),
        _ => panic!("room should be missing"),
    }
    match house.device_status("Clever Room #1", "Electric socket #9") {
        Err(SmartHouseErrors::DeviceNotFound((room, device))) => {
            assert_eq!(room, "Clever Room #1");
            assert_eq!(device, "Electric socket #9");
        }
        _ => panic!("device should be missing"),
    }
}

#[test]
fn smart_house_device_status_ends_line() {
    let mut house = SmartHouse::new(String::from("Smart House #1")).ok().expect("valid name");
    let mut room = SmartRoom::new(String::from("Smart Room #1")).ok().expect("valid name");
    room.add(thermometer("Thermometer #1")).ok().expect("valid device");
    house.add(room).ok().expect("valid room");
    assert_eq!(
        house.device_status("Smart Room #1", "Thermometer #1").ok().expect("found"),
        "Room Smart Room #1 Device status Thermometer: Thermometer #1 Value: 0\n"
    );
    assert!(matches!(
        house.device_status("Smart Room #2", "Thermometer #1"),
        Err(SmartHouseErrors::RoomNotFound(_))
    ));
}

#[test]
fn adding_same_name_replaces_device() {
    let mut room = CleverRoom::new(String::from("Clever Room #1")).ok().expect("valid name");
    room.add(socket("Device #0001")).ok().expect("valid device");
    room.add(thermometer("Device #0001")).ok().expect("valid device");
    assert_eq!(room.list(), vec![String::from("Device #0001")]);
    assert_eq!(room.info(), "Thermometer: Device #0001 Value: 0\n");
}

#[test]
fn rooms_list_sorted_and_removal_works() {
    let mut room = SmartRoom::new(String::from("Smart Room #1")).ok().expect("valid name");
    room.add(thermometer("Thermometer #2")).ok().expect("valid device");
    room.add(socket("Electric socket #1")).ok().expect("valid device");
    room.add(thermometer("Thermometer #1")).ok().expect("valid device");
    assert_eq!(
        room.list(),
        vec![
            String::from("Electric socket #1"),
            String::from("Thermometer #1"),
            String::from("Thermometer #2"),
        ]
    );
    assert_eq!(room.get("Thermometer #2").map(|d| d.identity().clone()), Some(String::from("Thermometer #2")));
    assert!(room.get("Thermometer #3").is_none());
    assert!(room.rem("Thermometer #3").is_none());
    assert_eq!(room.rem("Thermometer #1").map(|d| d.identity().clone()), Some(String::from("Thermometer #1")));
    assert_eq!(room.list().len(), 2);
}

#[test]
fn clever_house_get_and_remove_rooms() {
    let mut house = clever_house();
    assert!(house.get("Clever Room #1").is_some());
    if let Some(room) = house.get_mut("Clever Room #1") {
        assert!(room.rem("Thermometer #1").is_some());
        assert!(room.get("Thermometer #1").is_none());
    }
    assert_eq!(house.list().len(), 1);
    assert!(house.rem("Clever Room #1").is_some());
    assert!(house.rem("Clever Room #1").is_none());
    assert_eq!(house.info(), "House 'Clever House #1'\n");
}
