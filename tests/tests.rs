use smart_house::smart_house::clever_room::clever_device::CleverDevice;
use smart_house::smart_house::smart_room::electric_socket::ElectricSocket;
use smart_house::smart_house::smart_room::smart_device::SmartDevice;
use smart_house::smart_house::smart_room::thermometer::Thermometer;
use smart_house::smart_house::smart_room::SmartRoom;
use smart_house::smart_house::SmartHouse;

fn socket(name: &str) -> ElectricSocket {
    match ElectricSocket::new(String::from(name)) {
        Ok(device) => device,
        Err(e) => panic!("{:?}", e),
    }
}

fn thermometer(name: &str) -> Thermometer {
    match Thermometer::new(String::from(name)) {
        Ok(device) => device,
        Err(e) => panic!("{:?}", e),
    }
}

fn room(name: &str) -> SmartRoom {
    match SmartRoom::new(String::from(name)) {
        Ok(room) => room,
        Err(e) => panic!("{:?}", e),
    }
}

fn house(name: &str) -> SmartHouse {
    match SmartHouse::new(String::from(name)) {
        Ok(house) => house,
        Err(e) => panic!("{:?}", e),
    }
}

fn add(room: &mut SmartRoom, device: CleverDevice) {
    if let Err(e) = room.add(device) {
        panic!("{:?}", e)
    }
}

#[test]
fn test_electric_socket_off_report() {
    let device = Box::new(socket("Electric socket #1"));
    let device_info = device.info();
    assert_eq!("Electric socket: Electric socket #1 State: OFF", device_info);
}

#[test]
fn test_electric_socket_on_report() {
    let mut device = Box::new(socket("Electric socket #1"));
    device.on();
    let device_info = device.info();
    assert_eq!(
        "Electric socket: Electric socket #1 State: ON Consumption power: 0",
        device_info
    );
}

#[test]
fn test_thermometer_initial_report() {
    let device = Box::new(thermometer("Thermometer #1"));
    let device_info = device.info();
    assert_eq!("Thermometer: Thermometer #1 Value: 0", device_info);
}

#[test]
fn test_thermometer_onaction_report() {
    let mut device = Box::new(thermometer("Thermometer #1"));
    device.set_temperature(25);
    let device_info = device.info();
    assert_eq!("Thermometer: Thermometer #1 Value: 25", device_info);
}

#[test]
fn test_smart_room_init_report() {
    let room = room("Smart Room #1");
    let room_info = room.info();
    assert_eq!("", room_info);
}

#[test]
fn test_smart_room_onaction_report() {
    let mut room = room("Smart Room #1");
    add(&mut room, CleverDevice::ElecticSocket(socket("Electric socket #1")));
    add(&mut room, CleverDevice::Thermometer(thermometer("Thermometer #1")));
    let room_info = room.info();
    assert_eq!(
        "Electric socket: Electric socket #1 State: OFF\nThermometer: Thermometer #1 Value: 0\n",
        room_info
    );
}

#[test]
fn test_smart_house_init_report() {
    let house = house("Smart House");
    let info = house.info();
    assert_eq!("House Smart House\n", info);
}

#[test]
fn test_smart_house_onaction_report() {
    let mut house = house("Smart House");
    let mut room1 = room("Smart Room #1");
    add(&mut room1, CleverDevice::ElecticSocket(socket("Electric socket #1")));
    add(&mut room1, CleverDevice::Thermometer(thermometer("Thermometer #1")));
    let mut room2 = room("Smart Room #2");
    if let Err(e) = house.add(room1) {
        panic!("{:?}", e)
    }
    add(&mut room2, CleverDevice::ElecticSocket(socket("Electric socket #1")));
    add(&mut room2, CleverDevice::Thermometer(thermometer("Thermometer #1")));
    if let Err(e) = house.add(room2) {
        panic!("{:?}", e)
    }
    let info = house.info();
    assert_eq!("House Smart House\nRoom: Smart Room #1\nElectric socket: Electric socket #1 State: OFF\nThermometer: Thermometer #1 Value: 0\nRoom: Smart Room #2\nElectric socket: Electric socket #1 State: OFF\nThermometer: Thermometer #1 Value: 0\n", info);
}

#[test]
fn tests_test_electric_socket_off_report() {
    let device = Box::new(socket("Electric socket #1"));
    let device_info = device.info();
    assert_eq!("Electric socket: Electric socket #1 State: OFF", device_info);
}

#[test]
fn tests_test_electric_socket_on_report() {
    let mut device = Box::new(socket("Electric socket #1"));
    device.on();
    let device_info = device.info();
    assert_eq!(
        "Electric socket: Electric socket #1 State: ON Consumption power: 0",
        device_info
    );
}

#[test]
fn tests_test_thermometer_initial_report() {
    let device = Box::new(thermometer("Thermometer #1"));
    let device_info = device.info();
    assert_eq!("Thermometer: Thermometer #1 Value: 0", device_info);
}

#[test]
fn tests_test_thermometer_onaction_report() {
    let mut device = Box::new(thermometer("Thermometer #1"));
    device.set_temperature(25);
    let device_info = device.info();
    assert_eq!("Thermometer: Thermometer #1 Value: 25", device_info);
}

#[test]
fn tests_test_smart_room_init_report() {
    let room = room("Smart Room #1");
    let room_info = room.info();
    assert_eq!("", room_info);
}

#[test]
fn tests_test_smart_room_onaction_report() {
    let mut room = room("Smart Room #1");
    add(&mut room, CleverDevice::ElecticSocket(socket("Electric socket #1")));
    add(&mut room, CleverDevice::Thermometer(thermometer("Thermometer #1")));
    let room_info = room.info();
    assert_eq!(
        "Electric socket: Electric socket #1 State: OFF\nThermometer: Thermometer #1 Value: 0\n",
        room_info
    );
}

#[test]
fn tests_test_smart_house_init_report() {
    let house = house("Smart House");
    let info = house.info();
    assert_eq!("House Smart House\n", info);
}

#[test]
fn tests_test_smart_house_onaction_report() {
    let mut house = house("Smart House");
    let mut room1 = room("Smart Room #1");
    add(&mut room1, CleverDevice::ElecticSocket(socket("Electric socket #1")));
    add(&mut room1, CleverDevice::Thermometer(thermometer("Thermometer #1")));
    let mut room2 = room("Smart Room #2");
    if let Err(e) = house.add(room1) {
        panic!("{:?}", e)
    }
    add(&mut room2, CleverDevice::ElecticSocket(socket("Electric socket #1")));
    add(&mut room2, CleverDevice::Thermometer(thermometer("Thermometer #1")));
    if let Err(e) = house.add(room2) {
        panic!("{:?}", e)
    }

    let info = house.info();
    assert_eq!("House Smart House\nRoom: Smart Room #1\nElectric socket: Electric socket #1 State: OFF\nThermometer: Thermometer #1 Value: 0\nRoom: Smart Room #2\nElectric socket: Electric socket #1 State: OFF\nThermometer: Thermometer #1 Value: 0\n", info);

    let info = house.info_rooms();
    assert_eq!("Room: Smart Room #1\nRoom: Smart Room #2\n", info);

    match house.get_mut("Smart Room #1") {
        Some(room) => {
            assert_eq!(room.name, "Smart Room #1");
            match room.rem("Electric socket #1") {
                Some(device) => {
                    assert_eq!(device.identity(), "Electric socket #1")
                }
                None => panic!("Device not found"),
            }
        }
        None => panic!("Room not found"),
    }

    let info = house.info();
    assert_eq!("House Smart House\nRoom: Smart Room #1\nThermometer: Thermometer #1 Value: 0\nRoom: Smart Room #2\nElectric socket: Electric socket #1 State: OFF\nThermometer: Thermometer #1 Value: 0\n", info);

    let room = house.rem("Smart Room #1");
    match room {
        Some(room) => {
            assert_eq!(room.name, "Smart Room #1");
            let info = house.info_rooms();
            assert_eq!("Room: Smart Room #2\n", info);
        }
        None => panic!("Room not found"),
    }
}
