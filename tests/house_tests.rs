use smarthouse::devices::{Device, SmartSocket, SmartThermometer};
use smarthouse::smarthouse::{
    BorrowingDeviceInfoProvider, DeviceInfoProvider, OwningDeviceInfoProvider, SmartHouse,
    SmartHouseError,
};
use smarthouse::smartroom::SmartRoom;

#[test]
fn new_house() {
    let house = SmartHouse::new("House".to_string()).unwrap();
    assert_eq!(house.house_name, "House");
}

#[test]
fn add_smart_room() {
    let socket = SmartSocket::default("Smart_socket".to_string()).unwrap();
    let mut kitchen = SmartRoom::default("Kitchen".to_string()).unwrap();
    kitchen.add_smart_device(Device::SmartSocket(socket.clone())).unwrap();
    let mut house = SmartHouse::new("House".to_string()).unwrap();
    house.add_smart_room(kitchen).unwrap();
    assert!(!house.smart_rooms.is_empty())
}

#[test]
fn delite_smart_room() {
    let socket = SmartSocket::default("Smart_socket".to_string()).unwrap();
    let mut kitchen = SmartRoom::default("Kitchen".to_string()).unwrap();
    kitchen.add_smart_device(Device::SmartSocket(socket.clone())).unwrap();
    let mut house = SmartHouse::new("House".to_string()).unwrap();
    house.add_smart_room(kitchen.clone()).unwrap();
    assert!(!house.smart_rooms.is_empty());
    house.remove_smart_room(kitchen).unwrap();
    assert!(house.smart_rooms.is_empty());
}

#[test]
fn get_rooms() {
    let socket = SmartSocket::default("Smart_socket".to_string()).unwrap();
    let thermo = SmartThermometer::default("Smart_thetmometr".to_string()).unwrap();
    let mut kitchen = SmartRoom::default("Kitchen".to_string()).unwrap();
    kitchen.add_smart_device(Device::SmartSocket(socket.clone())).unwrap();
    let mut hall = SmartRoom::default("Hall".to_string()).unwrap();
    hall.add_smart_device(Device::SmartSocket(socket.clone())).unwrap();
    let mut bathroom = SmartRoom::default("Bathroom".to_string()).unwrap();
    bathroom.add_smart_device(Device::SmartThermometr(thermo.clone())).unwrap();
    let mut living = SmartRoom::default("Living room".to_string()).unwrap();
    living.add_smart_device(Device::SmartSocket(socket.clone())).unwrap();
    living.add_smart_device(Device::SmartThermometr(thermo.clone())).unwrap();

    let mut house = SmartHouse::new("House".to_string()).unwrap();

    house.add_smart_room(kitchen).unwrap();
    house.add_smart_room(bathroom).unwrap();
    house.add_smart_room(living).unwrap();
    assert!(!house.get_rooms().is_empty())
}

#[test]
fn create_report() {
    let socket = SmartSocket::default("Smart_socket".to_string()).unwrap();
    let thermo = SmartThermometer::default("Smart_thetmometr".to_string()).unwrap();
    let socket_borrow = SmartSocket::default("Smart_socket".to_string()).unwrap();
    let mut kitchen = SmartRoom::default("Kitchen".to_string()).unwrap();
    kitchen.add_smart_device(Device::SmartSocket(socket.clone())).unwrap();
    let mut hall = SmartRoom::default("Hall".to_string()).unwrap();
    hall.add_smart_device(Device::SmartSocket(socket.clone())).unwrap();
    let mut bathroom = SmartRoom::default("Bathroom".to_string()).unwrap();
    bathroom.add_smart_device(Device::SmartThermometr(thermo.clone())).unwrap();
    let mut living = SmartRoom::default("Living room".to_string()).unwrap();
    living.add_smart_device(Device::SmartThermometr(thermo.clone())).unwrap();
    living.add_smart_device(Device::SmartThermometr(thermo.clone())).unwrap();

    let mut house = SmartHouse::new("House".to_string()).unwrap();

    house.add_smart_room(kitchen).unwrap();
    house.add_smart_room(bathroom).unwrap();
    house.add_smart_room(living).unwrap();

    let info_provider_1 = OwningDeviceInfoProvider { socket };

    let info_provider_2 = BorrowingDeviceInfoProvider {
        socket: &socket_borrow,
        thermo: &thermo,
    };

    assert!(!house.create_report(info_provider_1).is_empty());
    assert!(!house.create_report(info_provider_2).is_empty());
}

fn room_with(name: &str, devices: Vec<Device>) -> SmartRoom {
    let mut room = SmartRoom::default(name.to_string()).unwrap();
    for d in devices {
        room.add_smart_device(d).unwrap();
    }
    room
}

fn socket(name: &str) -> Device {
    Device::SmartSocket(SmartSocket::default(name.to_string()).unwrap())
}

fn thermo(name: &str) -> Device {
    Device::SmartThermometr(SmartThermometer::default(name.to_string()).unwrap())
}

fn owning() -> OwningDeviceInfoProvider {
    OwningDeviceInfoProvider {
        socket: SmartSocket::default("Socket 1".to_string()).unwrap(),
    }
}

#[test]
fn empty_house_name_is_refused() {
    assert_eq!(SmartHouse::new(String::new()).unwrap_err(), SmartHouseError::InvalidName);
}

#[test]
fn room_with_empty_name_is_refused() {
    let mut house = SmartHouse::new("House".to_string()).unwrap();
    let room = SmartRoom {
        room_name: String::new(),
        smart_device: Vec::new(),
    };
    assert_eq!(house.add_smart_room(room), Err(SmartHouseError::InvalidName));
    assert!(house.smart_rooms.is_empty());
}

#[test]
fn same_room_name_overwrites() {
    let mut house = SmartHouse::new("House".to_string()).unwrap();
    house.add_smart_room(room_with("Kitchen", vec![socket("a")])).unwrap();
    house.add_smart_room(room_with("Hall", vec![])).unwrap();
    house.add_smart_room(room_with("Kitchen", vec![socket("b"), socket("c")])).unwrap();
    assert_eq!(house.smart_rooms.len(), 2);
    let devices = house.device_info("Kitchen".to_string()).unwrap();
    assert_eq!(devices.len(), 2);
    assert_eq!(devices[0].render(), socket("b").render());
}

#[test]
fn removing_absent_room_is_not_found() {
    let mut house = SmartHouse::new("House".to_string()).unwrap();
    house.add_smart_room(room_with("Kitchen", vec![])).unwrap();
    let hall = room_with("Hall", vec![]);
    assert_eq!(house.remove_smart_room(hall), Err(SmartHouseError::NotFound));
    assert_eq!(house.smart_rooms.len(), 1);
}

#[test]
fn removed_room_is_gone_with_its_devices() {
    let mut house = SmartHouse::new("House".to_string()).unwrap();
    house.add_smart_room(room_with("Kitchen", vec![socket("a")])).unwrap();
    house.add_smart_room(room_with("Hall", vec![thermo("t")])).unwrap();
    assert_eq!(house.remove_smart_room(room_with("Kitchen", vec![])), Ok(()));
    assert!(house.device_info("Kitchen".to_string()).is_none());
    assert_eq!(house.get_rooms().len(), 1);
    assert_eq!(house.get_rooms()[0].room_name, "Hall");
}

#[test]
fn device_info_lists_the_room_devices() {
    let mut house = SmartHouse::new("House".to_string()).unwrap();
    house.add_smart_room(room_with("Hall", vec![socket("a"), thermo("b")])).unwrap();
    let devices = house.device_info("Hall".to_string()).unwrap();
    let names: Vec<&str> = devices.iter().map(|d| d.name_ref().as_str()).collect();
    assert_eq!(names, vec!["a", "b"]);
    assert!(house.device_info("Attic".to_string()).is_none());
}

#[test]
fn house_render_is_heading() {
    let house = SmartHouse::new("House".to_string()).unwrap();
    assert_eq!(house.render(), "House name: House\n\n");
}

#[test]
fn providers_write_room_then_device() {
    let room = room_with("Kitchen", vec![]);
    let s = SmartSocket::default("own".to_string()).unwrap();
    let t = SmartThermometer::default("own t".to_string()).unwrap();
    let d = thermo("T1");
    let expected = "KitchenSmartThermo name: T1, status: false, temperature: 0";
    assert_eq!(owning().device_info(&room, &d), expected);
    let borrowing = BorrowingDeviceInfoProvider { socket: &s, thermo: &t };
    assert_eq!(borrowing.device_info(&room, &d), expected);
}

#[test]
fn report_exact_text() {
    let mut house = SmartHouse::new("House".to_string()).unwrap();
    house.add_smart_room(room_with("Kitchen", vec![socket("Socket1")])).unwrap();
    house.add_smart_room(room_with("Hall", vec![])).unwrap();
    let report = house.create_report(owning());
    assert_eq!(
        report,
        "House name: House\n\nKitchen\n contains:\n\
         KitchenSmartSocket name: Socket1, status: false, voltage: 0\nHall\n contains:\n"
    );
}

#[test]
fn report_of_empty_house_is_heading() {
    let house = SmartHouse::new("Empty".to_string()).unwrap();
    assert_eq!(house.create_report(owning()), "House name: Empty\n\n");
}

#[test]
fn report_mentions_every_room_and_device() {
    let mut house = SmartHouse::new("House".to_string()).unwrap();
    house.add_smart_room(room_with("Kitchen", vec![socket("k1"), thermo("k2")])).unwrap();
    house.add_smart_room(room_with("Bathroom", vec![thermo("b1")])).unwrap();
    house.add_smart_room(room_with("Living room", vec![socket("l1"), socket("l2")])).unwrap();
    let s = SmartSocket::default("x".to_string()).unwrap();
    let t = SmartThermometer::default("y".to_string()).unwrap();
    let reports = vec![
        house.create_report(owning()),
        house.create_report(BorrowingDeviceInfoProvider { socket: &s, thermo: &t }),
    ];
    for report in reports.iter() {
        for room in house.get_rooms() {
            assert!(report.contains(room.room_name.as_str()));
            for d in room.smart_device.iter() {
                assert!(report.contains(d.name_ref().as_str()));
                let line = format!("{}{}", room.room_name, d.render());
                assert!(report.contains(line.as_str()));
            }
        }
    }
}

#[test]
fn report_scenario_kitchen_socket() {
    let mut kitchen = SmartRoom::default("Kitchen".to_string()).unwrap();
    kitchen
        .add_smart_device(Device::SmartSocket(SmartSocket::default("Socket1".to_string()).unwrap()))
        .unwrap();
    let mut house = SmartHouse::new("House".to_string()).unwrap();
    house.add_smart_room(kitchen).unwrap();
    let report = house.create_report(owning());
    assert!(report.contains("Kitchen"));
    assert!(report.contains("Socket1"));
}
