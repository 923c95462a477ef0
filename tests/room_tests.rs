use smarthouse::devices::{Device, SmartSocket, SmartThermometer};
use smarthouse::smartroom::{SmartRoom, SmartRoomError};

fn socket(name: &str) -> Device {
    Device::SmartSocket(SmartSocket::default(name.to_string()).unwrap())
}

fn thermo(name: &str) -> Device {
    Device::SmartThermometr(SmartThermometer::default(name.to_string()).unwrap())
}

#[test]
fn default_room() {
    let smart_room = SmartRoom::default("kitchen".to_string()).unwrap();
    assert!(!smart_room.room_name.is_empty());
}

#[test]
fn add_smart_device() {
    let mut smart_room = SmartRoom::default("kitchen".to_string()).unwrap();
    let soket = Device::SmartSocket(SmartSocket::default("soket".to_string()).unwrap());
    smart_room.add_smart_device(soket).unwrap();
    assert!(!smart_room.smart_device.is_empty());
}

#[test]
fn delite_device() {
    let mut smart_room = SmartRoom::default("kitchen".to_string()).unwrap();
    let soket = Device::SmartSocket(SmartSocket::default("socket".to_string()).unwrap());
    smart_room.add_smart_device(soket.clone()).unwrap();
    assert!(!smart_room.smart_device.is_empty());
    smart_room.delite_device(&soket).unwrap();
    assert!(smart_room.smart_device.is_empty());
}

#[test]
fn empty_room_name_is_refused() {
    assert_eq!(SmartRoom::default(String::new()).unwrap_err(), SmartRoomError::InvalidName);
}

#[test]
fn get_room_name_of_emptied_room_is_an_error() {
    let mut room = SmartRoom::default("Hall".to_string()).unwrap();
    assert_eq!(room.get_room_name(), Ok("Hall".to_string()));
    room.room_name = String::new();
    assert_eq!(room.get_room_name(), Err(SmartRoomError::InvalidName));
}

#[test]
fn device_with_empty_name_is_refused() {
    let mut room = SmartRoom::default("Hall".to_string()).unwrap();
    let mut s = SmartSocket::default("x".to_string()).unwrap();
    s.name = String::new();
    assert_eq!(
        room.add_smart_device(Device::SmartSocket(s)),
        Err(SmartRoomError::InvalidName)
    );
    assert!(room.smart_device.is_empty());
}

#[test]
fn added_device_is_found_by_name() {
    let mut room = SmartRoom::default("Hall".to_string()).unwrap();
    room.add_smart_device(socket("a")).unwrap();
    room.add_smart_device(thermo("b")).unwrap();
    let found = room.get_device("b".to_string()).unwrap();
    assert_eq!(found.render(), thermo("b").render());
    assert!(room.get_device("c".to_string()).is_none());
}

#[test]
fn same_name_overwrites() {
    let mut room = SmartRoom::default("Hall".to_string()).unwrap();
    room.add_smart_device(socket("a")).unwrap();
    room.add_smart_device(socket("b")).unwrap();
    assert_eq!(room.smart_device.len(), 2);
    room.add_smart_device(thermo("a")).unwrap();
    assert_eq!(room.smart_device.len(), 2);
    let found = room.get_device("a".to_string()).unwrap();
    assert!(matches!(found, Device::SmartThermometr(_)));
    assert_eq!(room.smart_device[0].render(), thermo("a").render());
}

#[test]
fn removing_absent_device_is_not_found() {
    let mut room = SmartRoom::default("Hall".to_string()).unwrap();
    room.add_smart_device(socket("a")).unwrap();
    assert_eq!(room.delite_device(&socket("b")), Err(SmartRoomError::NotFound));
    assert_eq!(room.smart_device.len(), 1);
}

#[test]
fn removed_device_is_gone() {
    let mut room = SmartRoom::default("Hall".to_string()).unwrap();
    room.add_smart_device(socket("a")).unwrap();
    room.add_smart_device(socket("b")).unwrap();
    room.add_smart_device(socket("c")).unwrap();
    assert_eq!(room.delite_device(&thermo("b")), Ok(()));
    assert!(room.get_device("b".to_string()).is_none());
    assert!(room.get_device("a".to_string()).is_some());
    assert!(room.get_device("c".to_string()).is_some());
    assert_eq!(room.smart_device.len(), 2);
}

#[test]
fn add_n_then_remove_n_leaves_room_empty() {
    let mut room = SmartRoom::default("Hall".to_string()).unwrap();
    let names = ["d0", "d1", "d2", "d3", "d4", "d5"];
    for n in names.iter() {
        room.add_smart_device(socket(n)).unwrap();
    }
    assert_eq!(room.smart_device.len(), names.len());
    for n in names.iter() {
        room.delite_device(&socket(n)).unwrap();
    }
    assert!(room.smart_device.is_empty());
}

#[test]
fn add_n_then_remove_n_in_other_order_restores_room() {
    let mut room = SmartRoom::default("Hall".to_string()).unwrap();
    room.add_smart_device(socket("kept1")).unwrap();
    room.add_smart_device(thermo("kept2")).unwrap();
    let before: Vec<String> = room.smart_device.iter().map(|d| d.render()).collect();
    let names = ["n0", "n1", "n2", "n3"];
    for n in names.iter() {
        room.add_smart_device(thermo(n)).unwrap();
    }
    assert_eq!(room.smart_device.len(), 6);
    for n in ["n2", "n0", "n3", "n1"].iter() {
        assert_eq!(room.delite_device(&socket(n)), Ok(()));
    }
    let after: Vec<String> = room.smart_device.iter().map(|d| d.render()).collect();
    assert_eq!(after, before);
    assert_eq!(room.room_name, "Hall");
}

#[test]
fn room_render_is_name_and_newline() {
    let room = SmartRoom::default("Kitchen".to_string()).unwrap();
    assert_eq!(room.render(), "Kitchen\n");
}
