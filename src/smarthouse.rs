//! The house: a named collection of rooms, and the report it renders through
//! a device-info provider.
use vstd::prelude::*;

use crate::devices::{lemma_text_has_name, Device, SmartSocket, SmartThermometer};
use crate::smartroom::{room_text, SmartRoom};
use crate::text::{
    contains, lemma_contains_prefix, lemma_contains_self, lemma_contains_suffix,
    lemma_contains_trans,
};

verus! {

/// Why a house could not be made or changed.
#[derive(Debug, Clone, Copy, PartialEq, Eq, Structural)]
pub enum SmartHouseError {
    /// A house or a room has an empty name.
    InvalidName,
    /// No room of that name is in the house.
    NotFound,
}

/// A house and its rooms, in the order in which they first came.
#[derive(Debug, Clone)]
pub struct SmartHouse {
    pub house_name: String,
    pub smart_rooms: Vec<SmartRoom>,
}

/// No two rooms share a name.
pub open spec fn room_names_unique(s: Seq<SmartRoom>) -> bool {
    forall|i: int, j: int|
        0 <= i < s.len() && 0 <= j < s.len() && #[trigger] s[i].room_name@
            == #[trigger] s[j].room_name@ ==> i == j
}

/// Some room is called `n`.
pub open spec fn has_room(s: Seq<SmartRoom>, n: Seq<char>) -> bool {
    exists|i: int| 0 <= i < s.len() && #[trigger] s[i].room_name@ == n
}

/// Where the room called `n` stands, or -1.
pub open spec fn room_index(s: Seq<SmartRoom>, n: Seq<char>) -> int {
    if has_room(s, n) {
        choose|i: int| 0 <= i < s.len() && #[trigger] s[i].room_name@ == n
    } else {
        -1
    }
}

/// The rooms after `r` is put in: it takes the place of the room of the same
/// name, or comes last.
pub open spec fn with_room(s: Seq<SmartRoom>, r: SmartRoom) -> Seq<SmartRoom> {
    if has_room(s, r.room_name@) {
        s.update(room_index(s, r.room_name@), r)
    } else {
        s.push(r)
    }
}

/// The rooms after the one called `n`, if any, is taken out.
pub open spec fn without_room(s: Seq<SmartRoom>, n: Seq<char>) -> Seq<SmartRoom> {
    if has_room(s, n) {
        s.remove(room_index(s, n))
    } else {
        s
    }
}

/// Rooms of non-empty, distinct names, each well formed.
pub open spec fn rooms_wf(s: Seq<SmartRoom>) -> bool {
    &&& room_names_unique(s)
    &&& forall|i: int| 0 <= i < s.len() ==> #[trigger] s[i].wf() && s[i].room_name@.len() > 0
}

/// Putting a well-formed room with a non-empty name into well-formed rooms
/// keeps them well formed.
pub proof fn lemma_with_room_wf(s: Seq<SmartRoom>, r: SmartRoom)
    requires
        rooms_wf(s),
        r.wf(),
        r.room_name@.len() > 0,
    ensures
        rooms_wf(with_room(s, r)),
{
    let n = r.room_name@;
    let t = with_room(s, r);
    if has_room(s, n) {
        let i = room_index(s, n);
        assert forall|a: int, b: int|
            0 <= a < t.len() && 0 <= b < t.len() && #[trigger] t[a].room_name@
                == #[trigger] t[b].room_name@ implies a == b by {
            if a != i && b != i {
                assert(s[a].room_name@ == s[b].room_name@);
            } else if a == i && b != i {
                assert(s[b].room_name@ == s[i].room_name@);
            } else if a != i && b == i {
                assert(s[a].room_name@ == s[i].room_name@);
            }
        }
    } else {
        assert forall|a: int, b: int|
            0 <= a < t.len() && 0 <= b < t.len() && #[trigger] t[a].room_name@
                == #[trigger] t[b].room_name@ implies a == b by {
            if a < s.len() && b < s.len() {
                assert(s[a].room_name@ == s[b].room_name@);
            } else if a < s.len() {
                assert(s[a].room_name@ == n);
            } else if b < s.len() {
                assert(s[b].room_name@ == n);
            }
        }
    }
}

/// Taking a room out of well-formed rooms keeps them well formed and leaves
/// no room of that name.
pub proof fn lemma_without_room_wf(s: Seq<SmartRoom>, n: Seq<char>)
    requires
        rooms_wf(s),
    ensures
        rooms_wf(without_room(s, n)),
        !has_room(without_room(s, n), n),
{
    let t = without_room(s, n);
    if has_room(s, n) {
        let i = room_index(s, n);
        assert forall|a: int, b: int|
            0 <= a < t.len() && 0 <= b < t.len() && #[trigger] t[a].room_name@
                == #[trigger] t[b].room_name@ implies a == b by {
            let sa = if a < i { a } else { a + 1 };
            let sb = if b < i { b } else { b + 1 };
            assert(s[sa].room_name@ == s[sb].room_name@);
        }
        assert forall|a: int| 0 <= a < t.len() implies #[trigger] t[a].wf()
            && t[a].room_name@.len() > 0 by {
            let sa = if a < i { a } else { a + 1 };
            assert(s[sa].wf());
        }
        assert forall|a: int| 0 <= a < t.len() implies #[trigger] t[a].room_name@ != n by {
            let sa = if a < i { a } else { a + 1 };
            assert(s[i].room_name@ == n);
            assert(s[sa].room_name@ == t[a].room_name@);
        }
    }
}

/// What a house writes as its heading.
pub open spec fn house_text(name: Seq<char>) -> Seq<char> {
    "House name: "@ + name + "\n\n"@
}

/// What a report writes before the lines for a room's devices: the room's
/// own heading, then ` contains:` and a line break.
pub open spec fn room_heading(name: Seq<char>) -> Seq<char> {
    room_text(name) + " contains:\n"@
}

/// What a provider writes for a device in a room: the room's name followed
/// by the device's description.
pub open spec fn device_line(room_name: Seq<char>, device: Device) -> Seq<char> {
    room_name + device.text()
}

/// The lines a report holds for the devices `ds` of the room `room_name`.
pub open spec fn devices_report(room_name: Seq<char>, ds: Seq<Device>) -> Seq<char>
    decreases ds.len(),
{
    if ds.len() == 0 {
        Seq::empty()
    } else {
        devices_report(room_name, ds.drop_last()) + device_line(room_name, ds.last()) + "\n"@
    }
}

/// The part of a report about the rooms `rs`: for each room its heading in
/// the report, then a line for each of its devices.
pub open spec fn rooms_report(rs: Seq<SmartRoom>) -> Seq<char>
    decreases rs.len(),
{
    if rs.len() == 0 {
        Seq::empty()
    } else {
        rooms_report(rs.drop_last()) + room_heading(rs.last().room_name@) + devices_report(
            rs.last().room_name@,
            rs.last().devices(),
        )
    }
}

/// The report on a house called `name` with the rooms `rs`.
pub open spec fn report_text(name: Seq<char>, rs: Seq<SmartRoom>) -> Seq<char> {
    house_text(name) + rooms_report(rs)
}

/// The lines for a room's devices hold the line for each of them.
proof fn lemma_devices_report_has(room_name: Seq<char>, ds: Seq<Device>, j: int)
    requires
        0 <= j < ds.len(),
    ensures
        contains(devices_report(room_name, ds), device_line(room_name, ds[j])),
    decreases ds.len(),
{
    let p = devices_report(room_name, ds.drop_last());
    let line = device_line(room_name, ds.last());
    if j == ds.len() - 1 {
        lemma_contains_self(line);
        lemma_contains_suffix(p, line, line);
        lemma_contains_prefix(p + line, "\n"@, line);
    } else {
        lemma_devices_report_has(room_name, ds.drop_last(), j);
        lemma_contains_prefix(p, line, device_line(room_name, ds[j]));
        lemma_contains_prefix(p + line, "\n"@, device_line(room_name, ds[j]));
    }
}

/// The part of a report about some rooms holds the line for each device of
/// each of them.
proof fn lemma_rooms_report_has(rs: Seq<SmartRoom>, i: int, j: int)
    requires
        0 <= i < rs.len(),
        0 <= j < rs[i].devices().len(),
    ensures
        contains(rooms_report(rs), device_line(rs[i].room_name@, rs[i].devices()[j])),
    decreases rs.len(),
{
    let line = device_line(rs[i].room_name@, rs[i].devices()[j]);
    let p = rooms_report(rs.drop_last());
    let h = room_heading(rs.last().room_name@);
    let d = devices_report(rs.last().room_name@, rs.last().devices());
    if i == rs.len() - 1 {
        lemma_devices_report_has(rs.last().room_name@, rs.last().devices(), j);
        lemma_contains_suffix(p + h, d, line);
    } else {
        lemma_rooms_report_has(rs.drop_last(), i, j);
        lemma_contains_prefix(p, h, line);
        lemma_contains_prefix(p + h, d, line);
    }
}

/// A house's report mentions every device of every room together with its
/// room: the room's name followed by the device's description occurs in it,
/// and so do the room's name and the device's name, whatever the order of
/// the rooms and devices.
pub proof fn lemma_report_mentions_every_device(house: SmartHouse)
    ensures
        forall|i: int, j: int|
            0 <= i < house.rooms().len() && 0 <= j < house.rooms()[i].devices().len() ==> {
                let report = report_text(house.house_name@, house.rooms());
                let room_name = house.rooms()[i].room_name@;
                let device = #[trigger] house.rooms()[i].devices()[j];
                &&& contains(report, device_line(room_name, device))
                &&& contains(report, room_name)
                &&& contains(report, device.name_view())
            },
{
    assert forall|i: int, j: int|
        0 <= i < house.rooms().len() && 0 <= j < house.rooms()[i].devices().len() implies {
        let report = report_text(house.house_name@, house.rooms());
        let room_name = house.rooms()[i].room_name@;
        let device = #[trigger] house.rooms()[i].devices()[j];
        &&& contains(report, device_line(room_name, device))
        &&& contains(report, room_name)
        &&& contains(report, device.name_view())
    } by {
        let report = report_text(house.house_name@, house.rooms());
        let room_name = house.rooms()[i].room_name@;
        let device = house.rooms()[i].devices()[j];
        let line = device_line(room_name, device);
        lemma_rooms_report_has(house.rooms(), i, j);
        lemma_contains_suffix(house_text(house.house_name@), rooms_report(house.rooms()), line);
        lemma_contains_self(room_name);
        lemma_contains_prefix(room_name, device.text(), room_name);
        lemma_contains_trans(report, line, room_name);
        lemma_text_has_name(device);
        lemma_contains_suffix(room_name, device.text(), device.name_view());
        lemma_contains_trans(report, line, device.name_view());
    }
}

/// Renders one device of one room for a report.
pub trait DeviceInfoProvider {
    fn device_info(&self, room: &SmartRoom, devices: &Device) -> (r: String)
        ensures
            r@ == device_line(room.room_name@, *devices),
    ;
}

/// A provider that owns a socket of its own.
#[derive(Debug)]
pub struct OwningDeviceInfoProvider {
    pub socket: SmartSocket,
}

/// A provider that borrows a socket and a thermometer.
#[derive(Debug)]
pub struct BorrowingDeviceInfoProvider<'a, 'b> {
    pub socket: &'a SmartSocket,
    pub thermo: &'b SmartThermometer,
}

/// The room's name followed by the device's description.
fn room_and_device(room: &SmartRoom, device: &Device) -> (r: String)
    ensures
        r@ == device_line(room.room_name@, *device),
{
    let mut s = room.room_name.clone();
    let d = device.render();
    s.append(d.as_str());
    s
}

impl DeviceInfoProvider for OwningDeviceInfoProvider {
    fn device_info(&self, room: &SmartRoom, devices: &Device) -> (r: String) {
        room_and_device(room, devices)
    }
}

impl<'a, 'b> DeviceInfoProvider for BorrowingDeviceInfoProvider<'a, 'b> {
    fn device_info(&self, room: &SmartRoom, devices: &Device) -> (r: String) {
        room_and_device(room, devices)
    }
}

/// Where the room called `name` stands in `rooms`.
fn find_room(rooms: &Vec<SmartRoom>, name: &String) -> (r: Option<usize>)
    requires
        room_names_unique(rooms@),
    ensures
        r is None <==> !has_room(rooms@, name@),
        r matches Some(i) ==> i == room_index(rooms@, name@),
{
    let mut i: usize = 0;
    while i < rooms.len()
        invariant
            i <= rooms.len(),
            room_names_unique(rooms@),
            forall|j: int| 0 <= j < i ==> #[trigger] rooms@[j].room_name@ != name@,
        decreases rooms.len() - i,
    {
        if rooms[i].room_name.eq(name) {
            proof {
                assert(has_room(rooms@, name@));
                let j = room_index(rooms@, name@);
                assert(rooms@[j].room_name@ == rooms@[i as int].room_name@);
            }
            return Some(i);
        }
        i = i + 1;
    }
    None
}

impl SmartHouse {
    /// Room names are non-empty and unique, and every room is well formed.
    pub open spec fn wf(&self) -> bool {
        rooms_wf(self.smart_rooms@)
    }

    /// The rooms of the house.
    pub open spec fn rooms(&self) -> Seq<SmartRoom> {
        self.smart_rooms@
    }

    /// A house with no rooms; an empty name is refused.
    pub fn new(house_name: String) -> (r: Result<SmartHouse, SmartHouseError>)
        ensures
            house_name@.len() == 0 ==> r == Err::<SmartHouse, SmartHouseError>(
                SmartHouseError::InvalidName,
            ),
            house_name@.len() > 0 ==> (r matches Ok(h) && h.wf() && h.house_name@
                == house_name@ && h.rooms().len() == 0),
    {
        if house_name.as_str().is_empty() {
            Err(SmartHouseError::InvalidName)
        } else {
            Ok(SmartHouse { house_name, smart_rooms: Vec::new() })
        }
    }

    /// The rooms, in the house's order.
    pub fn get_rooms(&self) -> (r: Vec<&SmartRoom>)
        ensures
            r@.len() == self.rooms().len(),
            forall|i: int| 0 <= i < r@.len() ==> *#[trigger] r@[i] == self.rooms()[i],
    {
        let mut v: Vec<&SmartRoom> = Vec::new();
        let mut i: usize = 0;
        while i < self.smart_rooms.len()
            invariant
                i <= self.smart_rooms@.len(),
                v@.len() == i,
                forall|j: int| 0 <= j < i ==> *#[trigger] v@[j] == self.smart_rooms@[j],
            decreases self.smart_rooms@.len() - i,
        {
            v.push(&self.smart_rooms[i]);
            i = i + 1;
        }
        v
    }

    /// The devices of the room called `room`, if there is one.
    pub fn device_info(&self, room: String) -> (r: Option<Vec<&Device>>)
        requires
            self.wf(),
        ensures
            r is None <==> !has_room(self.rooms(), room@),
            r matches Some(v) ==> {
                let ds = self.rooms()[room_index(self.rooms(), room@)].devices();
                &&& v@.len() == ds.len()
                &&& forall|i: int| 0 <= i < v@.len() ==> *#[trigger] v@[i] == ds[i]
            },
    {
        match find_room(&self.smart_rooms, &room) {
            Some(k) => {
                let devices = &self.smart_rooms[k].smart_device;
                let mut v: Vec<&Device> = Vec::new();
                let mut i: usize = 0;
                while i < devices.len()
                    invariant
                        i <= devices@.len(),
                        v@.len() == i,
                        forall|j: int| 0 <= j < i ==> *#[trigger] v@[j] == devices@[j],
                    decreases devices@.len() - i,
                {
                    v.push(&devices[i]);
                    i = i + 1;
                }
                Some(v)
            },
            None => None,
        }
    }

    /// Puts a room in the house, in place of any room of the same name. A room
    /// with an empty name is refused and the house is left as it was.
    pub fn add_smart_room(&mut self, room: SmartRoom) -> (r: Result<(), SmartHouseError>)
        requires
            old(self).wf(),
            room.wf(),
        ensures
            final(self).wf(),
            final(self).house_name == old(self).house_name,
            room.room_name@.len() == 0 ==> r == Err::<(), SmartHouseError>(
                SmartHouseError::InvalidName,
            ) && final(self).rooms() == old(self).rooms(),
            room.room_name@.len() > 0 ==> r == Ok::<(), SmartHouseError>(())
                && final(self).rooms() == with_room(old(self).rooms(), room),
    {
        if room.room_name.as_str().is_empty() {
            return Err(SmartHouseError::InvalidName);
        }
        proof {
            lemma_with_room_wf(self.smart_rooms@, room);
        }
        match find_room(&self.smart_rooms, &room.room_name) {
            Some(i) => {
                self.smart_rooms.set(i, room);
            },
            None => {
                self.smart_rooms.push(room);
            },
        }
        Ok(())
    }

    /// Takes out the room of the same name as `room`, with all its devices;
    /// where there is none, the house is left as it was and `NotFound` comes
    /// back.
    pub fn remove_smart_room(&mut self, room: SmartRoom) -> (r: Result<(), SmartHouseError>)
        requires
            old(self).wf(),
        ensures
            final(self).wf(),
            final(self).house_name == old(self).house_name,
            final(self).rooms() == without_room(old(self).rooms(), room.room_name@),
            !has_room(final(self).rooms(), room.room_name@),
            has_room(old(self).rooms(), room.room_name@) ==> r == Ok::<(), SmartHouseError>(()),
            !has_room(old(self).rooms(), room.room_name@) ==> r == Err::<(), SmartHouseError>(
                SmartHouseError::NotFound,
            ),
    {
        proof {
            lemma_without_room_wf(self.smart_rooms@, room.room_name@);
        }
        match find_room(&self.smart_rooms, &room.room_name) {
            Some(i) => {
                self.smart_rooms.remove(i);
                Ok(())
            },
            None => Err(SmartHouseError::NotFound),
        }
    }

    /// The house's heading, `house_text`.
    pub fn render(&self) -> (r: String)
        ensures
            r@ == house_text(self.house_name@),
    {
        let mut s = String::from_str("House name: ");
        s.append(self.house_name.as_str());
        s.append("\n\n");
        s
    }

    /// The report: the house's heading, then for each room its heading with
    /// ` contains:` and what `provider` writes for each of its devices, one
    /// line each.
    pub fn create_report<P: DeviceInfoProvider>(&self, provider: P) -> (r: String)
        ensures
            r@ == report_text(self.house_name@, self.rooms()),
    {
        let mut report = self.render();
        let mut i: usize = 0;
        while i < self.smart_rooms.len()
            invariant
                i <= self.smart_rooms@.len(),
                report@ == house_text(self.house_name@) + rooms_report(
                    self.smart_rooms@.take(i as int),
                ),
            decreases self.smart_rooms@.len() - i,
        {
            let room = &self.smart_rooms[i];
            let heading = room.render();
            report.append(heading.as_str());
            report.append(" contains:\n");
            let ghost before = report@;
            let mut j: usize = 0;
            while j < room.smart_device.len()
                invariant
                    j <= room.smart_device@.len(),
                    report@ == before + devices_report(
                        room.room_name@,
                        room.smart_device@.take(j as int),
                    ),
                decreases room.smart_device@.len() - j,
            {
                let line = provider.device_info(room, &room.smart_device[j]);
                report.append(line.as_str());
                report.append("\n");
                proof {
                    let ds = room.smart_device@.take(j + 1);
                    assert(ds.drop_last() =~= room.smart_device@.take(j as int));
                }
                assert(report@ =~= before + devices_report(
                    room.room_name@,
                    room.smart_device@.take(j + 1),
                ));
                j = j + 1;
            }
            proof {
                let rs = self.smart_rooms@.take(i + 1);
                assert(rs.drop_last() =~= self.smart_rooms@.take(i as int));
                assert(room.smart_device@.take(j as int) =~= room.smart_device@);
            }
            assert(report@ =~= house_text(self.house_name@) + rooms_report(
                self.smart_rooms@.take(i + 1),
            ));
            i = i + 1;
        }
        assert(self.smart_rooms@.take(i as int) =~= self.smart_rooms@);
        report
    }
}

} // verus!
