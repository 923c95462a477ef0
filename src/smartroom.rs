//! Rooms: a named collection of devices, at most one device per name.
use vstd::prelude::*;

use crate::devices::Device;

verus! {

/// Why a room could not be made or changed.
#[derive(Debug, Clone, Copy, PartialEq, Eq, Structural)]
pub enum SmartRoomError {
    /// A room or a device has an empty name.
    InvalidName,
    /// No device of that name is in the room.
    NotFound,
}

/// A room and the devices in it, in the order in which they first came.
#[derive(Debug, Clone)]
pub struct SmartRoom {
    pub room_name: String,
    pub smart_device: Vec<Device>,
}

/// No two devices share a name.
pub open spec fn names_unique(s: Seq<Device>) -> bool {
    forall|i: int, j: int|
        0 <= i < s.len() && 0 <= j < s.len() && #[trigger] s[i].name_view()
            == #[trigger] s[j].name_view() ==> i == j
}

/// Every device has a non-empty name.
pub open spec fn names_nonempty(s: Seq<Device>) -> bool {
    forall|i: int| 0 <= i < s.len() ==> #[trigger] s[i].name_view().len() > 0
}

/// Some device is called `n`.
pub open spec fn has_device(s: Seq<Device>, n: Seq<char>) -> bool {
    exists|i: int| 0 <= i < s.len() && #[trigger] s[i].name_view() == n
}

/// Where the device called `n` stands, or -1.
pub open spec fn device_index(s: Seq<Device>, n: Seq<char>) -> int {
    if has_device(s, n) {
        choose|i: int| 0 <= i < s.len() && #[trigger] s[i].name_view() == n
    } else {
        -1
    }
}

/// The device called `n`, if there is one.
pub open spec fn lookup_device(s: Seq<Device>, n: Seq<char>) -> Option<Device> {
    if has_device(s, n) {
        Some(s[device_index(s, n)])
    } else {
        None
    }
}

/// The devices after `d` is put in: it takes the place of the device of the
/// same name, or comes last.
pub open spec fn with_device(s: Seq<Device>, d: Device) -> Seq<Device> {
    if has_device(s, d.name_view()) {
        s.update(device_index(s, d.name_view()), d)
    } else {
        s.push(d)
    }
}

/// The devices after the one called `n`, if any, is taken out.
pub open spec fn without_device(s: Seq<Device>, n: Seq<char>) -> Seq<Device> {
    if has_device(s, n) {
        s.remove(device_index(s, n))
    } else {
        s
    }
}

/// What a room writes as its heading: its name and a line break.
pub open spec fn room_text(name: Seq<char>) -> Seq<char> {
    name + "\n"@
}

/// Putting a device with a non-empty name into well-formed devices keeps
/// them well formed.
pub proof fn lemma_with_device_wf(s: Seq<Device>, d: Device)
    requires
        names_nonempty(s),
        names_unique(s),
        d.name_view().len() > 0,
    ensures
        names_nonempty(with_device(s, d)),
        names_unique(with_device(s, d)),
{
    let n = d.name_view();
    let t = with_device(s, d);
    if has_device(s, n) {
        let i = device_index(s, n);
        assert forall|a: int, b: int|
            0 <= a < t.len() && 0 <= b < t.len() && #[trigger] t[a].name_view()
                == #[trigger] t[b].name_view() implies a == b by {
            if a != i && b != i {
                assert(s[a].name_view() == s[b].name_view());
            } else if a == i && b != i {
                assert(s[b].name_view() == s[i].name_view());
            } else if a != i && b == i {
                assert(s[a].name_view() == s[i].name_view());
            }
        }
    } else {
        assert forall|a: int, b: int|
            0 <= a < t.len() && 0 <= b < t.len() && #[trigger] t[a].name_view()
                == #[trigger] t[b].name_view() implies a == b by {
            if a < s.len() && b < s.len() {
                assert(s[a].name_view() == s[b].name_view());
            } else if a < s.len() {
                assert(s[a].name_view() == n);
            } else if b < s.len() {
                assert(s[b].name_view() == n);
            }
        }
    }
}

/// Taking a device out of well-formed devices keeps them well formed and
/// leaves no device of that name.
pub proof fn lemma_without_device_wf(s: Seq<Device>, n: Seq<char>)
    requires
        names_nonempty(s),
        names_unique(s),
    ensures
        names_nonempty(without_device(s, n)),
        names_unique(without_device(s, n)),
        !has_device(without_device(s, n), n),
{
    let t = without_device(s, n);
    if has_device(s, n) {
        let i = device_index(s, n);
        assert forall|a: int, b: int|
            0 <= a < t.len() && 0 <= b < t.len() && #[trigger] t[a].name_view()
                == #[trigger] t[b].name_view() implies a == b by {
            let sa = if a < i { a } else { a + 1 };
            let sb = if b < i { b } else { b + 1 };
            assert(s[sa].name_view() == s[sb].name_view());
        }
        assert forall|a: int| 0 <= a < t.len() implies #[trigger] t[a].name_view().len() > 0 by {
            let sa = if a < i { a } else { a + 1 };
            assert(s[sa].name_view().len() > 0);
        }
        assert forall|a: int| 0 <= a < t.len() implies #[trigger] t[a].name_view() != n by {
            let sa = if a < i { a } else { a + 1 };
            assert(s[i].name_view() == n);
            assert(s[sa].name_view() == t[a].name_view());
        }
    }
}

/// Putting a device into a room and then looking up its name gives that
/// device back; where a device of that name was there already, the room
/// holds as many devices as before.
pub proof fn lemma_add_then_get(room: SmartRoom, d: Device)
    requires
        room.wf(),
        d.name_view().len() > 0,
    ensures
        lookup_device(with_device(room.devices(), d), d.name_view()) == Some(d),
        has_device(room.devices(), d.name_view()) ==> with_device(room.devices(), d).len()
            == room.devices().len(),
{
    let s = room.devices();
    let n = d.name_view();
    let t = with_device(s, d);
    lemma_with_device_wf(s, d);
    let i = if has_device(s, n) { device_index(s, n) } else { s.len() as int };
    assert(t[i] == d);
    assert(has_device(t, n));
    let k = device_index(t, n);
    assert(t[k].name_view() == t[i].name_view());
}

/// The devices after each of `ds` in turn is put in.
pub open spec fn with_devices(s: Seq<Device>, ds: Seq<Device>) -> Seq<Device>
    decreases ds.len(),
{
    if ds.len() == 0 {
        s
    } else {
        with_device(with_devices(s, ds.drop_last()), ds.last())
    }
}

/// The devices after each device named as one of `ds` in turn is taken out.
pub open spec fn without_devices(s: Seq<Device>, ds: Seq<Device>) -> Seq<Device>
    decreases ds.len(),
{
    if ds.len() == 0 {
        s
    } else {
        without_device(without_devices(s, ds.drop_last()), ds.last().name_view())
    }
}

/// Taking out the device called `n` leaves exactly the other names, one
/// device fewer where `n` was there.
pub proof fn lemma_without_device_has(s: Seq<Device>, n: Seq<char>, m: Seq<char>)
    requires
        names_unique(s),
    ensures
        has_device(without_device(s, n), m) <==> has_device(s, m) && m != n,
        has_device(s, n) ==> without_device(s, n).len() == s.len() - 1,
{
    if has_device(s, n) {
        let i = device_index(s, n);
        let t = s.remove(i);
        assert(s[i].name_view() == n);
        if has_device(t, m) {
            let a = choose|a: int| 0 <= a < t.len() && #[trigger] t[a].name_view() == m;
            let sa = if a < i { a } else { a + 1 };
            assert(s[sa].name_view() == m);
            assert(s[sa].name_view() == t[a].name_view());
        }
        if has_device(s, m) && m != n {
            let b = choose|b: int| 0 <= b < s.len() && #[trigger] s[b].name_view() == m;
            let tb = if b < i { b } else { b - 1 };
            assert(t[tb].name_view() == m);
        }
    }
}

/// Devices of unique names followed by devices of unique names, none of
/// which the first hold, have unique names.
pub proof fn lemma_concat_unique(a: Seq<Device>, b: Seq<Device>)
    requires
        names_unique(a),
        names_unique(b),
        forall|i: int| 0 <= i < b.len() ==> !has_device(a, #[trigger] b[i].name_view()),
    ensures
        names_unique(a + b),
{
    let u = a + b;
    assert forall|x: int, y: int|
        0 <= x < u.len() && 0 <= y < u.len() && #[trigger] u[x].name_view()
            == #[trigger] u[y].name_view() implies x == y by {
        let la = a.len() as int;
        if x < la && y < la {
            assert(a[x].name_view() == a[y].name_view());
        } else if x >= la && y >= la {
            assert(b[x - la].name_view() == b[y - la].name_view());
        } else if x < la {
            assert(!has_device(a, b[y - la].name_view()));
            assert(a[x].name_view() == b[y - la].name_view());
        } else {
            assert(!has_device(a, b[x - la].name_view()));
            assert(a[y].name_view() == b[x - la].name_view());
        }
    }
}

/// Taking a name out of two runs of devices, where the first does not hold
/// it, takes it out of the second.
proof fn lemma_without_device_append(s: Seq<Device>, t: Seq<Device>, n: Seq<char>)
    requires
        names_unique(s + t),
        !has_device(s, n),
    ensures
        without_device(s + t, n) == s + without_device(t, n),
{
    let u = s + t;
    if has_device(t, n) {
        let w = device_index(t, n);
        assert(u[s.len() + w] == t[w]);
        assert(has_device(u, n));
        let k = device_index(u, n);
        assert(u[k].name_view() == u[s.len() + w].name_view());
        assert(u.remove(k) =~= s + t.remove(w));
    } else {
        assert(!has_device(u, n)) by {
            if has_device(u, n) {
                let k = choose|k: int| 0 <= k < u.len() && #[trigger] u[k].name_view() == n;
                if k < s.len() {
                    assert(s[k].name_view() == n);
                } else {
                    assert(t[k - s.len()].name_view() == n);
                }
            }
        }
    }
}

/// Devices whose names are unique and new to `s`, put one by one after the
/// devices `s`, stand after them in that order.
proof fn lemma_with_devices_fresh(s: Seq<Device>, ds: Seq<Device>)
    requires
        names_unique(s + ds),
    ensures
        with_devices(s, ds) == s + ds,
    decreases ds.len(),
{
    if ds.len() == 0 {
        assert(s + ds =~= s);
    } else {
        let p = ds.drop_last();
        let u = s + ds;
        let v = s + p;
        assert forall|a: int, b: int|
            0 <= a < v.len() && 0 <= b < v.len() && #[trigger] v[a].name_view()
                == #[trigger] v[b].name_view() implies a == b by {
            assert(v[a] == u[a]);
            assert(v[b] == u[b]);
        }
        lemma_with_devices_fresh(s, p);
        if has_device(v, ds.last().name_view()) {
            let w = choose|w: int|
                0 <= w < v.len() && #[trigger] v[w].name_view() == ds.last().name_view();
            assert(v[w] == u[w]);
            assert(u[w].name_view() == u[u.len() - 1].name_view());
        }
        assert(v.push(ds.last()) =~= u);
    }
}

/// One of the first `k` of `rm` is called `m`.
pub open spec fn named_among(rm: Seq<Device>, k: int, m: Seq<char>) -> bool {
    exists|i: int| 0 <= i < k && #[trigger] rm[i].name_view() == m
}

/// Taking out of `ds` the first `k` of `rm`, whose names are distinct and all
/// in `ds`, takes out just those names, one device each.
proof fn lemma_without_devices_progress(ds: Seq<Device>, rm: Seq<Device>, k: int)
    requires
        names_nonempty(ds),
        names_unique(ds),
        names_unique(rm),
        forall|j: int| 0 <= j < rm.len() ==> has_device(ds, #[trigger] rm[j].name_view()),
        0 <= k <= rm.len(),
    ensures
        names_nonempty(without_devices(ds, rm.take(k))),
        names_unique(without_devices(ds, rm.take(k))),
        without_devices(ds, rm.take(k)).len() == ds.len() - k,
        forall|m: Seq<char>|
            #[trigger] has_device(without_devices(ds, rm.take(k)), m) <==> has_device(ds, m)
                && !named_among(rm, k, m),
    decreases k,
{
    if k == 0 {
        assert(rm.take(0) =~= Seq::<Device>::empty());
    } else {
        lemma_without_devices_progress(ds, rm, k - 1);
        assert(rm.take(k).drop_last() =~= rm.take(k - 1));
        let p = without_devices(ds, rm.take(k - 1));
        let n = rm[k - 1].name_view();
        assert(!named_among(rm, k - 1, n)) by {
            if named_among(rm, k - 1, n) {
                let i = choose|i: int| 0 <= i < k - 1 && #[trigger] rm[i].name_view() == n;
                assert(rm[i].name_view() == rm[k - 1].name_view());
            }
        }
        assert(has_device(ds, n));
        assert(has_device(p, n));
        lemma_without_device_wf(p, n);
        lemma_without_device_has(p, n, n);
        assert forall|m: Seq<char>|
            #[trigger] has_device(without_devices(ds, rm.take(k)), m) <==> has_device(ds, m)
                && !named_among(rm, k, m) by {
            lemma_without_device_has(p, n, m);
            if named_among(rm, k, m) && m != n {
                let i = choose|i: int| 0 <= i < k && #[trigger] rm[i].name_view() == m;
                assert(rm[i].name_view() == m);
            }
            if m == n {
                assert(rm[k - 1].name_view() == m);
            }
            if named_among(rm, k - 1, m) {
                let i = choose|i: int| 0 <= i < k - 1 && #[trigger] rm[i].name_view() == m;
                assert(rm[i].name_view() == m);
            }
        }
    }
}

/// Taking out devices named in `ds` from the devices `s` followed by `ds`
/// leaves `s` in front.
proof fn lemma_without_devices_append(s: Seq<Device>, ds: Seq<Device>, rm: Seq<Device>, k: int)
    requires
        names_unique(s),
        names_nonempty(ds),
        names_unique(ds),
        forall|i: int| 0 <= i < ds.len() ==> !has_device(s, #[trigger] ds[i].name_view()),
        names_unique(rm),
        forall|j: int| 0 <= j < rm.len() ==> has_device(ds, #[trigger] rm[j].name_view()),
        0 <= k <= rm.len(),
    ensures
        without_devices(s + ds, rm.take(k)) == s + without_devices(ds, rm.take(k)),
    decreases k,
{
    if k == 0 {
        assert(rm.take(0) =~= Seq::<Device>::empty());
    } else {
        lemma_without_devices_append(s, ds, rm, k - 1);
        assert(rm.take(k).drop_last() =~= rm.take(k - 1));
        let v = without_devices(ds, rm.take(k - 1));
        lemma_without_devices_progress(ds, rm, k - 1);
        assert forall|i: int| 0 <= i < v.len() implies !has_device(
            s,
            #[trigger] v[i].name_view(),
        ) by {
            assert(has_device(v, v[i].name_view()));
            let w = choose|w: int|
                0 <= w < ds.len() && #[trigger] ds[w].name_view() == v[i].name_view();
            assert(!has_device(s, ds[w].name_view()));
        }
        lemma_concat_unique(s, v);
        let n = rm[k - 1].name_view();
        assert(has_device(ds, n));
        let w = choose|w: int| 0 <= w < ds.len() && #[trigger] ds[w].name_view() == n;
        assert(!has_device(s, ds[w].name_view()));
        lemma_without_device_append(s, v, n);
    }
}

/// Putting into a room, one by one, devices of distinct non-empty names that
/// it does not hold yet, then taking them out again one by one in any order,
/// gives the room back its devices as they were: a room that started empty
/// is empty again.
pub proof fn lemma_add_all_remove_all(room: SmartRoom, ds: Seq<Device>, rm: Seq<Device>)
    requires
        room.wf(),
        names_nonempty(ds),
        names_unique(ds),
        forall|i: int|
            0 <= i < ds.len() ==> !has_device(room.devices(), #[trigger] ds[i].name_view()),
        rm.len() == ds.len(),
        names_unique(rm),
        forall|j: int| 0 <= j < rm.len() ==> has_device(ds, #[trigger] rm[j].name_view()),
    ensures
        without_devices(with_devices(room.devices(), ds), rm) == room.devices(),
        room.devices().len() == 0 ==> without_devices(with_devices(room.devices(), ds), rm).len()
            == 0,
{
    let s = room.devices();
    lemma_concat_unique(s, ds);
    lemma_with_devices_fresh(s, ds);
    lemma_without_devices_append(s, ds, rm, rm.len() as int);
    lemma_without_devices_progress(ds, rm, rm.len() as int);
    assert(rm.take(rm.len() as int) =~= rm);
    assert(without_devices(ds, rm) =~= Seq::<Device>::empty());
    assert(s + Seq::<Device>::empty() =~= s);
}

/// Where the device called `name` stands in `devices`.
fn find_device(devices: &Vec<Device>, name: &String) -> (r: Option<usize>)
    requires
        names_unique(devices@),
    ensures
        r is None <==> !has_device(devices@, name@),
        r matches Some(i) ==> i == device_index(devices@, name@),
{
    let mut i: usize = 0;
    while i < devices.len()
        invariant
            i <= devices.len(),
            names_unique(devices@),
            forall|j: int| 0 <= j < i ==> #[trigger] devices@[j].name_view() != name@,
        decreases devices.len() - i,
    {
        if devices[i].name_ref().eq(name) {
            proof {
                assert(has_device(devices@, name@));
                let j = device_index(devices@, name@);
                assert(devices@[j].name_view() == devices@[i as int].name_view());
            }
            return Some(i);
        }
        i = i + 1;
    }
    None
}

impl SmartRoom {
    /// Device names are non-empty and unique.
    pub open spec fn wf(&self) -> bool {
        names_nonempty(self.smart_device@) && names_unique(self.smart_device@)
    }

    /// The devices of the room.
    pub open spec fn devices(&self) -> Seq<Device> {
        self.smart_device@
    }

    /// An empty room; an empty name is refused.
    pub fn default(room_name: String) -> (r: Result<SmartRoom, SmartRoomError>)
        ensures
            room_name@.len() == 0 ==> r == Err::<SmartRoom, SmartRoomError>(
                SmartRoomError::InvalidName,
            ),
            room_name@.len() > 0 ==> (r matches Ok(room) && room.wf() && room.room_name@
                == room_name@ && room.devices().len() == 0),
    {
        if room_name.as_str().is_empty() {
            Err(SmartRoomError::InvalidName)
        } else {
            Ok(SmartRoom { room_name, smart_device: Vec::new() })
        }
    }

    /// The room's name; an empty one is an error.
    pub fn get_room_name(&self) -> (r: Result<String, SmartRoomError>)
        ensures
            self.room_name@.len() == 0 ==> r == Err::<String, SmartRoomError>(
                SmartRoomError::InvalidName,
            ),
            self.room_name@.len() > 0 ==> (r matches Ok(n) && n@ == self.room_name@),
    {
        if self.room_name.as_str().is_empty() {
            Err(SmartRoomError::InvalidName)
        } else {
            Ok(self.room_name.clone())
        }
    }

    /// Puts a device in the room, in place of any device of the same name.
    /// A device with an empty name is refused and the room is left as it was.
    pub fn add_smart_device(&mut self, smart_device: Device) -> (r: Result<(), SmartRoomError>)
        requires
            old(self).wf(),
        ensures
            final(self).wf(),
            final(self).room_name == old(self).room_name,
            smart_device.name_view().len() == 0 ==> r == Err::<(), SmartRoomError>(
                SmartRoomError::InvalidName,
            ) && final(self).devices() == old(self).devices(),
            smart_device.name_view().len() > 0 ==> r == Ok::<(), SmartRoomError>(())
                && final(self).devices() == with_device(old(self).devices(), smart_device),
    {
        if smart_device.name_ref().as_str().is_empty() {
            return Err(SmartRoomError::InvalidName);
        }
        proof {
            lemma_with_device_wf(self.smart_device@, smart_device);
        }
        match find_device(&self.smart_device, smart_device.name_ref()) {
            Some(i) => {
                self.smart_device.set(i, smart_device);
            },
            None => {
                self.smart_device.push(smart_device);
            },
        }
        Ok(())
    }

    /// Takes out the device of the same name as `smart_device`; where there is
    /// none, the room is left as it was and `NotFound` comes back.
    pub fn delite_device(&mut self, smart_device: &Device) -> (r: Result<(), SmartRoomError>)
        requires
            old(self).wf(),
        ensures
            final(self).wf(),
            final(self).room_name == old(self).room_name,
            final(self).devices() == without_device(old(self).devices(), smart_device.name_view()),
            !has_device(final(self).devices(), smart_device.name_view()),
            has_device(old(self).devices(), smart_device.name_view()) ==> r == Ok::<
                (),
                SmartRoomError,
            >(()),
            !has_device(old(self).devices(), smart_device.name_view()) ==> r == Err::<
                (),
                SmartRoomError,
            >(SmartRoomError::NotFound),
    {
        proof {
            lemma_without_device_wf(self.smart_device@, smart_device.name_view());
        }
        match find_device(&self.smart_device, smart_device.name_ref()) {
            Some(i) => {
                self.smart_device.remove(i);
                Ok(())
            },
            None => Err(SmartRoomError::NotFound),
        }
    }

    /// The device called `device_name`, if there is one.
    pub fn get_device(&self, device_name: String) -> (r: Option<&Device>)
        requires
            self.wf(),
        ensures
            r matches Some(d) ==> lookup_device(self.devices(), device_name@) == Some(*d),
            r is None ==> lookup_device(self.devices(), device_name@) is None,
    {
        match find_device(&self.smart_device, &device_name) {
            Some(i) => Some(&self.smart_device[i]),
            None => None,
        }
    }

    /// The room's heading, `room_text`.
    pub fn render(&self) -> (r: String)
        ensures
            r@ == room_text(self.room_name@),
    {
        let mut s = self.room_name.clone();
        s.append("\n");
        s
    }
}

} // verus!
