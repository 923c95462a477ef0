//! Devices: sockets and thermometers, each known by its name.
use vstd::prelude::*;

use crate::text::{
    bool_text, contains, lemma_contains_prefix, lemma_contains_self, lemma_contains_suffix,
    push_bool, push_tenths, tenths_text,
};

verus! {

/// Why a device could not be made or named.
#[derive(Debug, Clone, Copy, PartialEq, Eq, Structural)]
pub enum DeviceError {
    /// The device has an empty name.
    InvalidName,
}

/// A socket. Its voltage is held in tenths of a volt.
#[derive(Debug, Clone)]
pub struct SmartSocket {
    pub name: String,
    pub status: bool,
    pub voltage_tenths: i32,
}

/// A thermometer. Its temperature is held in tenths of a degree.
#[derive(Debug, Clone)]
pub struct SmartThermometer {
    pub name: String,
    pub status: bool,
    pub temperature_tenths: i32,
}

/// A device of one of the kinds the house knows.
#[derive(Debug, Clone)]
pub enum Device {
    SmartSocket(SmartSocket),
    SmartThermometr(SmartThermometer),
}

/// How a socket describes itself.
pub open spec fn socket_text(name: Seq<char>, status: bool, voltage_tenths: int) -> Seq<char> {
    "SmartSocket name: "@ + name + ", status: "@ + bool_text(status) + ", voltage: "@
        + tenths_text(voltage_tenths)
}

/// How a thermometer describes itself.
pub open spec fn thermometer_text(name: Seq<char>, status: bool, temperature_tenths: int) -> Seq<
    char,
> {
    "SmartThermo name: "@ + name + ", status: "@ + bool_text(status) + ", temperature: "@
        + tenths_text(temperature_tenths)
}

/// A device's description holds its name.
pub proof fn lemma_text_has_name(d: Device)
    ensures
        contains(d.text(), d.name_view()),
{
    let n = d.name_view();
    lemma_contains_self(n);
    match d {
        Device::SmartSocket(s) => {
            lemma_contains_suffix("SmartSocket name: "@, n, n);
            let a = "SmartSocket name: "@ + n;
            lemma_contains_prefix(a, ", status: "@, n);
            let b = a + ", status: "@;
            lemma_contains_prefix(b, bool_text(s.status), n);
            let c = b + bool_text(s.status);
            lemma_contains_prefix(c, ", voltage: "@, n);
            let e = c + ", voltage: "@;
            lemma_contains_prefix(e, tenths_text(s.voltage_tenths as int), n);
        },
        Device::SmartThermometr(t) => {
            lemma_contains_suffix("SmartThermo name: "@, n, n);
            let a = "SmartThermo name: "@ + n;
            lemma_contains_prefix(a, ", status: "@, n);
            let b = a + ", status: "@;
            lemma_contains_prefix(b, bool_text(t.status), n);
            let c = b + bool_text(t.status);
            lemma_contains_prefix(c, ", temperature: "@, n);
            let e = c + ", temperature: "@;
            lemma_contains_prefix(e, tenths_text(t.temperature_tenths as int), n);
        },
    }
}

impl SmartSocket {
    /// The socket's description.
    pub open spec fn text(&self) -> Seq<char> {
        socket_text(self.name@, self.status, self.voltage_tenths as int)
    }

    /// A socket that is off, at zero volts; an empty name is refused.
    pub fn default(name: String) -> (r: Result<SmartSocket, DeviceError>)
        ensures
            name@.len() == 0 ==> r == Err::<SmartSocket, DeviceError>(DeviceError::InvalidName),
            name@.len() > 0 ==> (r matches Ok(s) && s.name@ == name@ && !s.status
                && s.voltage_tenths == 0),
    {
        if name.as_str().is_empty() {
            Err(DeviceError::InvalidName)
        } else {
            Ok(SmartSocket { name, status: false, voltage_tenths: 0 })
        }
    }

    /// The socket's description, `text()`.
    pub fn render(&self) -> (r: String)
        ensures
            r@ == self.text(),
    {
        let mut s = String::from_str("SmartSocket name: ");
        s.append(self.name.as_str());
        s.append(", status: ");
        push_bool(&mut s, self.status);
        s.append(", voltage: ");
        push_tenths(&mut s, self.voltage_tenths);
        s
    }
}

impl SmartThermometer {
    /// The thermometer's description.
    pub open spec fn text(&self) -> Seq<char> {
        thermometer_text(self.name@, self.status, self.temperature_tenths as int)
    }

    /// A thermometer that is off, reading zero degrees; an empty name is refused.
    pub fn default(name: String) -> (r: Result<SmartThermometer, DeviceError>)
        ensures
            name@.len() == 0 ==> r == Err::<SmartThermometer, DeviceError>(
                DeviceError::InvalidName,
            ),
            name@.len() > 0 ==> (r matches Ok(t) && t.name@ == name@ && !t.status
                && t.temperature_tenths == 0),
    {
        if name.as_str().is_empty() {
            Err(DeviceError::InvalidName)
        } else {
            Ok(SmartThermometer { name, status: false, temperature_tenths: 0 })
        }
    }

    /// The thermometer's description, `text()`.
    pub fn render(&self) -> (r: String)
        ensures
            r@ == self.text(),
    {
        let mut s = String::from_str("SmartThermo name: ");
        s.append(self.name.as_str());
        s.append(", status: ");
        push_bool(&mut s, self.status);
        s.append(", temperature: ");
        push_tenths(&mut s, self.temperature_tenths);
        s
    }
}

impl Device {
    /// The name the device is known by.
    pub open spec fn name_view(&self) -> Seq<char> {
        match self {
            Device::SmartSocket(s) => s.name@,
            Device::SmartThermometr(t) => t.name@,
        }
    }

    /// The device's description.
    pub open spec fn text(&self) -> Seq<char> {
        match self {
            Device::SmartSocket(s) => s.text(),
            Device::SmartThermometr(t) => t.text(),
        }
    }

    /// The device's name; an empty one is an error.
    pub fn device_name(&self) -> (r: Result<String, DeviceError>)
        ensures
            self.name_view().len() == 0 ==> r == Err::<String, DeviceError>(
                DeviceError::InvalidName,
            ),
            self.name_view().len() > 0 ==> (r matches Ok(n) && n@ == self.name_view()),
    {
        let name = self.name_ref();
        if name.as_str().is_empty() {
            Err(DeviceError::InvalidName)
        } else {
            Ok(name.clone())
        }
    }

    /// The device's name, borrowed.
    pub fn name_ref(&self) -> (r: &String)
        ensures
            r@ == self.name_view(),
    {
        match self {
            Device::SmartSocket(s) => &s.name,
            Device::SmartThermometr(t) => &t.name,
        }
    }

    /// The device's description, `text()`.
    pub fn render(&self) -> (r: String)
        ensures
            r@ == self.text(),
    {
        match self {
            Device::SmartSocket(s) => s.render(),
            Device::SmartThermometr(t) => t.render(),
        }
    }
}

} // verus!
