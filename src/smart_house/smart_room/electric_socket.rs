//! An electric socket: on or off, with the power it draws.
use vstd::prelude::*;

use crate::smart_house::errors::SmartHouseErrors;
use crate::smart_house::smart_room::smart_device::{SmartDevice, DEVICE_IDENTITY_MIN_LENGTH};
use crate::text::{byte_len, decimal, push_text, text_byte_len, u32_text};

verus! {

pub struct ElectricSocket {
    name: String,
    power_consumption: u32,
    status: bool,
}

/// The state of a socket.
pub struct ElectricSocketView {
    pub name: Seq<char>,
    pub power_consumption: u32,
    pub status: bool,
}

impl View for ElectricSocket {
    type V = ElectricSocketView;

    closed spec fn view(&self) -> ElectricSocketView {
        ElectricSocketView {
            name: self.name@,
            power_consumption: self.power_consumption,
            status: self.status,
        }
    }
}

/// The report of a socket: its name and state, and when it is on, the power
/// it draws.
pub open spec fn socket_info(s: ElectricSocketView) -> Seq<char> {
    "Electric socket: "@ + s.name + if s.status {
        " State: ON Consumption power: "@ + decimal(s.power_consumption as nat)
    } else {
        " State: OFF"@
    }
}

impl SmartDevice for ElectricSocket {
    open spec fn spec_identity(&self) -> Seq<char> {
        self@.name
    }

    open spec fn spec_info(&self) -> Seq<char> {
        socket_info(self@)
    }

    fn identity(&self) -> (r: &String) {
        &self.name
    }

    fn info(&self) -> (r: String) {
        let mut info = String::new();
        push_text(&mut info, "Electric socket: ");
        push_text(&mut info, self.name.as_str());
        if self.status {
            push_text(&mut info, " State: ON Consumption power: ");
            let power = u32_text(self.power_consumption);
            push_text(&mut info, power.as_str());
        } else {
            push_text(&mut info, " State: OFF");
        }
        assert(info@ =~= socket_info(self@));
        info
    }
}

impl ElectricSocket {
    /// A socket that is off and draws nothing; its name must have at least
    /// `DEVICE_IDENTITY_MIN_LENGTH` bytes.
    pub fn new(name: String) -> (r: Result<Self, SmartHouseErrors>)
        ensures
            r is Err <==> byte_len(name@) < DEVICE_IDENTITY_MIN_LENGTH,
            r is Err ==> r matches Err(SmartHouseErrors::InvalidDeviceIdentity),
            r matches Ok(s) ==> s@ == (ElectricSocketView {
                name: name@,
                power_consumption: 0,
                status: false,
            }),
    {
        if text_byte_len(&name) < DEVICE_IDENTITY_MIN_LENGTH {
            return Err(SmartHouseErrors::InvalidDeviceIdentity);
        }
        Ok(Self { name, power_consumption: 0, status: false })
    }

    /// Switches the socket on.
    pub fn on(&mut self)
        ensures
            final(self)@ == (ElectricSocketView { status: true, ..old(self)@ }),
    {
        self.status = true;
    }

    /// Switches the socket off; it then draws nothing.
    pub fn off(&mut self)
        ensures
            final(self)@ == (ElectricSocketView {
                status: false,
                power_consumption: 0,
                ..old(self)@
            }),
    {
        self.status = false;
        self.power_consumption = 0;
    }

    pub fn power_consumption(&self) -> (r: u32)
        ensures
            r == self@.power_consumption,
    {
        self.power_consumption
    }

    pub fn status(&self) -> (r: bool)
        ensures
            r == self@.status,
    {
        self.status
    }
}

} // verus!
