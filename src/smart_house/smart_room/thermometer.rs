//! A thermometer holding its last reading, in whole degrees.
use vstd::prelude::*;

use crate::smart_house::errors::SmartHouseErrors;
use crate::smart_house::smart_room::smart_device::{SmartDevice, DEVICE_IDENTITY_MIN_LENGTH};
use crate::text::{byte_len, i8_text, push_text, signed_decimal, text_byte_len};

verus! {

pub struct Thermometer {
    name: String,
    temperature: i8,
}

/// The state of a thermometer.
pub struct ThermometerView {
    pub name: Seq<char>,
    pub temperature: i8,
}

impl View for Thermometer {
    type V = ThermometerView;

    closed spec fn view(&self) -> ThermometerView {
        ThermometerView { name: self.name@, temperature: self.temperature }
    }
}

/// The report of a thermometer: its name and its reading.
pub open spec fn thermometer_info(t: ThermometerView) -> Seq<char> {
    "Thermometer: "@ + t.name + " Value: "@ + signed_decimal(t.temperature as int)
}

impl SmartDevice for Thermometer {
    open spec fn spec_identity(&self) -> Seq<char> {
        self@.name
    }

    open spec fn spec_info(&self) -> Seq<char> {
        thermometer_info(self@)
    }

    fn identity(&self) -> (r: &String) {
        &self.name
    }

    fn info(&self) -> (r: String) {
        let mut info = String::new();
        push_text(&mut info, "Thermometer: ");
        push_text(&mut info, self.name.as_str());
        push_text(&mut info, " Value: ");
        let value = i8_text(self.temperature);
        push_text(&mut info, value.as_str());
        assert(info@ =~= thermometer_info(self@));
        info
    }
}

impl Thermometer {
    /// A thermometer reading 0; its name must have at least
    /// `DEVICE_IDENTITY_MIN_LENGTH` bytes.
    pub fn new(name: String) -> (r: Result<Self, SmartHouseErrors>)
        ensures
            r is Err <==> byte_len(name@) < DEVICE_IDENTITY_MIN_LENGTH,
            r is Err ==> r matches Err(SmartHouseErrors::InvalidDeviceIdentity),
            r matches Ok(t) ==> t@ == (ThermometerView { name: name@, temperature: 0 }),
    {
        if text_byte_len(&name) < DEVICE_IDENTITY_MIN_LENGTH {
            return Err(SmartHouseErrors::InvalidDeviceIdentity);
        }
        Ok(Self { name, temperature: 0 })
    }

    pub fn temperature(&self) -> (r: i8)
        ensures
            r == self@.temperature,
    {
        self.temperature
    }

    pub fn set_temperature(&mut self, temperature: i8)
        ensures
            final(self)@ == (ThermometerView { temperature, ..old(self)@ }),
    {
        self.temperature = temperature;
    }
}

} // verus!
