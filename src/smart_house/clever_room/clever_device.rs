//! The kinds of device a room can hold.
use vstd::prelude::*;

use crate::smart_house::smart_room::electric_socket::ElectricSocket;
use crate::smart_house::smart_room::smart_device::SmartDevice;
use crate::smart_house::smart_room::thermometer::Thermometer;

verus! {

pub enum CleverDevice {
    ElecticSocket(ElectricSocket),
    Thermometer(Thermometer),
}

impl SmartDevice for CleverDevice {
    open spec fn spec_identity(&self) -> Seq<char> {
        match self {
            CleverDevice::ElecticSocket(s) => s.spec_identity(),
            CleverDevice::Thermometer(t) => t.spec_identity(),
        }
    }

    open spec fn spec_info(&self) -> Seq<char> {
        match self {
            CleverDevice::ElecticSocket(s) => s.spec_info(),
            CleverDevice::Thermometer(t) => t.spec_info(),
        }
    }

    fn identity(&self) -> (r: &String) {
        match self {
            CleverDevice::ElecticSocket(s) => s.identity(),
            CleverDevice::Thermometer(t) => t.identity(),
        }
    }

    fn info(&self) -> (r: String) {
        match self {
            CleverDevice::ElecticSocket(s) => s.info(),
            CleverDevice::Thermometer(t) => t.info(),
        }
    }
}

} // verus!
