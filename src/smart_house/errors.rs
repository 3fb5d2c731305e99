//! Errors of the house, room and device containers.
use vstd::prelude::*;

verus! {

/// Why a container operation was refused.
#[derive(Debug)]
pub enum SmartHouseErrors {
    InvalidHouseName,
    InvalidRoomName,
    InvalidDeviceIdentity,
    RoomNotFound(String),
    DeviceNotFound((String, String)),
}

} // verus!
