//! A room of named devices, reachable for change in place.
use vstd::prelude::*;

pub mod clever_device;

use crate::named_map::{holds_name, lookup, names_of, put, taken, NamedMap};
use crate::smart_house::clever_room::clever_device::CleverDevice;
use crate::smart_house::errors::SmartHouseErrors;
use crate::smart_house::smart_room::smart_device::{SmartDevice, DEVICE_IDENTITY_MIN_LENGTH};
use crate::smart_house::smart_room::{add_device, devices_info, write_devices_info};
use crate::text::{byte_len, text_byte_len};

verus! {

/// Fewest bytes a room's name may have.
pub const CLEVER_ROOM_NAME_MIN_LENGTH: usize = 8;

pub struct CleverRoom {
    pub name: String,
    pub devices: NamedMap<CleverDevice>,
}

impl CleverRoom {
    /// An empty room; its name must have at least `CLEVER_ROOM_NAME_MIN_LENGTH`
    /// bytes.
    pub fn new(name: String) -> (r: Result<Self, SmartHouseErrors>)
        ensures
            r is Err <==> byte_len(name@) < CLEVER_ROOM_NAME_MIN_LENGTH,
            r is Err ==> r matches Err(SmartHouseErrors::InvalidRoomName),
            r matches Ok(room) ==> room.name@ == name@ && room.devices@.len() == 0,
    {
        if text_byte_len(&name) < CLEVER_ROOM_NAME_MIN_LENGTH {
            return Err(SmartHouseErrors::InvalidRoomName);
        }
        Ok(Self { name, devices: NamedMap::new() })
    }

    /// One line per device, in ascending name order.
    pub fn info(&self) -> (r: String)
        ensures
            r@ == devices_info(self.devices@),
    {
        write_devices_info(&self.devices)
    }

    /// Adds a device under its name, in place of any device of that name.
    pub fn add(&mut self, device: CleverDevice) -> (r: Result<(), SmartHouseErrors>)
        ensures
            final(self).name == old(self).name,
            r is Err <==> byte_len(device.spec_identity()) < DEVICE_IDENTITY_MIN_LENGTH,
            r is Err ==> (r matches Err(SmartHouseErrors::InvalidDeviceIdentity)
                && final(self).devices@ == old(self).devices@),
            r is Ok ==> put(old(self).devices@, final(self).devices@, device.spec_identity(), device),
    {
        add_device(&mut self.devices, device)
    }

    /// The device of that name, if any.
    pub fn get(&self, device_name: &str) -> (r: Option<&CleverDevice>)
        ensures
            match r {
                Some(d) => lookup(self.devices@, device_name@) == Some(*d),
                None => lookup(self.devices@, device_name@) is None,
            },
    {
        self.devices.get(device_name)
    }

    /// The device of that name, if any, to be changed in place.
    pub fn get_mut(&mut self, device_name: &str) -> (r: Option<&mut CleverDevice>)
        ensures
            final(self).name == old(self).name,
            match r {
                Some(d) => lookup(old(self).devices@, device_name@) == Some(*d) && exists|i: int|
                    holds_name(old(self).devices@, device_name@, i) && final(self).devices@
                        == old(self).devices@.update(i, (device_name@, *final(d))),
                None => lookup(old(self).devices@, device_name@) is None && final(self).devices@
                    == old(self).devices@,
            },
    {
        self.devices.get_mut(device_name)
    }

    /// Takes out the device of that name, if any.
    pub fn rem(&mut self, device_name: &str) -> (r: Option<CleverDevice>)
        ensures
            final(self).name == old(self).name,
            taken(old(self).devices@, final(self).devices@, device_name@, r),
    {
        self.devices.remove(device_name)
    }

    /// The names of the devices, in ascending order.
    pub fn list(&self) -> (r: Vec<String>)
        ensures
            r@.map_values(|s: String| s@) == names_of(self.devices@),
    {
        self.devices.names()
    }
}

} // verus!
