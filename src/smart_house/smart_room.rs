//! A room of named devices.
use vstd::prelude::*;

pub mod electric_socket;
pub mod smart_device;
pub mod thermometer;

use crate::named_map::{lookup, put, taken, names_of, NamedMap};
use crate::smart_house::clever_room::clever_device::CleverDevice;
use crate::smart_house::errors::SmartHouseErrors;
use crate::smart_house::smart_room::smart_device::{SmartDevice, DEVICE_IDENTITY_MIN_LENGTH};
use crate::text::{byte_len, push_text, text_byte_len};

verus! {

/// Fewest bytes a room's name may have.
pub const SMART_ROOM_NAME_MIN_LENGTH: usize = 8;

pub struct SmartRoom {
    pub name: String,
    pub devices: NamedMap<CleverDevice>,
}

/// The report of a room's devices: one line per device, in ascending name
/// order.
pub open spec fn devices_info(l: Seq<(Seq<char>, CleverDevice)>) -> Seq<char>
    decreases l.len(),
{
    if l.len() == 0 {
        Seq::empty()
    } else {
        devices_info(l.drop_last()) + l.last().1.spec_info() + "\n"@
    }
}

/// Writes the report of a room's devices.
pub fn write_devices_info(devices: &NamedMap<CleverDevice>) -> (r: String)
    ensures
        r@ == devices_info(devices@),
{
    let mut info = String::new();
    let n = devices.len();
    let mut i: usize = 0;
    assert(devices@.take(0) =~= Seq::<(Seq<char>, CleverDevice)>::empty());
    while i < n
        invariant
            n == devices@.len(),
            i <= n,
            info@ == devices_info(devices@.take(i as int)),
        decreases n - i,
    {
        let line = devices.value_at(i).info();
        push_text(&mut info, line.as_str());
        push_text(&mut info, "\n");
        assert(devices@.take(i + 1).drop_last() =~= devices@.take(i as int));
        assert(info@ =~= devices_info(devices@.take(i + 1)));
        i = i + 1;
    }
    assert(devices@.take(i as int) =~= devices@);
    info
}

/// Adds a device under its name, refusing a name shorter than
/// `DEVICE_IDENTITY_MIN_LENGTH` bytes.
pub fn add_device(devices: &mut NamedMap<CleverDevice>, device: CleverDevice) -> (r: Result<(), SmartHouseErrors>)
    ensures
        r is Err <==> byte_len(device.spec_identity()) < DEVICE_IDENTITY_MIN_LENGTH,
        r is Err ==> (r matches Err(SmartHouseErrors::InvalidDeviceIdentity) && final(devices)@
            == old(devices)@),
        r is Ok ==> put(old(devices)@, final(devices)@, device.spec_identity(), device),
{
    let name = device.identity().clone();
    if text_byte_len(&name) < DEVICE_IDENTITY_MIN_LENGTH {
        return Err(SmartHouseErrors::InvalidDeviceIdentity);
    }
    devices.insert(name, device);
    Ok(())
}

impl SmartRoom {
    /// An empty room; its name must have at least `SMART_ROOM_NAME_MIN_LENGTH`
    /// bytes.
    pub fn new(name: String) -> (r: Result<Self, SmartHouseErrors>)
        ensures
            r is Err <==> byte_len(name@) < SMART_ROOM_NAME_MIN_LENGTH,
            r is Err ==> r matches Err(SmartHouseErrors::InvalidRoomName),
            r matches Ok(room) ==> room.name@ == name@ && room.devices@.len() == 0,
    {
        if text_byte_len(&name) < SMART_ROOM_NAME_MIN_LENGTH {
            return Err(SmartHouseErrors::InvalidRoomName);
        }
        Ok(Self { name, devices: NamedMap::new() })
    }

    /// One line per device, in ascending name order.
    pub fn info(&self) -> (r: String)
        ensures
            r@ == devices_info(self.devices@),
    {
        write_devices_info(&self.devices)
    }

    /// Adds a device under its name, in place of any device of that name.
    pub fn add(&mut self, device: CleverDevice) -> (r: Result<(), SmartHouseErrors>)
        ensures
            final(self).name == old(self).name,
            r is Err <==> byte_len(device.spec_identity()) < DEVICE_IDENTITY_MIN_LENGTH,
            r is Err ==> (r matches Err(SmartHouseErrors::InvalidDeviceIdentity)
                && final(self).devices@ == old(self).devices@),
            r is Ok ==> put(old(self).devices@, final(self).devices@, device.spec_identity(), device),
    {
        add_device(&mut self.devices, device)
    }

    /// Takes out the device of that name, if any.
    pub fn rem(&mut self, device_name: &str) -> (r: Option<CleverDevice>)
        ensures
            final(self).name == old(self).name,
            taken(old(self).devices@, final(self).devices@, device_name@, r),
    {
        self.devices.remove(device_name)
    }

    /// The device of that name, if any.
    pub fn get(&self, device_name: &str) -> (r: Option<&CleverDevice>)
        ensures
            match r {
                Some(d) => lookup(self.devices@, device_name@) == Some(*d),
                None => lookup(self.devices@, device_name@) is None,
            },
    {
        self.devices.get(device_name)
    }

    /// The names of the devices, in ascending order.
    pub fn list(&self) -> (r: Vec<String>)
        ensures
            r@.map_values(|s: String| s@) == names_of(self.devices@),
    {
        self.devices.names()
    }
}

} // verus!
