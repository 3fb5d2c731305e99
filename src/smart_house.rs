//! A house of named rooms, each holding named devices, with text reports.
use vstd::prelude::*;

pub mod clever_room;
pub mod errors;
pub mod smart_room;

use crate::named_map::{holds_name, lookup, names_of, put, taken, NamedMap};
use crate::smart_house::clever_room::clever_device::CleverDevice;
use crate::smart_house::errors::SmartHouseErrors;
use crate::smart_house::smart_room::smart_device::SmartDevice;
use crate::smart_house::smart_room::{devices_info, SmartRoom, SMART_ROOM_NAME_MIN_LENGTH};
use crate::text::{byte_len, push_text, text_byte_len};

verus! {

/// Fewest bytes a house's name may have.
pub const SMART_HOUSE_NAME_MIN_LENGTH: usize = 8;

pub struct SmartHouse {
    name: String,
    rooms: NamedMap<SmartRoom>,
}

/// One `Room: <name>` line per room name, in order.
pub open spec fn room_lines(names: Seq<Seq<char>>) -> Seq<char>
    decreases names.len(),
{
    if names.len() == 0 {
        Seq::empty()
    } else {
        room_lines(names.drop_last()) + "Room: "@ + names.last() + "\n"@
    }
}

/// Each room's `Room: <name>` line followed by the report of its devices.
pub open spec fn rooms_report(l: Seq<(Seq<char>, SmartRoom)>) -> Seq<char>
    decreases l.len(),
{
    if l.len() == 0 {
        Seq::empty()
    } else {
        rooms_report(l.drop_last()) + "Room: "@ + l.last().0 + "\n"@ + devices_info(
            l.last().1.devices@,
        )
    }
}

/// The status line of a device in a room.
pub open spec fn status_line(room_name: Seq<char>, device: CleverDevice) -> Seq<char> {
    "Room "@ + room_name + " Device status "@ + device.spec_info()
}

/// Writes one `Room: <name>` line per entry of a map, in order.
pub fn write_room_lines<V>(rooms: &NamedMap<V>) -> (r: String)
    ensures
        r@ == room_lines(names_of(rooms@)),
{
    let mut info = String::new();
    let n = rooms.len();
    let ghost names = names_of(rooms@);
    let mut i: usize = 0;
    assert(names.take(0) =~= Seq::<Seq<char>>::empty());
    while i < n
        invariant
            n == rooms@.len(),
            names == names_of(rooms@),
            i <= n,
            info@ == room_lines(names.take(i as int)),
        decreases n - i,
    {
        push_text(&mut info, "Room: ");
        push_text(&mut info, rooms.name_at(i).as_str());
        push_text(&mut info, "\n");
        assert(names.take(i + 1).drop_last() =~= names.take(i as int));
        assert(info@ =~= room_lines(names.take(i + 1)));
        i = i + 1;
    }
    assert(names.take(i as int) =~= names);
    info
}

/// Looks up a device of a room, for a status report.
pub fn find_device<'a>(
    room: Option<&'a NamedMap<CleverDevice>>,
    room_name: &str,
    device_name: &str,
) -> (r: Result<&'a CleverDevice, SmartHouseErrors>)
    ensures
        match room {
            None => r matches Err(SmartHouseErrors::RoomNotFound(n)) && n@ == room_name@,
            Some(devices) => match lookup(devices@, device_name@) {
                None => r matches Err(SmartHouseErrors::DeviceNotFound(names)) && names.0@
                    == room_name@ && names.1@ == device_name@,
                Some(d) => r == Ok::<&CleverDevice, SmartHouseErrors>(&d),
            },
        },
{
    match room {
        Some(devices) => match devices.get(device_name) {
            Some(device) => Ok(device),
            None => Err(
                SmartHouseErrors::DeviceNotFound(
                    (String::from_str(room_name), String::from_str(device_name)),
                ),
            ),
        },
        None => Err(SmartHouseErrors::RoomNotFound(String::from_str(room_name))),
    }
}

/// Writes the status line of a device in a room.
pub fn write_status_line(room_name: &str, device: &CleverDevice) -> (r: String)
    ensures
        r@ == status_line(room_name@, *device),
{
    let mut info = String::new();
    push_text(&mut info, "Room ");
    push_text(&mut info, room_name);
    push_text(&mut info, " Device status ");
    let line = device.info();
    push_text(&mut info, line.as_str());
    assert(info@ =~= status_line(room_name@, *device));
    info
}

impl SmartHouse {
    /// The house's name.
    pub closed spec fn spec_name(&self) -> Seq<char> {
        self.name@
    }

    /// The house's rooms, in ascending name order.
    pub closed spec fn spec_rooms(&self) -> Seq<(Seq<char>, SmartRoom)> {
        self.rooms@
    }

    /// An empty house; its name must have at least
    /// `SMART_HOUSE_NAME_MIN_LENGTH` bytes.
    pub fn new(name: String) -> (r: Result<Self, SmartHouseErrors>)
        ensures
            r is Err <==> byte_len(name@) < SMART_HOUSE_NAME_MIN_LENGTH,
            r is Err ==> r matches Err(SmartHouseErrors::InvalidHouseName),
            r matches Ok(h) ==> h.spec_name() == name@ && h.spec_rooms().len() == 0,
    {
        if text_byte_len(&name) < SMART_HOUSE_NAME_MIN_LENGTH {
            return Err(SmartHouseErrors::InvalidHouseName);
        }
        Ok(Self { name, rooms: NamedMap::new() })
    }

    /// Adds a room under its name, in place of any room of that name.
    pub fn add(&mut self, room: SmartRoom) -> (r: Result<(), SmartHouseErrors>)
        ensures
            final(self).spec_name() == old(self).spec_name(),
            r is Err <==> byte_len(room.name@) < SMART_ROOM_NAME_MIN_LENGTH,
            r is Err ==> (r matches Err(SmartHouseErrors::InvalidRoomName)
                && final(self).spec_rooms() == old(self).spec_rooms()),
            r is Ok ==> put(old(self).spec_rooms(), final(self).spec_rooms(), room.name@, room),
    {
        let room_name = room.name.clone();
        if text_byte_len(&room_name) < SMART_ROOM_NAME_MIN_LENGTH {
            return Err(SmartHouseErrors::InvalidRoomName);
        }
        self.rooms.insert(room_name, room);
        Ok(())
    }

    /// Takes out the room of that name, if any.
    pub fn rem(&mut self, room_name: &str) -> (r: Option<SmartRoom>)
        ensures
            final(self).spec_name() == old(self).spec_name(),
            taken(old(self).spec_rooms(), final(self).spec_rooms(), room_name@, r),
    {
        self.rooms.remove(room_name)
    }

    /// The room of that name, if any.
    pub fn get(&self, room_name: &str) -> (r: Option<&SmartRoom>)
        ensures
            match r {
                Some(room) => lookup(self.spec_rooms(), room_name@) == Some(*room),
                None => lookup(self.spec_rooms(), room_name@) is None,
            },
    {
        self.rooms.get(room_name)
    }

    /// The room of that name, if any, to be changed in place.
    pub fn get_mut(&mut self, room_name: &str) -> (r: Option<&mut SmartRoom>)
        ensures
            final(self).spec_name() == old(self).spec_name(),
            match r {
                Some(room) => lookup(old(self).spec_rooms(), room_name@) == Some(*room) && exists|
                    i: int,
                |
                    holds_name(old(self).spec_rooms(), room_name@, i) && final(self).spec_rooms()
                        == old(self).spec_rooms().update(i, (room_name@, *final(room))),
                None => lookup(old(self).spec_rooms(), room_name@) is None
                    && final(self).spec_rooms() == old(self).spec_rooms(),
            },
    {
        self.rooms.get_mut(room_name)
    }

    /// The names of the rooms, in ascending order.
    pub fn list(&self) -> (r: Vec<String>)
        ensures
            r@.map_values(|s: String| s@) == names_of(self.spec_rooms()),
    {
        self.rooms.names()
    }

    /// One `Room: <name>` line per room, in ascending name order.
    pub fn info_rooms(&self) -> (r: String)
        ensures
            r@ == room_lines(names_of(self.spec_rooms())),
    {
        write_room_lines(&self.rooms)
    }

    /// `House <name>`, then each room's line followed by its devices' report,
    /// rooms in ascending name order.
    pub fn info(&self) -> (r: String)
        ensures
            r@ == "House "@ + self.spec_name() + "\n"@ + rooms_report(self.spec_rooms()),
    {
        let mut info = String::new();
        push_text(&mut info, "House ");
        push_text(&mut info, self.name.as_str());
        push_text(&mut info, "\n");
        let ghost head = info@;
        let ghost l = self.rooms@;
        let n = self.rooms.len();
        let mut i: usize = 0;
        assert(l.take(0) =~= Seq::<(Seq<char>, SmartRoom)>::empty());
        assert(info@ =~= head + rooms_report(l.take(0)));
        while i < n
            invariant
                n == l.len(),
                l == self.rooms@,
                i <= n,
                info@ == head + rooms_report(l.take(i as int)),
            decreases n - i,
        {
            push_text(&mut info, "Room: ");
            push_text(&mut info, self.rooms.name_at(i).as_str());
            push_text(&mut info, "\n");
            let devices = self.rooms.value_at(i).info();
            push_text(&mut info, devices.as_str());
            assert(l.take(i + 1).drop_last() =~= l.take(i as int));
            assert(info@ =~= head + rooms_report(l.take(i + 1)));
            i = i + 1;
        }
        assert(l.take(i as int) =~= l);
        info
    }

    /// `Room <room> Device status <report>` and a line break, or which of the
    /// room and the device was not found.
    pub fn device_status(&self, room_name: &str, device_name: &str) -> (r: Result<
        String,
        SmartHouseErrors,
    >)
        ensures
            match lookup(self.spec_rooms(), room_name@) {
                None => r matches Err(SmartHouseErrors::RoomNotFound(n)) && n@ == room_name@,
                Some(room) => match lookup(room.devices@, device_name@) {
                    None => r matches Err(SmartHouseErrors::DeviceNotFound(names)) && names.0@
                        == room_name@ && names.1@ == device_name@,
                    Some(d) => r matches Ok(s) && s@ == status_line(room_name@, d) + "\n"@,
                },
            },
    {
        let devices = match self.rooms.get(room_name) {
            Some(room) => Some(&room.devices),
            None => None,
        };
        let device = match find_device(devices, room_name, device_name) {
            Ok(device) => device,
            Err(e) => {
                return Err(e);
            },
        };
        let mut info = write_status_line(room_name, device);
        push_text(&mut info, "\n");
        Ok(info)
    }
}

} // verus!
