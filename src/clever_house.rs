//! A house of rooms whose devices are reached by name and changed in place.
use vstd::prelude::*;

use crate::named_map::{holds_name, lookup, names_of, put, taken, NamedMap};
use crate::smart_house::clever_room::{CleverRoom, CLEVER_ROOM_NAME_MIN_LENGTH};
use crate::smart_house::errors::SmartHouseErrors;
use crate::smart_house::smart_room::devices_info;
use crate::smart_house::{find_device, room_lines, status_line, write_room_lines, write_status_line};
use crate::text::{byte_len, push_text, text_byte_len};

verus! {

/// Fewest bytes a house's name may have.
pub const CLEVER_HOUSE_NAME_MIN_LENGTH: usize = 8;

pub struct CleverHouse {
    name: String,
    rooms: NamedMap<CleverRoom>,
}

/// The reports of the rooms' devices, one room after the other.
pub open spec fn clever_rooms_report(l: Seq<(Seq<char>, CleverRoom)>) -> Seq<char>
    decreases l.len(),
{
    if l.len() == 0 {
        Seq::empty()
    } else {
        clever_rooms_report(l.drop_last()) + devices_info(l.last().1.devices@)
    }
}

impl CleverHouse {
    /// The house's name.
    pub closed spec fn spec_name(&self) -> Seq<char> {
        self.name@
    }

    /// The house's rooms, in ascending name order.
    pub closed spec fn spec_rooms(&self) -> Seq<(Seq<char>, CleverRoom)> {
        self.rooms@
    }

    /// An empty house; its name must have at least
    /// `CLEVER_HOUSE_NAME_MIN_LENGTH` bytes.
    pub fn new(name: String) -> (r: Result<Self, SmartHouseErrors>)
        ensures
            r is Err <==> byte_len(name@) < CLEVER_HOUSE_NAME_MIN_LENGTH,
            r is Err ==> r matches Err(SmartHouseErrors::InvalidHouseName),
            r matches Ok(h) ==> h.spec_name() == name@ && h.spec_rooms().len() == 0,
    {
        if text_byte_len(&name) < CLEVER_HOUSE_NAME_MIN_LENGTH {
            return Err(SmartHouseErrors::InvalidHouseName);
        }
        Ok(Self { name, rooms: NamedMap::new() })
    }

    /// Adds a room under its name, in place of any room of that name.
    pub fn add(&mut self, room: CleverRoom) -> (r: Result<(), SmartHouseErrors>)
        ensures
            final(self).spec_name() == old(self).spec_name(),
            r is Err <==> byte_len(room.name@) < CLEVER_ROOM_NAME_MIN_LENGTH,
            r is Err ==> (r matches Err(SmartHouseErrors::InvalidRoomName)
                && final(self).spec_rooms() == old(self).spec_rooms()),
            r is Ok ==> put(old(self).spec_rooms(), final(self).spec_rooms(), room.name@, room),
    {
        let room_name = room.name.clone();
        if text_byte_len(&room_name) < CLEVER_ROOM_NAME_MIN_LENGTH {
            return Err(SmartHouseErrors::InvalidRoomName);
        }
        self.rooms.insert(room_name, room);
        Ok(())
    }

    /// Takes out the room of that name, if any.
    pub fn rem(&mut self, room_name: &str) -> (r: Option<CleverRoom>)
        ensures
            final(self).spec_name() == old(self).spec_name(),
            taken(old(self).spec_rooms(), final(self).spec_rooms(), room_name@, r),
    {
        self.rooms.remove(room_name)
    }

    /// The room of that name, if any.
    pub fn get(&self, room_name: &str) -> (r: Option<&CleverRoom>)
        ensures
            match r {
                Some(room) => lookup(self.spec_rooms(), room_name@) == Some(*room),
                None => lookup(self.spec_rooms(), room_name@) is None,
            },
    {
        self.rooms.get(room_name)
    }

    /// The room of that name, if any, to be changed in place.
    pub fn get_mut(&mut self, room_name: &str) -> (r: Option<&mut CleverRoom>)
        ensures
            final(self).spec_name() == old(self).spec_name(),
            match r {
                Some(room) => lookup(old(self).spec_rooms(), room_name@) == Some(*room) && exists|
                    i: int,
                |
                    holds_name(old(self).spec_rooms(), room_name@, i) && final(self).spec_rooms()
                        == old(self).spec_rooms().update(i, (room_name@, *final(room))),
                None => lookup(old(self).spec_rooms(), room_name@) is None
                    && final(self).spec_rooms() == old(self).spec_rooms(),
            },
    {
        self.rooms.get_mut(room_name)
    }

    /// The names of the rooms, in ascending order.
    pub fn list(&self) -> (r: Vec<String>)
        ensures
            r@.map_values(|s: String| s@) == names_of(self.spec_rooms()),
    {
        self.rooms.names()
    }

    /// One `Room: <name>` line per room, in ascending name order.
    pub fn info_rooms(&self) -> (r: String)
        ensures
            r@ == room_lines(names_of(self.spec_rooms())),
    {
        write_room_lines(&self.rooms)
    }

    /// `House '<name>'`, then the devices' reports of each room, rooms in
    /// ascending name order.
    pub fn info(&self) -> (r: String)
        ensures
            r@ == "House '"@ + self.spec_name() + "'\n"@ + clever_rooms_report(self.spec_rooms()),
    {
        let mut info = String::new();
        push_text(&mut info, "House '");
        push_text(&mut info, self.name.as_str());
        push_text(&mut info, "'\n");
        let ghost head = info@;
        let ghost l = self.rooms@;
        let n = self.rooms.len();
        let mut i: usize = 0;
        assert(l.take(0) =~= Seq::<(Seq<char>, CleverRoom)>::empty());
        assert(info@ =~= head + clever_rooms_report(l.take(0)));
        while i < n
            invariant
                n == l.len(),
                l == self.rooms@,
                i <= n,
                info@ == head + clever_rooms_report(l.take(i as int)),
            decreases n - i,
        {
            let devices = self.rooms.value_at(i).info();
            push_text(&mut info, devices.as_str());
            assert(l.take(i + 1).drop_last() =~= l.take(i as int));
            assert(info@ =~= head + clever_rooms_report(l.take(i + 1)));
            i = i + 1;
        }
        assert(l.take(i as int) =~= l);
        info
    }

    /// `Room <room> Device status <report>`, or which of the room and the
    /// device was not found.
    pub fn device_status(&self, room_name: &str, device_name: &str) -> (r: Result<
        String,
        SmartHouseErrors,
    >)
        ensures
            match lookup(self.spec_rooms(), room_name@) {
                None => r matches Err(SmartHouseErrors::RoomNotFound(n)) && n@ == room_name@,
                Some(room) => match lookup(room.devices@, device_name@) {
                    None => r matches Err(SmartHouseErrors::DeviceNotFound(names)) && names.0@
                        == room_name@ && names.1@ == device_name@,
                    Some(d) => r matches Ok(s) && s@ == status_line(room_name@, d),
                },
            },
    {
        let devices = match self.rooms.get(room_name) {
            Some(room) => Some(&room.devices),
            None => None,
        };
        let device = match find_device(devices, room_name, device_name) {
            Ok(device) => device,
            Err(e) => {
                return Err(e);
            },
        };
        Ok(write_status_line(room_name, device))
    }
}

} // verus!
