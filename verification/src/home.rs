//! The smart home: a catalog of rooms under unique names, each room holding
//! device names unique within it. Room and device listings come out sorted;
//! a report renders every device through an information provider.

use vstd::prelude::*;

use crate::strutil::{
    lemma_lex_lt_irrefl, lemma_lex_lt_total, lemma_lex_lt_trans, lex_lt, str_eq, str_lt, views_of,
};
use crate::DeviceInfoProvider;

verus! {

/// Why a catalog operation was refused.
#[derive(Debug)]
pub enum SmartHomeError {
    DupRoom(String),
    NoRoom(String),
    DupDevice { room: String, device: String },
    NoDevice { room: String, device: String },
    NoRooms,
}

impl SmartHomeError {
    /// A human-readable message for the error.
    pub fn message(&self) -> (r: String)
        ensures
            self matches SmartHomeError::NoRooms ==> r@ == "No rooms in home"@,
    {
        match self {
            SmartHomeError::DupRoom(room) => {
                let mut s = "Room ".to_owned();
                s.append(room.as_str());
                s.append(" already exists");
                s
            },
            SmartHomeError::NoRoom(room) => {
                let mut s = "No such room ".to_owned();
                s.append(room.as_str());
                s
            },
            SmartHomeError::DupDevice { room, device } => {
                let mut s = "Device ".to_owned();
                s.append(device.as_str());
                s.append(" already exists in the room ");
                s.append(room.as_str());
                s
            },
            SmartHomeError::NoDevice { room, device } => {
                let mut s = "No device ".to_owned();
                s.append(device.as_str());
                s.append(" in the room ");
                s.append(room.as_str());
                s
            },
            SmartHomeError::NoRooms => "No rooms in home".to_owned(),
        }
    }
}

impl PartialEq for SmartHomeError {
    fn eq(&self, other: &SmartHomeError) -> (r: bool) {
        match (self, other) {
            (SmartHomeError::DupRoom(a), SmartHomeError::DupRoom(b)) => *a == *b,
            (SmartHomeError::NoRoom(a), SmartHomeError::NoRoom(b)) => *a == *b,
            (
                SmartHomeError::DupDevice { room: r1, device: d1 },
                SmartHomeError::DupDevice { room: r2, device: d2 },
            ) => *r1 == *r2 && *d1 == *d2,
            (
                SmartHomeError::NoDevice { room: r1, device: d1 },
                SmartHomeError::NoDevice { room: r2, device: d2 },
            ) => *r1 == *r2 && *d1 == *d2,
            (SmartHomeError::NoRooms, SmartHomeError::NoRooms) => true,
            _ => false,
        }
    }
}

impl vstd::std_specs::cmp::PartialEqSpecImpl for SmartHomeError {
    open spec fn obeys_eq_spec() -> bool {
        true
    }

    open spec fn eq_spec(&self, other: &SmartHomeError) -> bool {
        match (self, other) {
            (SmartHomeError::DupRoom(a), SmartHomeError::DupRoom(b)) => a@ == b@,
            (SmartHomeError::NoRoom(a), SmartHomeError::NoRoom(b)) => a@ == b@,
            (
                SmartHomeError::DupDevice { room: r1, device: d1 },
                SmartHomeError::DupDevice { room: r2, device: d2 },
            ) => r1@ == r2@ && d1@ == d2@,
            (
                SmartHomeError::NoDevice { room: r1, device: d1 },
                SmartHomeError::NoDevice { room: r2, device: d2 },
            ) => r1@ == r2@ && d1@ == d2@,
            (SmartHomeError::NoRooms, SmartHomeError::NoRooms) => true,
            _ => false,
        }
    }
}

struct Room {
    name: String,
    devices: Vec<String>,
}

/// The mathematical content of one room: its name and its device names in
/// storage order.
#[verifier::ext_equal]
pub struct RoomView {
    pub name: Seq<char>,
    pub devices: Seq<Seq<char>>,
}

/// Strictly ascending in the lexicographic order; in particular, all
/// distinct.
pub open spec fn sorted_strs(s: Seq<Seq<char>>) -> bool {
    forall|i: int, j: int| 0 <= i < j < s.len() ==> lex_lt(s[i], s[j])
}

/// All room names distinct.
pub open spec fn unique_names(rs: Seq<RoomView>) -> bool {
    forall|i: int, j: int|
        0 <= i < j < rs.len() ==> (#[trigger] rs[i]).name != (#[trigger] rs[j]).name
}

/// The mapping a sequence of rooms represents: each room name to the set of
/// device names in that room.
pub open spec fn map_of(rs: Seq<RoomView>) -> Map<Seq<char>, Set<Seq<char>>> {
    Map::new(
        |n: Seq<char>| exists|i: int| 0 <= i < rs.len() && (#[trigger] rs[i]).name == n,
        |n: Seq<char>|
            rs[choose|i: int| 0 <= i < rs.len() && (#[trigger] rs[i]).name == n].devices.to_set(),
    )
}

/// With distinct names, the room at a position is the one the mapping holds
/// under that room's name.
proof fn lemma_map_of_at(rs: Seq<RoomView>, i: int)
    requires
        unique_names(rs),
        0 <= i < rs.len(),
    ensures
        map_of(rs).contains_key(rs[i].name),
        map_of(rs)[rs[i].name] == rs[i].devices.to_set(),
{
    let n = rs[i].name;
    assert(map_of(rs).contains_key(n));
    let j = choose|j: int| 0 <= j < rs.len() && (#[trigger] rs[j]).name == n;
    assert(j == i);
}

/// Inserting a room under a fresh name inserts its entry into the mapping.
proof fn lemma_map_of_insert(rs: Seq<RoomView>, k: int, rv: RoomView)
    requires
        unique_names(rs),
        0 <= k <= rs.len(),
        forall|i: int| 0 <= i < rs.len() ==> (#[trigger] rs[i]).name != rv.name,
    ensures
        unique_names(rs.insert(k, rv)),
        map_of(rs.insert(k, rv)) == map_of(rs).insert(rv.name, rv.devices.to_set()),
{
    let rs2 = rs.insert(k, rv);
    rs.insert_ensures(k, rv);
    assert forall|i: int, j: int| 0 <= i < j < rs2.len() implies (#[trigger] rs2[i]).name != (
    #[trigger] rs2[j]).name by {
        if i < k && j < k {
            assert(rs2[i] == rs[i] && rs2[j] == rs[j]);
        } else if i < k && j == k {
            assert(rs2[i] == rs[i]);
        } else if i < k && j > k {
            assert(rs2[i] == rs[i] && rs2[j] == rs[j - 1]);
        } else if i == k {
            assert(rs2[j] == rs[j - 1]);
        } else {
            assert(rs2[i] == rs[i - 1] && rs2[j] == rs[j - 1]);
        }
    }
    assert forall|n: Seq<char>| #[trigger]
        map_of(rs2).contains_key(n) == map_of(rs).insert(rv.name, rv.devices.to_set()).contains_key(
        n,
    ) by {
        if n == rv.name {
            assert(rs2[k] == rv);
            assert(map_of(rs2).contains_key(n));
        } else {
            if map_of(rs2).contains_key(n) {
                let i = choose|i: int| 0 <= i < rs2.len() && (#[trigger] rs2[i]).name == n;
                if i < k {
                    assert(rs[i].name == n);
                } else {
                    assert(rs[i - 1].name == n);
                }
            }
            if map_of(rs).contains_key(n) {
                let i = choose|i: int| 0 <= i < rs.len() && (#[trigger] rs[i]).name == n;
                if i < k {
                    assert(rs2[i].name == n);
                } else {
                    assert(rs2[i + 1].name == n);
                }
            }
        }
    }
    assert forall|n: Seq<char>| map_of(rs2).contains_key(n) implies #[trigger] map_of(rs2)[n]
        == map_of(rs).insert(rv.name, rv.devices.to_set())[n] by {
        let i = choose|i: int| 0 <= i < rs2.len() && (#[trigger] rs2[i]).name == n;
        lemma_map_of_at(rs2, i);
        if n == rv.name {
            assert(rs2[k] == rv);
            assert(i == k);
        } else {
            if i < k {
                lemma_map_of_at(rs, i);
                assert(rs2[i] == rs[i]);
            } else {
                lemma_map_of_at(rs, i - 1);
                assert(rs2[i] == rs[i - 1]);
            }
        }
    }
    assert(map_of(rs2) =~= map_of(rs).insert(rv.name, rv.devices.to_set()));
}

/// Removing a room removes its entry from the mapping.
proof fn lemma_map_of_remove(rs: Seq<RoomView>, k: int)
    requires
        unique_names(rs),
        0 <= k < rs.len(),
    ensures
        unique_names(rs.remove(k)),
        map_of(rs.remove(k)) == map_of(rs).remove(rs[k].name),
{
    let rs2 = rs.remove(k);
    assert forall|i: int, j: int| 0 <= i < j < rs2.len() implies (#[trigger] rs2[i]).name != (
    #[trigger] rs2[j]).name by {
        let i0: int = if i < k { i } else { i + 1 };
        let j0: int = if j < k { j } else { j + 1 };
        assert(rs2[i] == rs[i0] && rs2[j] == rs[j0]);
    }
    assert forall|n: Seq<char>| #[trigger]
        map_of(rs2).contains_key(n) == map_of(rs).remove(rs[k].name).contains_key(n) by {
        if map_of(rs2).contains_key(n) {
            let i = choose|i: int| 0 <= i < rs2.len() && (#[trigger] rs2[i]).name == n;
            let i0: int = if i < k { i } else { i + 1 };
            assert(rs[i0].name == n);
            assert(n != rs[k].name);
        }
        if n != rs[k].name && map_of(rs).contains_key(n) {
            let i = choose|i: int| 0 <= i < rs.len() && (#[trigger] rs[i]).name == n;
            assert(i != k);
            if i < k {
                assert(rs2[i].name == n);
            } else {
                assert(rs2[i - 1].name == n);
            }
        }
    }
    assert forall|n: Seq<char>| map_of(rs2).contains_key(n) implies #[trigger] map_of(rs2)[n]
        == map_of(rs).remove(rs[k].name)[n] by {
        let i = choose|i: int| 0 <= i < rs2.len() && (#[trigger] rs2[i]).name == n;
        lemma_map_of_at(rs2, i);
        let i0: int = if i < k { i } else { i + 1 };
        lemma_map_of_at(rs, i0);
        assert(rs2[i] == rs[i0]);
    }
    assert(map_of(rs2) =~= map_of(rs).remove(rs[k].name));
}

/// Replacing a room's devices, keeping its name, overwrites its entry in the
/// mapping.
proof fn lemma_map_of_update(rs: Seq<RoomView>, k: int, rv: RoomView)
    requires
        unique_names(rs),
        0 <= k < rs.len(),
        rv.name == rs[k].name,
    ensures
        unique_names(rs.update(k, rv)),
        map_of(rs.update(k, rv)) == map_of(rs).insert(rv.name, rv.devices.to_set()),
{
    let rs2 = rs.update(k, rv);
    assert forall|i: int, j: int| 0 <= i < j < rs2.len() implies (#[trigger] rs2[i]).name != (
    #[trigger] rs2[j]).name by {
        assert(rs[i].name != rs[j].name);
    }
    assert forall|n: Seq<char>| #[trigger]
        map_of(rs2).contains_key(n) == map_of(rs).insert(rv.name, rv.devices.to_set()).contains_key(
        n,
    ) by {
        if map_of(rs2).contains_key(n) {
            let i = choose|i: int| 0 <= i < rs2.len() && (#[trigger] rs2[i]).name == n;
            assert(rs[i].name == n || n == rv.name);
        }
        if map_of(rs).contains_key(n) {
            let i = choose|i: int| 0 <= i < rs.len() && (#[trigger] rs[i]).name == n;
            if i == k {
                assert(rs2[k].name == n);
            } else {
                assert(rs2[i].name == n);
            }
        }
    }
    assert forall|n: Seq<char>| map_of(rs2).contains_key(n) implies #[trigger] map_of(rs2)[n]
        == map_of(rs).insert(rv.name, rv.devices.to_set())[n] by {
        let i = choose|i: int| 0 <= i < rs2.len() && (#[trigger] rs2[i]).name == n;
        lemma_map_of_at(rs2, i);
        if n == rv.name {
            assert(rs2[k].name == n);
            assert(i == k);
        } else {
            assert(i != k);
            lemma_map_of_at(rs, i);
            assert(rs2[i] == rs[i]);
        }
    }
    assert(map_of(rs2) =~= map_of(rs).insert(rv.name, rv.devices.to_set()));
}

/// The smart home: a named catalog of rooms, names kept sorted.
pub struct SmartHome {
    name: String,
    rooms: Vec<Room>,
}

impl SmartHome {
    /// The rooms in storage order: sorted by name.
    pub closed spec fn rooms_seq(&self) -> Seq<RoomView> {
        self.rooms@.map_values(
            |r: Room| RoomView { name: r.name@, devices: views_of(r.devices@) },
        )
    }

    /// The home's name.
    pub closed spec fn spec_name(&self) -> Seq<char> {
        self.name@
    }

    /// The room names in storage order.
    pub open spec fn names(&self) -> Seq<Seq<char>> {
        Seq::new(self.rooms_seq().len(), |i: int| self.rooms_seq()[i].name)
    }

    /// Room names sorted and unique; each room's device names sorted and
    /// unique.
    pub open spec fn well_formed(&self) -> bool {
        &&& sorted_strs(self.names())
        &&& forall|k: int|
            0 <= k < self.rooms_seq().len() ==> sorted_strs(
                (#[trigger] self.rooms_seq()[k]).devices,
            )
    }

    /// Whether a room of that name exists.
    pub open spec fn has_room(&self, name: Seq<char>) -> bool {
        map_of(self.rooms_seq()).contains_key(name)
    }

    /// The catalog as a mapping: each room name to its set of device names.
    pub open spec fn rooms_map(&self) -> Map<Seq<char>, Set<Seq<char>>> {
        map_of(self.rooms_seq())
    }

    /// Sorted names are unique.
    proof fn lemma_unique(&self)
        requires
            self.well_formed(),
        ensures
            unique_names(self.rooms_seq()),
    {
        assert forall|i: int, j: int| 0 <= i < j < self.rooms_seq().len() implies (
        #[trigger] self.rooms_seq()[i]).name != (#[trigger] self.rooms_seq()[j]).name by {
            assert(lex_lt(self.names()[i], self.names()[j]));
            if self.rooms_seq()[i].name == self.rooms_seq()[j].name {
                lemma_lex_lt_irrefl(self.names()[i]);
            }
        }
    }

    /// A home with the given name and no rooms.
    pub fn new(name: &str) -> (r: SmartHome)
        ensures
            r.well_formed(),
            r.spec_name() == name@,
            r.rooms_map() == Map::<Seq<char>, Set<Seq<char>>>::empty(),
    {
        let r = SmartHome { name: name.to_owned(), rooms: Vec::new() };
        proof {
            assert(r.rooms_map() =~= Map::<Seq<char>, Set<Seq<char>>>::empty());
        }
        r
    }

    /// The position of the room of that name, or the position where such a
    /// room would be inserted to keep the names sorted.
    fn find_room(&self, name: &str) -> (r: Result<usize, usize>)
        requires
            self.well_formed(),
        ensures
            match r {
                Ok(i) => i < self.rooms_seq().len() && self.rooms_seq()[i as int].name == name@,
                Err(k) => {
                    &&& k <= self.rooms_seq().len()
                    &&& forall|j: int| 0 <= j < k ==> lex_lt(self.names()[j], name@)
                    &&& forall|j: int|
                        k <= j < self.names().len() ==> lex_lt(name@, self.names()[j])
                    &&& !self.has_room(name@)
                },
            },
    {
        let n = self.rooms.len();
        let mut i: usize = 0;
        while i < n
            invariant
                self.well_formed(),
                n == self.rooms.len(),
                self.rooms_seq().len() == n,
                i <= n,
                forall|j: int| 0 <= j < i ==> lex_lt(self.names()[j], name@),
            decreases n - i,
        {
            let room = &self.rooms[i];
            if str_eq(room.name.as_str(), name) {
                return Ok(i);
            }
            if !str_lt(room.name.as_str(), name) {
                proof {
                    lemma_lex_lt_total(self.names()[i as int], name@);
                    assert(lex_lt(name@, self.names()[i as int]));
                    assert forall|j: int| i <= j < self.names().len() implies lex_lt(
                        name@,
                        self.names()[j],
                    ) by {
                        if j > i {
                            lemma_lex_lt_trans(name@, self.names()[i as int], self.names()[j]);
                        }
                    }
                    self.lemma_not_found(i as int, name@);
                }
                return Err(i);
            }
            i = i + 1;
        }
        proof {
            self.lemma_not_found(n as int, name@);
        }
        Err(n)
    }

    /// A name below the insertion point's room and above every earlier room
    /// names no room.
    proof fn lemma_not_found(&self, k: int, name: Seq<char>)
        requires
            self.well_formed(),
            0 <= k <= self.names().len(),
            forall|j: int| 0 <= j < k ==> lex_lt(self.names()[j], name),
            forall|j: int| k <= j < self.names().len() ==> lex_lt(name, self.names()[j]),
        ensures
            !self.has_room(name),
    {
        if self.has_room(name) {
            let i = choose|i: int|
                0 <= i < self.rooms_seq().len() && (#[trigger] self.rooms_seq()[i]).name == name;
            lemma_lex_lt_irrefl(name);
            assert(self.names()[i] == name);
        }
    }

    /// Registers a room; a second room of the same name is refused.
    pub fn add_room(&mut self, room_name: &str) -> (r: Result<(), SmartHomeError>)
        requires
            old(self).well_formed(),
        ensures
            final(self).well_formed(),
            final(self).spec_name() == old(self).spec_name(),
            old(self).has_room(room_name@) ==> (r matches Err(SmartHomeError::DupRoom(m)) && m@
                == room_name@) && final(self).rooms_seq() == old(self).rooms_seq(),
            !old(self).has_room(room_name@) ==> r is Ok && final(self).rooms_map() == old(
                self,
            ).rooms_map().insert(room_name@, Set::<Seq<char>>::empty()),
    {
        proof {
            self.lemma_unique();
        }
        match self.find_room(room_name) {
            Ok(i) => {
                proof {
                    lemma_map_of_at(self.rooms_seq(), i as int);
                }
                Err(SmartHomeError::DupRoom(room_name.to_owned()))
            },
            Err(k) => {
                let ghost rs = self.rooms_seq();
                let room = Room { name: room_name.to_owned(), devices: Vec::new() };
                self.rooms.insert(k, room);
                proof {
                    let rv = RoomView { name: room_name@, devices: Seq::empty() };
                    assert(self.rooms_seq() =~~= rs.insert(k as int, rv));
                    assert forall|i: int| 0 <= i < rs.len() implies (#[trigger] rs[i]).name
                        != rv.name by {
                        if rs[i].name == rv.name {
                            lemma_lex_lt_irrefl(rv.name);
                        }
                    }
                    lemma_map_of_insert(rs, k as int, rv);
                    assert(rv.devices.to_set() =~= Set::<Seq<char>>::empty());
                    self.lemma_sorted_after_insert(old(self), k as int, rv);
                }
                Ok(())
            },
        }
    }

    /// Inserting at the found position keeps the names sorted.
    proof fn lemma_sorted_after_insert(&self, pre: &SmartHome, k: int, rv: RoomView)
        requires
            pre.well_formed(),
            0 <= k <= pre.names().len(),
            forall|j: int| 0 <= j < k ==> lex_lt(pre.names()[j], rv.name),
            forall|j: int| k <= j < pre.names().len() ==> lex_lt(rv.name, pre.names()[j]),
            sorted_strs(rv.devices),
            self.rooms_seq() == pre.rooms_seq().insert(k, rv),
        ensures
            self.well_formed(),
    {
        let rs = pre.rooms_seq();
        let rs2 = rs.insert(k, rv);
        rs.insert_ensures(k, rv);
        pre.names().insert_ensures(k, rv.name);
        assert(self.rooms_seq() == rs2);
        assert forall|m: int| 0 <= m < self.names().len() implies #[trigger] self.names()[m]
            == pre.names().insert(k, rv.name)[m] by {
            if m < k {
                assert(rs2[m] == rs[m]);
                assert(pre.names().insert(k, rv.name)[m] == pre.names()[m]);
            } else if m == k {
                assert(rs2[m] == rv);
                assert(pre.names().insert(k, rv.name)[m] == rv.name);
            } else {
                assert(rs2[m] == rs[m - 1]);
                assert(pre.names().insert(k, rv.name)[m] == pre.names()[m - 1]);
            }
        }
        assert(self.names() =~= pre.names().insert(k, rv.name));
        lemma_sorted_insert(pre.names(), k, rv.name);
        assert forall|m: int| 0 <= m < self.rooms_seq().len() implies sorted_strs(
            (#[trigger] self.rooms_seq()[m]).devices,
        ) by {
            if m < k {
                assert(rs2[m] == rs[m]);
            } else if m == k {
                assert(rs2[m] == rv);
            } else {
                assert(rs2[m] == rs[m - 1]);
            }
        }
    }

    /// Removes a room with all its devices; a missing room is refused.
    pub fn remove_room(&mut self, room_name: &str) -> (r: Result<(), SmartHomeError>)
        requires
            old(self).well_formed(),
        ensures
            final(self).well_formed(),
            final(self).spec_name() == old(self).spec_name(),
            old(self).has_room(room_name@) ==> r is Ok && final(self).rooms_map() == old(
                self,
            ).rooms_map().remove(room_name@),
            !old(self).has_room(room_name@) ==> (r matches Err(SmartHomeError::NoRoom(m)) && m@
                == room_name@) && final(self).rooms_seq() == old(self).rooms_seq(),
    {
        proof {
            self.lemma_unique();
        }
        match self.find_room(room_name) {
            Ok(i) => {
                proof {
                    lemma_map_of_at(self.rooms_seq(), i as int);
                }
                let ghost rs = self.rooms_seq();
                self.rooms.remove(i);
                proof {
                    assert(self.rooms_seq() =~= rs.remove(i as int));
                    lemma_map_of_remove(rs, i as int);
                    assert forall|a: int, b: int| 0 <= a < b < self.names().len() implies lex_lt(
                        self.names()[a],
                        self.names()[b],
                    ) by {
                        let a0: int = if a < i { a } else { a + 1 };
                        let b0: int = if b < i { b } else { b + 1 };
                        assert(self.rooms_seq()[a] == rs[a0] && self.rooms_seq()[b] == rs[b0]);
                        assert(lex_lt(old(self).names()[a0], old(self).names()[b0]));
                    }
                    assert forall|m: int| 0 <= m < self.rooms_seq().len() implies sorted_strs(
                        (#[trigger] self.rooms_seq()[m]).devices,
                    ) by {
                        let m0: int = if m < i { m } else { m + 1 };
                        assert(self.rooms_seq()[m] == rs[m0]);
                    }
                }
                Ok(())
            },
            Err(_) => Err(SmartHomeError::NoRoom(room_name.to_owned())),
        }
    }

    /// The room names, sorted ascending.
    pub fn get_rooms(&self) -> (r: Vec<String>)
        requires
            self.well_formed(),
        ensures
            views_of(r@) == self.names(),
            sorted_strs(views_of(r@)),
            forall|j: int| 0 <= j < r@.len() ==> self.has_room(#[trigger] views_of(r@)[j]),
            forall|n: Seq<char>| self.has_room(n) ==> views_of(r@).contains(n),
    {
        let n = self.rooms.len();
        let mut out: Vec<String> = Vec::new();
        let mut i: usize = 0;
        while i < n
            invariant
                self.well_formed(),
                n == self.rooms.len(),
                self.rooms_seq().len() == n,
                i <= n,
                out@.len() == i,
                views_of(out@) == self.names().take(i as int),
            decreases n - i,
        {
            let room = &self.rooms[i];
            out.push(room.name.clone());
            proof {
                assert(views_of(out@) =~= self.names().take(i + 1));
            }
            i = i + 1;
        }
        proof {
            assert(views_of(out@) =~= self.names());
            self.lemma_unique();
            assert forall|j: int| 0 <= j < out@.len() implies self.has_room(
                #[trigger] views_of(out@)[j],
            ) by {
                lemma_map_of_at(self.rooms_seq(), j);
            }
            assert forall|nm: Seq<char>| self.has_room(nm) implies views_of(out@).contains(nm) by {
                let j = choose|j: int|
                    0 <= j < self.rooms_seq().len() && (#[trigger] self.rooms_seq()[j]).name == nm;
                assert(views_of(out@)[j] == nm);
            }
        }
        out
    }

    /// The device names in a room, sorted ascending; a missing room is
    /// refused.
    pub fn devices(&self, room: &str) -> (r: Result<Vec<String>, SmartHomeError>)
        requires
            self.well_formed(),
        ensures
            match r {
                Ok(v) => self.has_room(room@) && views_of(v@).to_set() == self.rooms_map()[room@]
                    && sorted_strs(views_of(v@)),
                Err(e) => !self.has_room(room@) && (e matches SmartHomeError::NoRoom(m) && m@
                    == room@),
            },
    {
        proof {
            self.lemma_unique();
        }
        match self.find_room(room) {
            Ok(i) => {
                proof {
                    lemma_map_of_at(self.rooms_seq(), i as int);
                }
                let devs = &self.rooms[i].devices;
                let n = devs.len();
                let mut out: Vec<String> = Vec::new();
                let mut j: usize = 0;
                while j < n
                    invariant
                        n == devs.len(),
                        j <= n,
                        out@.len() == j,
                        views_of(out@) == views_of(devs@).take(j as int),
                    decreases n - j,
                {
                    out.push(devs[j].clone());
                    proof {
                        assert(views_of(out@) =~= views_of(devs@).take(j + 1));
                    }
                    j = j + 1;
                }
                proof {
                    assert(views_of(out@) =~= views_of(devs@));
                    assert(views_of(devs@) == self.rooms_seq()[i as int].devices);
                }
                Ok(out)
            },
            Err(_) => Err(SmartHomeError::NoRoom(room.to_owned())),
        }
    }

    /// Registers a device name in a room, creating the room when it is new;
    /// a second device of the same name in the same room is refused.
    pub fn add_device(&mut self, room_name: &str, dev_name: &str) -> (r: Result<
        (),
        SmartHomeError,
    >)
        requires
            old(self).well_formed(),
        ensures
            final(self).well_formed(),
            final(self).spec_name() == old(self).spec_name(),
            !old(self).has_room(room_name@) ==> r is Ok && final(self).rooms_map() == old(
                self,
            ).rooms_map().insert(room_name@, Set::<Seq<char>>::empty().insert(dev_name@)),
            old(self).has_room(room_name@) && !old(self).rooms_map()[room_name@].contains(dev_name@)
                ==> r is Ok && final(self).rooms_map() == old(self).rooms_map().insert(
                room_name@,
                old(self).rooms_map()[room_name@].insert(dev_name@),
            ),
            old(self).has_room(room_name@) && old(self).rooms_map()[room_name@].contains(dev_name@)
                ==> (r matches Err(SmartHomeError::DupDevice { room, device }) && room@
                == room_name@ && device@ == dev_name@) && final(self).rooms_seq() == old(
                self,
            ).rooms_seq(),
    {
        proof {
            self.lemma_unique();
        }
        match self.find_room(room_name) {
            Ok(i) => {
                proof {
                    lemma_map_of_at(self.rooms_seq(), i as int);
                }
                let ghost rs = self.rooms_seq();
                let ghost oldroom = self.rooms_seq()[i as int];
                let room = &mut self.rooms[i];
                match Self::find_dev(&room.devices, dev_name) {
                    Ok(_) => {
                        proof {
                            assert(self.rooms_seq() =~= rs);
                        }
                        Err(
                            SmartHomeError::DupDevice {
                                room: room_name.to_owned(),
                                device: dev_name.to_owned(),
                            },
                        )
                    },
                    Err(k) => {
                        let ghost olddevs = views_of(room.devices@);
                        room.devices.insert(k, dev_name.to_owned());
                        proof {
                            let rv = RoomView {
                                name: oldroom.name,
                                devices: olddevs.insert(k as int, dev_name@),
                            };
                            assert(self.rooms_seq() =~~= rs.update(i as int, rv));
                            lemma_map_of_update(rs, i as int, rv);
                            assert(rv.devices.to_set() =~= oldroom.devices.to_set().insert(
                                dev_name@,
                            )) by {
                                lemma_to_set_insert(olddevs, k as int, dev_name@);
                            }
                            lemma_sorted_insert(olddevs, k as int, dev_name@);
                            assert forall|m: int| 0 <= m < self.rooms_seq().len() implies
                                sorted_strs((#[trigger] self.rooms_seq()[m]).devices) by {
                                if m != i {
                                    assert(self.rooms_seq()[m] == rs[m]);
                                }
                            }
                            assert(self.names() =~= old(self).names());
                        }
                        Ok(())
                    },
                }
            },
            Err(k) => {
                let ghost rs = self.rooms_seq();
                let mut devices: Vec<String> = Vec::new();
                devices.push(dev_name.to_owned());
                let room = Room { name: room_name.to_owned(), devices };
                self.rooms.insert(k, room);
                proof {
                    let rv = RoomView {
                        name: room_name@,
                        devices: Seq::<Seq<char>>::empty().push(dev_name@),
                    };
                    assert(self.rooms_seq() =~~= rs.insert(k as int, rv));
                    assert forall|i: int| 0 <= i < rs.len() implies (#[trigger] rs[i]).name
                        != rv.name by {
                        if rs[i].name == rv.name {
                            lemma_lex_lt_irrefl(rv.name);
                        }
                    }
                    lemma_map_of_insert(rs, k as int, rv);
                    assert forall|a: Seq<char>| #[trigger] rv.devices.to_set().contains(a)
                        == Set::<Seq<char>>::empty().insert(dev_name@).contains(a) by {
                        if rv.devices.contains(a) {
                            let i = choose|i: int|
                                0 <= i < rv.devices.len() && rv.devices[i] == a;
                            assert(a == dev_name@);
                        }
                        if a == dev_name@ {
                            assert(rv.devices[0] == a);
                            assert(rv.devices.contains(a));
                        }
                    }
                    assert(rv.devices.to_set() =~= Set::<Seq<char>>::empty().insert(dev_name@));
                    self.lemma_sorted_after_insert(old(self), k as int, rv);
                }
                Ok(())
            },
        }
    }

    /// Removes a device name from a room; a missing room or device is
    /// refused.
    pub fn remove_device(&mut self, room_name: &str, dev_name: &str) -> (r: Result<
        (),
        SmartHomeError,
    >)
        requires
            old(self).well_formed(),
        ensures
            final(self).well_formed(),
            final(self).spec_name() == old(self).spec_name(),
            !old(self).has_room(room_name@) ==> (r matches Err(SmartHomeError::NoRoom(m)) && m@
                == room_name@) && final(self).rooms_seq() == old(self).rooms_seq(),
            old(self).has_room(room_name@) && !old(self).rooms_map()[room_name@].contains(dev_name@)
                ==> (r matches Err(SmartHomeError::NoDevice { room, device }) && room@
                == room_name@ && device@ == dev_name@) && final(self).rooms_seq() == old(
                self,
            ).rooms_seq(),
            old(self).has_room(room_name@) && old(self).rooms_map()[room_name@].contains(dev_name@)
                ==> r is Ok && final(self).rooms_map() == old(self).rooms_map().insert(
                room_name@,
                old(self).rooms_map()[room_name@].remove(dev_name@),
            ),
    {
        proof {
            self.lemma_unique();
        }
        match self.find_room(room_name) {
            Ok(i) => {
                proof {
                    lemma_map_of_at(self.rooms_seq(), i as int);
                }
                let ghost rs = self.rooms_seq();
                let ghost oldroom = self.rooms_seq()[i as int];
                let room = &mut self.rooms[i];
                match Self::find_dev(&room.devices, dev_name) {
                    Ok(k) => {
                        let ghost olddevs = views_of(room.devices@);
                        room.devices.remove(k);
                        proof {
                            let rv = RoomView {
                                name: oldroom.name,
                                devices: olddevs.remove(k as int),
                            };
                            assert(self.rooms_seq() =~~= rs.update(i as int, rv));
                            lemma_map_of_update(rs, i as int, rv);
                            assert(rv.devices.to_set() =~= oldroom.devices.to_set().remove(
                                dev_name@,
                            )) by {
                                lemma_to_set_remove(olddevs, k as int);
                            }
                            assert(olddevs.to_set().contains(dev_name@));
                            lemma_sorted_remove(olddevs, k as int);
                            assert forall|m: int| 0 <= m < self.rooms_seq().len() implies
                                sorted_strs((#[trigger] self.rooms_seq()[m]).devices) by {
                                if m != i {
                                    assert(self.rooms_seq()[m] == rs[m]);
                                }
                            }
                            assert(self.names() =~= old(self).names());
                        }
                        Ok(())
                    },
                    Err(_) => {
                        proof {
                            assert(self.rooms_seq() =~= rs);
                        }
                        Err(
                            SmartHomeError::NoDevice {
                                room: room_name.to_owned(),
                                device: dev_name.to_owned(),
                            },
                        )
                    },
                }
            },
            Err(_) => Err(SmartHomeError::NoRoom(room_name.to_owned())),
        }
    }

    /// Renders the report: a heading with the home's name, then one line per
    /// device, rooms and devices in their sorted order, each line from the
    /// information provider. A home without rooms is refused.
    pub fn create_report<T: DeviceInfoProvider>(&self, info_provider: &T) -> (r: Result<
        String,
        SmartHomeError,
    >)
        requires
            self.well_formed(),
            info_provider.wf(),
        ensures
            match r {
                Ok(rep) => self.rooms_seq().len() > 0 && rep@ == report_chars(
                    self.spec_name(),
                    self.rooms_seq(),
                    info_provider,
                ),
                Err(e) => self.rooms_seq().len() == 0 && e is NoRooms,
            },
    {
        let n = self.rooms.len();
        if n == 0 {
            return Err(SmartHomeError::NoRooms);
        }
        let mut report = "Report for ".to_owned();
        report.append(self.name.as_str());
        report.append(" smart home\n\n");
        let ghost header = report@;
        let mut i: usize = 0;
        proof {
            assert(self.rooms_seq().take(0) =~= Seq::<RoomView>::empty());
            assert(report@ =~= header + rooms_lines(self.rooms_seq().take(0), info_provider));
        }
        while i < n
            invariant
                self.well_formed(),
                info_provider.wf(),
                n == self.rooms.len(),
                self.rooms_seq().len() == n,
                i <= n,
                report@ == header + rooms_lines(self.rooms_seq().take(i as int), info_provider),
            decreases n - i,
        {
            let room = &self.rooms[i];
            let ghost rv = self.rooms_seq()[i as int];
            let m = room.devices.len();
            let mut j: usize = 0;
            proof {
                assert(rv.devices.take(0) =~= Seq::<Seq<char>>::empty());
                assert(report@ =~= header + rooms_lines(self.rooms_seq().take(i as int), info_provider)
                    + room_lines(rv.name, rv.devices.take(0), info_provider));
            }
            while j < m
                invariant
                    self.well_formed(),
                    info_provider.wf(),
                    n == self.rooms.len(),
                    self.rooms_seq().len() == n,
                    i < n,
                    room == &self.rooms@[i as int],
                    rv == self.rooms_seq()[i as int],
                    m == room.devices.len(),
                    rv.devices.len() == m,
                    j <= m,
                    report@ == header + rooms_lines(self.rooms_seq().take(i as int), info_provider)
                        + room_lines(rv.name, rv.devices.take(j as int), info_provider),
                decreases m - j,
            {
                let dev = &room.devices[j];
                let line = info_provider.get_info(room.name.as_str(), dev.as_str());
                report.append(line.as_str());
                report.append("\n");
                proof {
                    assert(rv.devices.take(j + 1) =~= rv.devices.take(j as int).push(dev@));
                    lemma_room_lines_snoc(rv.name, rv.devices.take(j as int), dev@, info_provider);
                    reveal_strlit("\n");
                    assert(rv.devices[j as int] == dev@);
                    assert(rv.name == room.name@);
                    assert(report@ =~= header + rooms_lines(
                        self.rooms_seq().take(i as int),
                        info_provider,
                    ) + room_lines(rv.name, rv.devices.take(j + 1), info_provider));
                }
                j = j + 1;
            }
            proof {
                assert(rv.devices.take(m as int) =~= rv.devices);
                assert(self.rooms_seq().take(i + 1) =~= self.rooms_seq().take(i as int).push(rv));
                lemma_rooms_lines_snoc(self.rooms_seq().take(i as int), rv, info_provider);
                assert(report@ =~= header + rooms_lines(self.rooms_seq().take(i + 1), info_provider));
            }
            i = i + 1;
        }
        proof {
            assert(self.rooms_seq().take(n as int) =~= self.rooms_seq());
            assert(report@ =~= report_chars(self.spec_name(), self.rooms_seq(), info_provider));
        }
        Ok(report)
    }

    /// The position of a device name in a sorted list, or the position where
    /// it would be inserted; also whether the list holds it.
    fn find_dev(devs: &Vec<String>, name: &str) -> (r: Result<usize, usize>)
        requires
            sorted_strs(views_of(devs@)),
        ensures
            match r {
                Ok(i) => i < devs@.len() && views_of(devs@)[i as int] == name@
                    && views_of(devs@).to_set().contains(name@),
                Err(k) => {
                    &&& k <= devs@.len()
                    &&& forall|j: int| 0 <= j < k ==> lex_lt(views_of(devs@)[j], name@)
                    &&& forall|j: int|
                        k <= j < devs@.len() ==> lex_lt(name@, views_of(devs@)[j])
                    &&& !views_of(devs@).to_set().contains(name@)
                },
            },
    {
        let n = devs.len();
        let mut i: usize = 0;
        while i < n
            invariant
                sorted_strs(views_of(devs@)),
                n == devs.len(),
                i <= n,
                forall|j: int| 0 <= j < i ==> lex_lt(views_of(devs@)[j], name@),
            decreases n - i,
        {
            let d = &devs[i];
            if str_eq(d.as_str(), name) {
                assert(views_of(devs@)[i as int] == name@);
                return Ok(i);
            }
            if !str_lt(d.as_str(), name) {
                proof {
                    lemma_lex_lt_total(views_of(devs@)[i as int], name@);
                    assert forall|j: int| i <= j < devs@.len() implies lex_lt(
                        name@,
                        views_of(devs@)[j],
                    ) by {
                        if j > i {
                            lemma_lex_lt_trans(
                                name@,
                                views_of(devs@)[i as int],
                                views_of(devs@)[j],
                            );
                        }
                    }
                    lemma_sorted_not_found(views_of(devs@), i as int, name@);
                }
                return Err(i);
            }
            i = i + 1;
        }
        proof {
            lemma_sorted_not_found(views_of(devs@), n as int, name@);
        }
        Err(n)
    }
}


/// One room's report lines: one line per device, in storage order.
pub open spec fn room_lines<T: DeviceInfoProvider>(
    name: Seq<char>,
    devices: Seq<Seq<char>>,
    provider: &T,
) -> Seq<char>
    decreases devices.len(),
{
    if devices.len() == 0 {
        Seq::empty()
    } else {
        provider.info_spec(name, devices[0]) + seq!['\n'] + room_lines(
            name,
            devices.skip(1),
            provider,
        )
    }
}

/// All rooms' report lines, rooms in storage order.
pub open spec fn rooms_lines<T: DeviceInfoProvider>(rs: Seq<RoomView>, provider: &T) -> Seq<char>
    decreases rs.len(),
{
    if rs.len() == 0 {
        Seq::empty()
    } else {
        room_lines(rs[0].name, rs[0].devices, provider) + rooms_lines(rs.skip(1), provider)
    }
}

/// The whole report: a heading with the home's name, a blank line, then one
/// line per device.
pub open spec fn report_chars<T: DeviceInfoProvider>(
    home_name: Seq<char>,
    rs: Seq<RoomView>,
    provider: &T,
) -> Seq<char> {
    "Report for "@ + home_name + " smart home\n\n"@ + rooms_lines(rs, provider)
}

proof fn lemma_room_lines_snoc<T: DeviceInfoProvider>(
    name: Seq<char>,
    devices: Seq<Seq<char>>,
    d: Seq<char>,
    provider: &T,
)
    ensures
        room_lines(name, devices.push(d), provider) == room_lines(name, devices, provider)
            + provider.info_spec(name, d) + seq!['\n'],
    decreases devices.len(),
{
    if devices.len() == 0 {
        assert(devices.push(d)[0] == d);
        assert(devices.push(d).skip(1) =~= Seq::<Seq<char>>::empty());
        assert(room_lines(name, devices.push(d).skip(1), provider) == Seq::<char>::empty());
        assert(room_lines(name, devices.push(d), provider) =~= room_lines(name, devices, provider)
            + provider.info_spec(name, d) + seq!['\n']);
    } else {
        assert(devices.push(d)[0] == devices[0]);
        assert(devices.push(d).skip(1) =~= devices.skip(1).push(d));
        lemma_room_lines_snoc(name, devices.skip(1), d, provider);
        assert(room_lines(name, devices.push(d), provider) =~= room_lines(name, devices, provider)
            + provider.info_spec(name, d) + seq!['\n']);
    }
}

proof fn lemma_rooms_lines_snoc<T: DeviceInfoProvider>(rs: Seq<RoomView>, rv: RoomView, provider: &T)
    ensures
        rooms_lines(rs.push(rv), provider) == rooms_lines(rs, provider) + room_lines(
            rv.name,
            rv.devices,
            provider,
        ),
    decreases rs.len(),
{
    if rs.len() == 0 {
        assert(rs.push(rv)[0] == rv);
        assert(rs.push(rv).skip(1) =~= Seq::<RoomView>::empty());
        assert(rooms_lines(rs.push(rv).skip(1), provider) == Seq::<char>::empty());
        assert(rooms_lines(rs.push(rv), provider) =~= rooms_lines(rs, provider) + room_lines(
            rv.name,
            rv.devices,
            provider,
        ));
    } else {
        assert(rs.push(rv)[0] == rs[0]);
        assert(rs.push(rv).skip(1) =~= rs.skip(1).push(rv));
        lemma_rooms_lines_snoc(rs.skip(1), rv, provider);
        assert(rooms_lines(rs.push(rv), provider) =~= rooms_lines(rs, provider) + room_lines(
            rv.name,
            rv.devices,
            provider,
        ));
    }
}

/// A name below the insertion point's entry and above every earlier entry is
/// not in the list.
proof fn lemma_sorted_not_found(s: Seq<Seq<char>>, k: int, name: Seq<char>)
    requires
        0 <= k <= s.len(),
        forall|j: int| 0 <= j < k ==> lex_lt(s[j], name),
        forall|j: int| k <= j < s.len() ==> lex_lt(name, s[j]),
    ensures
        !s.to_set().contains(name),
{
    if s.to_set().contains(name) {
        let i = choose|i: int| 0 <= i < s.len() && s[i] == name;
        lemma_lex_lt_irrefl(name);
    }
}

/// Inserting an entry inserts it into the list's set.
proof fn lemma_to_set_insert(s: Seq<Seq<char>>, k: int, x: Seq<char>)
    requires
        0 <= k <= s.len(),
    ensures
        s.insert(k, x).to_set() == s.to_set().insert(x),
{
    let s2 = s.insert(k, x);
    s.insert_ensures(k, x);
    assert forall|a: Seq<char>| #[trigger] s2.to_set().contains(a) == s.to_set().insert(x).contains(
        a,
    ) by {
        if s2.contains(a) {
            let i = choose|i: int| 0 <= i < s2.len() && s2[i] == a;
            if i < k {
                assert(s[i] == a);
            } else if i == k {
            } else {
                assert(s[i - 1] == a);
            }
        }
        if a == x {
            assert(s2[k] == a);
        } else if s.contains(a) {
            let i = choose|i: int| 0 <= i < s.len() && s[i] == a;
            if i < k {
                assert(s2[i] == a);
            } else {
                assert(s2[i + 1] == a);
            }
        }
    }
    assert(s2.to_set() =~= s.to_set().insert(x));
}

/// Removing an entry of a sorted list removes it from the list's set.
proof fn lemma_to_set_remove(s: Seq<Seq<char>>, k: int)
    requires
        sorted_strs(s),
        0 <= k < s.len(),
    ensures
        s.remove(k).to_set() == s.to_set().remove(s[k]),
{
    let s2 = s.remove(k);
    assert forall|a: Seq<char>| #[trigger] s2.to_set().contains(a) == s.to_set().remove(
        s[k],
    ).contains(a) by {
        if s2.contains(a) {
            let i = choose|i: int| 0 <= i < s2.len() && s2[i] == a;
            let i0: int = if i < k { i } else { i + 1 };
            assert(s[i0] == a);
            if a == s[k] {
                if i0 < k {
                    lemma_lex_lt_irrefl(a);
                } else {
                    lemma_lex_lt_irrefl(a);
                }
            }
        }
        if a != s[k] && s.contains(a) {
            let i = choose|i: int| 0 <= i < s.len() && s[i] == a;
            if i < k {
                assert(s2[i] == a);
            } else {
                assert(s2[i - 1] == a);
            }
        }
    }
    assert(s2.to_set() =~= s.to_set().remove(s[k]));
}

/// Inserting at the found position keeps a sorted list sorted.
proof fn lemma_sorted_insert(s: Seq<Seq<char>>, k: int, x: Seq<char>)
    requires
        sorted_strs(s),
        0 <= k <= s.len(),
        forall|j: int| 0 <= j < k ==> lex_lt(s[j], x),
        forall|j: int| k <= j < s.len() ==> lex_lt(x, s[j]),
    ensures
        sorted_strs(s.insert(k, x)),
{
    let s2 = s.insert(k, x);
    s.insert_ensures(k, x);
    assert forall|i: int, j: int| 0 <= i < j < s2.len() implies lex_lt(s2[i], s2[j]) by {
        if i < k && j < k {
            assert(s2[i] == s[i] && s2[j] == s[j]);
        } else if i < k && j == k {
            assert(s2[i] == s[i]);
        } else if i < k && j > k {
            assert(s2[i] == s[i] && s2[j] == s[j - 1]);
            lemma_lex_lt_trans(s[i], x, s[j - 1]);
        } else if i == k {
            assert(s2[j] == s[j - 1]);
        } else {
            assert(s2[i] == s[i - 1] && s2[j] == s[j - 1]);
        }
    }
}

/// Removing an entry keeps a sorted list sorted.
proof fn lemma_sorted_remove(s: Seq<Seq<char>>, k: int)
    requires
        sorted_strs(s),
        0 <= k < s.len(),
    ensures
        sorted_strs(s.remove(k)),
{
    let s2 = s.remove(k);
    assert forall|i: int, j: int| 0 <= i < j < s2.len() implies lex_lt(s2[i], s2[j]) by {
        let i0: int = if i < k { i } else { i + 1 };
        let j0: int = if j < k { j } else { j + 1 };
        assert(s2[i] == s[i0] && s2[j] == s[j0]);
    }
}

} // verus!
