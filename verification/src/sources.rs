//! Device sources: a provider that caches one description line per device,
//! keyed by device name and room, and renders report lines in fixed-width
//! columns.

use vstd::prelude::*;

use crate::device::{state_report_chars, POWER_LOW_TENTHS, POWER_MAX_TENTHS};
use crate::socket::Socket;
use crate::strutil::{push_char, str_eq};
use crate::therm::Thermometer;
use crate::DeviceInfoProvider;

verus! {

/// Why adding a device to a source was refused.
#[derive(Debug)]
pub enum DeviceSourceError {
    DupDevice { device: String, room: String },
}

impl DeviceSourceError {
    /// A human-readable message for the error.
    pub fn message(&self) -> (r: String)
        ensures
            self matches DeviceSourceError::DupDevice { device, room } ==> r@ == "Device "@
                + device@ + " already exists in the room "@ + room@,
    {
        match self {
            DeviceSourceError::DupDevice { device, room } => {
                let mut s = "Device ".to_owned();
                s.append(device.as_str());
                s.append(" already exists in the room ");
                s.append(room.as_str());
                proof {
                    assert(s@ =~= "Device "@ + device@ + " already exists in the room "@ + room@);
                }
                s
            },
        }
    }
}

impl PartialEq for DeviceSourceError {
    fn eq(&self, other: &DeviceSourceError) -> (r: bool) {
        match (self, other) {
            (
                DeviceSourceError::DupDevice { device: d1, room: r1 },
                DeviceSourceError::DupDevice { device: d2, room: r2 },
            ) => *d1 == *d2 && *r1 == *r2,
        }
    }
}

impl vstd::std_specs::cmp::PartialEqSpecImpl for DeviceSourceError {
    open spec fn obeys_eq_spec() -> bool {
        true
    }

    open spec fn eq_spec(&self, other: &DeviceSourceError) -> bool {
        match (self, other) {
            (
                DeviceSourceError::DupDevice { device: d1, room: r1 },
                DeviceSourceError::DupDevice { device: d2, room: r2 },
            ) => d1@ == d2@ && r1@ == r2@,
        }
    }
}

struct SourceEntry {
    name: String,
    room: String,
    info: String,
}

/// That many spaces.
pub open spec fn spaces(n: nat) -> Seq<char>
    decreases n,
{
    if n == 0 {
        Seq::empty()
    } else {
        spaces((n - 1) as nat).push(' ')
    }
}

/// A column of width twenty: the text, padded with spaces when shorter, kept
/// whole when longer.
pub open spec fn pad20(s: Seq<char>) -> Seq<char> {
    if s.len() >= 20 {
        s
    } else {
        s + spaces((20 - s.len()) as nat)
    }
}

/// Appends `s` padded to a column of width twenty.
fn pad_append(out: &mut String, s: &str)
    ensures
        final(out)@ == old(out)@ + pad20(s@),
{
    out.append(s);
    let n = s.unicode_len();
    if n >= 20 {
        return ;
    }
    let mut i: usize = n;
    proof {
        assert(spaces(0) =~= Seq::<char>::empty());
        assert(out@ =~= old(out)@ + s@ + spaces(0));
    }
    while i < 20
        invariant
            n == s@.len(),
            n <= i <= 20,
            out@ == old(out)@ + s@ + spaces((i - n) as nat),
        decreases 20 - i,
    {
        push_char(out, ' ');
        proof {
            assert(out@ =~= old(out)@ + s@ + spaces((i + 1 - n) as nat));
        }
        i = i + 1;
    }
}

/// A source of device descriptions: one cached line per device, keyed by the
/// device's name and its room.
pub struct DeviceSource {
    devices: Vec<SourceEntry>,
}

impl DeviceSource {
    /// The cached descriptions: each (device name, room) key to its line.
    pub closed spec fn src_map(&self) -> Map<(Seq<char>, Seq<char>), Seq<char>> {
        Map::new(
            |k: (Seq<char>, Seq<char>)|
                exists|i: int|
                    0 <= i < self.devices@.len() && ((#[trigger] self.devices@[i]).name@,
                    self.devices@[i].room@) == k,
            |k: (Seq<char>, Seq<char>)|
                {
                    let i = choose|i: int|
                        0 <= i < self.devices@.len() && ((#[trigger] self.devices@[i]).name@,
                        self.devices@[i].room@) == k;
                    self.devices@[i].info@
                },
        )
    }

    /// No two cached devices share name and room.
    pub closed spec fn well_formed(&self) -> bool {
        forall|i: int, j: int|
            0 <= i < j < self.devices@.len() ==> ((#[trigger] self.devices@[i]).name@,
            self.devices@[i].room@) != ((#[trigger] self.devices@[j]).name@,
            self.devices@[j].room@)
    }

    /// The entry at a position is the one the mapping holds under its key.
    proof fn lemma_at(&self, i: int)
        requires
            self.well_formed(),
            0 <= i < self.devices@.len(),
        ensures
            self.src_map().contains_key((self.devices@[i].name@, self.devices@[i].room@)),
            self.src_map()[(self.devices@[i].name@, self.devices@[i].room@)]
                == self.devices@[i].info@,
    {
        let k = (self.devices@[i].name@, self.devices@[i].room@);
        assert(self.src_map().contains_key(k));
        let j = choose|j: int|
            0 <= j < self.devices@.len() && ((#[trigger] self.devices@[j]).name@,
            self.devices@[j].room@) == k;
        assert(j == i);
    }

    /// An empty source.
    pub fn new() -> (r: DeviceSource)
        ensures
            r.well_formed(),
            r.src_map() == Map::<(Seq<char>, Seq<char>), Seq<char>>::empty(),
    {
        let r = DeviceSource { devices: Vec::new() };
        proof {
            assert(r.src_map() =~= Map::<(Seq<char>, Seq<char>), Seq<char>>::empty());
        }
        r
    }

    /// The position of the entry under that name and room, if any.
    fn find_entry(&self, device_name: &str, room: &str) -> (r: Option<usize>)
        ensures
            match r {
                Some(i) => i < self.devices@.len() && self.devices@[i as int].name@
                    == device_name@ && self.devices@[i as int].room@ == room@,
                None => forall|j: int|
                    0 <= j < self.devices@.len() ==> ((#[trigger] self.devices@[j]).name@,
                    self.devices@[j].room@) != (device_name@, room@),
            },
    {
        let n = self.devices.len();
        let mut i: usize = 0;
        while i < n
            invariant
                n == self.devices.len(),
                i <= n,
                forall|j: int|
                    0 <= j < i ==> ((#[trigger] self.devices@[j]).name@, self.devices@[j].room@)
                        != (device_name@, room@),
            decreases n - i,
        {
            let e = &self.devices[i];
            if str_eq(e.name.as_str(), device_name) && str_eq(e.room.as_str(), room) {
                return Some(i);
            }
            i = i + 1;
        }
        None
    }

    /// Caches one device's description line; a second device under the same
    /// name and room is refused.
    pub fn add_device(&mut self, device_name: &str, room: &str, device: &str) -> (r: Result<
        (),
        DeviceSourceError,
    >)
        requires
            old(self).well_formed(),
        ensures
            final(self).well_formed(),
            old(self).src_map().contains_key((device_name@, room@)) ==> (r matches Err(
                DeviceSourceError::DupDevice { device: d, room: rm },
            ) && d@ == device_name@ && rm@ == room@) && final(self).src_map() == old(self).src_map(),
            !old(self).src_map().contains_key((device_name@, room@)) ==> r is Ok && final(self).src_map() == old(self).src_map().insert((device_name@, room@), device@),
    {
        match self.find_entry(device_name, room) {
            Some(i) => {
                proof {
                    self.lemma_at(i as int);
                }
                Err(
                    DeviceSourceError::DupDevice {
                        device: device_name.to_owned(),
                        room: room.to_owned(),
                    },
                )
            },
            None => {
                proof {
                    if old(self).src_map().contains_key((device_name@, room@)) {
                        let j = choose|j: int|
                            0 <= j < self.devices@.len() && ((#[trigger] self.devices@[j]).name@,
                            self.devices@[j].room@) == (device_name@, room@);
                        assert(false);
                    }
                }
                let entry = SourceEntry {
                    name: device_name.to_owned(),
                    room: room.to_owned(),
                    info: device.to_owned(),
                };
                self.devices.push(entry);
                proof {
                    let n = old(self).devices@.len();
                    assert forall|i: int, j: int| 0 <= i < j < self.devices@.len() implies ((
                    #[trigger] self.devices@[i]).name@, self.devices@[i].room@) != ((
                    #[trigger] self.devices@[j]).name@, self.devices@[j].room@) by {
                        if j < n {
                            assert(old(self).devices@[i] == self.devices@[i]);
                            assert(old(self).devices@[j] == self.devices@[j]);
                        } else {
                            assert(self.devices@[i] == old(self).devices@[i]);
                            assert((old(self).devices@[i].name@, old(self).devices@[i].room@) != (
                            device_name@, room@));
                        }
                    }
                    assert forall|k: (Seq<char>, Seq<char>)| #[trigger]
                        self.src_map().contains_key(k) == old(self).src_map().insert(
                        (device_name@, room@),
                        device@,
                    ).contains_key(k) by {
                        if k == (device_name@, room@) {
                            assert((self.devices@[n as int].name@, self.devices@[n as int].room@)
                                == k);
                        } else {
                            if self.src_map().contains_key(k) {
                                let i = choose|i: int|
                                    0 <= i < self.devices@.len() && ((
                                    #[trigger] self.devices@[i]).name@, self.devices@[i].room@)
                                        == k;
                                assert(i < n);
                                assert((old(self).devices@[i].name@, old(self).devices@[i].room@)
                                    == k);
                            }
                            if old(self).src_map().contains_key(k) {
                                let i = choose|i: int|
                                    0 <= i < old(self).devices@.len() && ((#[trigger] old(self).devices@[i]).name@, old(self).devices@[i].room@) == k;
                                assert((self.devices@[i].name@, self.devices@[i].room@) == k);
                            }
                        }
                    }
                    assert forall|k: (Seq<char>, Seq<char>)|
                        self.src_map().contains_key(k) implies #[trigger] self.src_map()[k] == old(self).src_map().insert((device_name@, room@), device@)[k] by {
                        let i = choose|i: int|
                            0 <= i < self.devices@.len() && ((#[trigger] self.devices@[i]).name@,
                            self.devices@[i].room@) == k;
                        self.lemma_at(i);
                        if k == (device_name@, room@) {
                            assert(i == n);
                        } else {
                            assert(i < n);
                            old(self).lemma_at(i);
                        }
                    }
                    assert(self.src_map() =~= old(self).src_map().insert(
                        (device_name@, room@),
                        device@,
                    ));
                }
                Ok(())
            },
        }
    }
}

impl DeviceInfoProvider for DeviceSource {
    open spec fn wf(&self) -> bool {
        self.well_formed()
    }

    open spec fn info_spec(&self, room: Seq<char>, device: Seq<char>) -> Seq<char> {
        pad20(room) + pad20(device) + if self.src_map().contains_key((device, room)) {
            self.src_map()[(device, room)]
        } else {
            "Error connecting device"@
        }
    }

    fn get_info(&self, room: &str, device: &str) -> (r: String) {
        let mut out = String::new();
        pad_append(&mut out, room);
        pad_append(&mut out, device);
        match self.find_entry(device, room) {
            Some(i) => {
                proof {
                    self.lemma_at(i as int);
                }
                let e = &self.devices[i];
                out.append(e.info.as_str());
                proof {
                    assert(out@ =~= self.info_spec(room@, device@));
                }
                out
            },
            None => {
                proof {
                    if self.src_map().contains_key((device@, room@)) {
                        let j = choose|j: int|
                            0 <= j < self.devices@.len() && ((#[trigger] self.devices@[j]).name@,
                            self.devices@[j].room@) == (device@, room@);
                        assert(false);
                    }
                }
                out.append("Error connecting device");
                proof {
                    assert(out@ =~= self.info_spec(room@, device@));
                }
                out
            },
        }
    }
}

impl Default for DeviceSource {
    /// An empty source.
    fn default() -> (r: DeviceSource)
        ensures
            r.well_formed(),
            r.src_map() == Map::<(Seq<char>, Seq<char>), Seq<char>>::empty(),
    {
        DeviceSource::new()
    }
}

/// A ready-made provider: a socket that was turned on and a thermometer,
/// each cached with its status line.
pub fn create_provider() -> (r: DeviceSource)
    ensures
        r.well_formed(),
        r.src_map().contains_key(("Socket"@, "Guestroom"@)),
        r.src_map().contains_key(("Thermometer"@, "Bathroom"@)),
        exists|d: nat|
            POWER_LOW_TENTHS <= d < POWER_MAX_TENTHS && r.src_map()[("Socket"@, "Guestroom"@)]
                == #[trigger] state_report_chars(true, d),
        r.src_map()[("Thermometer"@, "Bathroom"@)] == "State: off"@,
{
    let mut socket = Socket::new("Smart Socket v1.0");
    let _turned = socket.turn_on();
    let thermo = Thermometer::new("Thermometer v1.0");

    let mut info_provider = DeviceSource::new();
    let socket_line = socket.state_report();
    let thermo_line = thermo.state_report();
    let _first = info_provider.add_device("Socket", "Guestroom", socket_line.as_str());
    let _second = info_provider.add_device("Thermometer", "Bathroom", thermo_line.as_str());
    proof {
        reveal_strlit("Socket");
        reveal_strlit("Thermometer");
        assert(("Socket"@).len() != ("Thermometer"@).len());
        assert("Socket"@ != "Thermometer"@);
    }
    info_provider
}

} // verus!
