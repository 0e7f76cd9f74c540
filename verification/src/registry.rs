//! The device registry: a mapping from id to device, owned by a server, with
//! dispatch of typed requests to the device registered under the request's id.

use vstd::prelude::*;

use crate::command::{CommandRequest, CommandResponse, ReqView, RequestType, RespTypeView, RespView, ResponseType};
use crate::device::{process_rel, Device, DeviceModel};
use crate::socket::Socket;
use crate::strutil::str_eq;
use crate::therm::Thermometer;

verus! {

/// One registered device: the registry holds the closed set of device kinds.
pub enum DeviceEntry {
    Socket(Socket),
    Thermometer(Thermometer),
}

impl DeviceEntry {
    /// The abstract state of the held device.
    pub open spec fn model(&self) -> DeviceModel {
        match self {
            DeviceEntry::Socket(s) => s.model(),
            DeviceEntry::Thermometer(t) => t.model(),
        }
    }

    /// The id under which the held device answers.
    pub fn id(&self) -> (r: &str)
        ensures
            r@ == self.model().id(),
    {
        match self {
            DeviceEntry::Socket(s) => s.id(),
            DeviceEntry::Thermometer(t) => t.id(),
        }
    }

    /// Hand one request to the held device.
    pub fn process(&mut self, request: CommandRequest) -> (r: CommandResponse)
        ensures
            process_rel(old(self).model(), request@, final(self).model(), r@),
    {
        match self {
            DeviceEntry::Socket(s) => s.process(request),
            DeviceEntry::Thermometer(t) => t.process(request),
        }
    }
}

/// The not-found message for an operation: socket operations speak of a
/// missing socket, the thermometer operation of a missing device.
pub open spec fn not_found_msg(kind: RequestType) -> Seq<char> {
    match kind {
        RequestType::ThermGetTemp => "No device"@,
        _ => "No socket"@,
    }
}

/// How one dispatched request transforms the registry and what it answers:
/// a request aimed at an unregistered id is refused with the kind's not-found
/// message and changes nothing; otherwise the registered device handles the
/// request as `process_rel` allows and is stored back under its id.
pub open spec fn dispatch_rel(
    pre: Map<Seq<char>, DeviceModel>,
    req: ReqView,
    post: Map<Seq<char>, DeviceModel>,
    resp: RespView,
) -> bool {
    if pre.contains_key(req.id) {
        exists|d: DeviceModel|
            #[trigger] process_rel(pre[req.id], req, d, resp) && post == pre.insert(req.id, d)
    } else {
        post == pre && resp.id == req.id && resp.resp == RespTypeView::Error(not_found_msg(req.kind))
    }
}

/// The registry: devices under unique ids; registration overwrites silently.
pub struct Registry {
    devices: Vec<DeviceEntry>,
}

impl View for Registry {
    type V = Map<Seq<char>, DeviceModel>;

    open spec fn view(&self) -> Map<Seq<char>, DeviceModel> {
        self.key_map()
    }
}

impl Registry {
    /// The abstract states of the registered devices, in storage order.
    pub closed spec fn models(&self) -> Seq<DeviceModel> {
        self.devices@.map_values(|d: DeviceEntry| d.model())
    }

    /// The mapping the registry maintains: each registered id to the model of
    /// the device under it.
    pub closed spec fn key_map(&self) -> Map<Seq<char>, DeviceModel> {
        Map::new(
            |id: Seq<char>|
                exists|i: int| 0 <= i < self.models().len() && (#[trigger] self.models()[i]).id() == id,
            |id: Seq<char>|
                self.models()[choose|i: int|
                    0 <= i < self.models().len() && (#[trigger] self.models()[i]).id() == id],
        )
    }

    /// No two registered devices share an id.
    pub open spec fn well_formed(&self) -> bool {
        forall|i: int, j: int|
            0 <= i < j < self.models().len() ==> (#[trigger] self.models()[i]).id() != (
            #[trigger] self.models()[j]).id()
    }

    /// An id is registered exactly when some device in storage answers it.
    proof fn lemma_contains_iff(&self, id: Seq<char>)
        ensures
            self@.contains_key(id) <==> exists|i: int|
                0 <= i < self.models().len() && (#[trigger] self.models()[i]).id() == id,
    {
    }

    /// With unique ids, the device at a position is the one the registry's
    /// mapping holds under that device's id.
    proof fn lemma_view_at(&self, i: int)
        requires
            self.well_formed(),
            0 <= i < self.models().len(),
        ensures
            self@.contains_key(self.models()[i].id()),
            self@[self.models()[i].id()] == self.models()[i],
    {
        let id = self.models()[i].id();
        assert(self@.contains_key(id));
        let j = choose|j: int|
            0 <= j < self.models().len() && (#[trigger] self.models()[j]).id() == id;
        assert(j == i);
    }

    /// An empty registry.
    pub fn new() -> (r: Registry)
        ensures
            r.well_formed(),
            r@ == Map::<Seq<char>, DeviceModel>::empty(),
    {
        let r = Registry { devices: Vec::new() };
        proof {
            assert(r@ =~= Map::<Seq<char>, DeviceModel>::empty());
        }
        r
    }

    /// The position of the device registered under `id`, if any.
    fn find_index(&self, id: &str) -> (r: Option<usize>)
        ensures
            match r {
                Some(i) => i < self.models().len() && self.models()[i as int].id() == id@,
                None => forall|j: int|
                    0 <= j < self.models().len() ==> (#[trigger] self.models()[j]).id() != id@,
            },
    {
        let n = self.devices.len();
        let mut i: usize = 0;
        while i < n
            invariant
                n == self.devices.len(),
                i <= n,
                self.models().len() == n,
                forall|j: int| 0 <= j < i ==> (#[trigger] self.models()[j]).id() != id@,
            decreases n - i,
        {
            if str_eq(self.devices[i].id(), id) {
                return Some(i);
            }
            i = i + 1;
        }
        None
    }

    /// Registers a device under its own id, silently overwriting any device
    /// already registered under that id.
    pub fn register(&mut self, device: DeviceEntry)
        requires
            old(self).well_formed(),
        ensures
            final(self).well_formed(),
            final(self)@ == old(self)@.insert(device.model().id(), device.model()),
    {
        let ghost dm = device.model();
        match self.find_index(device.id()) {
            Some(i) => {
                proof {
                    self.lemma_view_at(i as int);
                }
                let slot = &mut self.devices[i];
                *slot = device;
                proof {
                    assert(self.models() =~= old(self).models().update(i as int, dm));
                    assert forall|k: int, l: int|
                        0 <= k < l < self.models().len() implies (
                    #[trigger] self.models()[k]).id() != (#[trigger] self.models()[l]).id() by {
                        assert(old(self).models()[k].id() != old(self).models()[l].id());
                        assert(old(self).models()[i as int].id() == dm.id());
                    }
                    assert forall|id: Seq<char>| #[trigger]
                        self@.contains_key(id) == old(self)@.insert(dm.id(), dm).contains_key(
                        id,
                    ) by {
                        self.lemma_contains_iff(id);
                        old(self).lemma_contains_iff(id);
                        if id == dm.id() {
                            assert(self.models()[i as int].id() == id);
                            assert(self@.contains_key(id));
                            assert(old(self)@.insert(dm.id(), dm).contains_key(id));
                        } else {
                            if self@.contains_key(id) {
                                let j = choose|j: int|
                                    0 <= j < self.models().len() && (
                                    #[trigger] self.models()[j]).id() == id;
                                assert(old(self).models()[j].id() == id);
                                assert(old(self)@.contains_key(id));
                            }
                            if old(self)@.contains_key(id) {
                                let j = choose|j: int|
                                    0 <= j < old(self).models().len() && (
                                    #[trigger] old(self).models()[j]).id() == id;
                                assert(j != i);
                                assert(self.models()[j].id() == id);
                                assert(self@.contains_key(id));
                            }
                        }
                    }
                    assert forall|id: Seq<char>|
                        self@.contains_key(id) implies #[trigger] self@[id] == old(self)@.insert(
                        dm.id(),
                        dm,
                    )[id] by {
                        self.lemma_contains_iff(id);
                        old(self).lemma_contains_iff(id);
                        let j = choose|j: int|
                            0 <= j < self.models().len() && (#[trigger] self.models()[j]).id()
                                == id;
                        self.lemma_view_at(j);
                        if id == dm.id() {
                            assert(j == i);
                        } else {
                            assert(j != i);
                            old(self).lemma_view_at(j);
                        }
                    }
                    assert(self@ =~= old(self)@.insert(dm.id(), dm));
                }
            },
            None => {
                self.devices.push(device);
                proof {
                    assert(self.models() =~= old(self).models().push(dm));
                    assert forall|k: int, l: int|
                        0 <= k < l < self.models().len() implies (
                    #[trigger] self.models()[k]).id() != (#[trigger] self.models()[l]).id() by {
                        if l < self.models().len() - 1 {
                            assert(old(self).models()[k].id() != old(self).models()[l].id());
                        } else {
                            assert(old(self).models()[k].id() != dm.id());
                        }
                    }
                    let n = old(self).models().len();
                    assert forall|id: Seq<char>| #[trigger]
                        self@.contains_key(id) == old(self)@.insert(dm.id(), dm).contains_key(
                        id,
                    ) by {
                        self.lemma_contains_iff(id);
                        old(self).lemma_contains_iff(id);
                        if id == dm.id() {
                            assert(self.models()[n as int].id() == id);
                            assert(self@.contains_key(id));
                            assert(old(self)@.insert(dm.id(), dm).contains_key(id));
                        } else {
                            if self@.contains_key(id) {
                                let j = choose|j: int|
                                    0 <= j < self.models().len() && (
                                    #[trigger] self.models()[j]).id() == id;
                                assert(j < n);
                                assert(old(self).models()[j].id() == id);
                                assert(old(self)@.contains_key(id));
                            }
                            if old(self)@.contains_key(id) {
                                let j = choose|j: int|
                                    0 <= j < old(self).models().len() && (
                                    #[trigger] old(self).models()[j]).id() == id;
                                assert(self.models()[j].id() == id);
                                assert(self@.contains_key(id));
                            }
                        }
                    }
                    assert forall|id: Seq<char>|
                        self@.contains_key(id) implies #[trigger] self@[id] == old(self)@.insert(
                        dm.id(),
                        dm,
                    )[id] by {
                        self.lemma_contains_iff(id);
                        old(self).lemma_contains_iff(id);
                        let j = choose|j: int|
                            0 <= j < self.models().len() && (#[trigger] self.models()[j]).id()
                                == id;
                        self.lemma_view_at(j);
                        if id == dm.id() {
                            assert(j == n);
                        } else {
                            assert(j < n);
                            old(self).lemma_view_at(j);
                        }
                    }
                    assert(self@ =~= old(self)@.insert(dm.id(), dm));
                }
            },
        }
    }

    /// Creates a socket under `id` and registers it, overwriting silently.
    pub fn add_socket(&mut self, id: &str)
        requires
            old(self).well_formed(),
        ensures
            final(self).well_formed(),
            final(self)@ == old(self)@.insert(id@, DeviceModel::Socket { id: id@, on: false }),
    {
        self.register(DeviceEntry::Socket(Socket::new(id)));
    }

    /// Creates a thermometer under `id` and registers it, overwriting silently.
    pub fn add_thermometer(&mut self, id: &str)
        requires
            old(self).well_formed(),
        ensures
            final(self).well_formed(),
            final(self)@ == old(self)@.insert(
                id@,
                DeviceModel::Thermometer { id: id@, on: false },
            ),
    {
        self.register(DeviceEntry::Thermometer(Thermometer::new(id)));
    }

    /// Routes one request to the device registered under the request's id and
    /// answers its response; an unregistered id is refused with the kind's
    /// not-found message.
    pub fn dispatch(&mut self, request: CommandRequest) -> (r: CommandResponse)
        requires
            old(self).well_formed(),
        ensures
            final(self).well_formed(),
            dispatch_rel(old(self)@, request@, final(self)@, r@),
    {
        let ghost reqv = request@;
        match self.find_index(request.id()) {
            Some(i) => {
                proof {
                    self.lemma_view_at(i as int);
                }
                let ghost pre_model = self.models()[i as int];
                let slot = &mut self.devices[i];
                let resp = slot.process(request);
                proof {
                    let post_model = self.models()[i as int];
                    assert(self.models() =~= old(self).models().update(i as int, post_model));
                    assert(post_model.id() == pre_model.id());
                    assert forall|k: int, l: int|
                        0 <= k < l < self.models().len() implies (
                    #[trigger] self.models()[k]).id() != (#[trigger] self.models()[l]).id() by {
                        assert(old(self).models()[k].id() != old(self).models()[l].id());
                    }
                    assert forall|id: Seq<char>| #[trigger]
                        self@.contains_key(id) == old(self)@.insert(
                        reqv.id,
                        post_model,
                    ).contains_key(id) by {
                        self.lemma_contains_iff(id);
                        old(self).lemma_contains_iff(id);
                        if id == reqv.id {
                            assert(self.models()[i as int].id() == id);
                            assert(self@.contains_key(id));
                            assert(old(self)@.insert(reqv.id, post_model).contains_key(id));
                        } else {
                            if self@.contains_key(id) {
                                let j = choose|j: int|
                                    0 <= j < self.models().len() && (
                                    #[trigger] self.models()[j]).id() == id;
                                assert(old(self).models()[j].id() == id);
                                assert(old(self)@.contains_key(id));
                            }
                            if old(self)@.contains_key(id) {
                                let j = choose|j: int|
                                    0 <= j < old(self).models().len() && (
                                    #[trigger] old(self).models()[j]).id() == id;
                                assert(self.models()[j].id() == id);
                                assert(self@.contains_key(id));
                            }
                        }
                    }
                    assert forall|id: Seq<char>|
                        self@.contains_key(id) implies #[trigger] self@[id] == old(self)@.insert(
                        reqv.id,
                        post_model,
                    )[id] by {
                        self.lemma_contains_iff(id);
                        let j = choose|j: int|
                            0 <= j < self.models().len() && (#[trigger] self.models()[j]).id()
                                == id;
                        self.lemma_view_at(j);
                        if id == reqv.id {
                            assert(j == i);
                        } else {
                            assert(j != i);
                            old(self).lemma_view_at(j);
                        }
                    }
                    assert(self@ =~= old(self)@.insert(reqv.id, post_model));
                    assert(process_rel(old(self)@[reqv.id], reqv, post_model, resp@));
                }
                resp
            },
            None => {
                proof {
                    if old(self)@.contains_key(reqv.id) {
                        let j = choose|j: int|
                            0 <= j < self.models().len() && (#[trigger] self.models()[j]).id()
                                == reqv.id;
                        assert(false);
                    }
                }
                let msg = match request.req_type() {
                    RequestType::ThermGetTemp => "No device",
                    _ => "No socket",
                };
                CommandResponse::new(request.id(), ResponseType::Error(msg.to_owned()))
            },
        }
    }
}

} // verus!
