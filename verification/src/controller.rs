//! A controller: the server-side registry of sockets and thermometers under
//! typed commands, answering one typed response per command. The transport in
//! front of it only moves the commands and responses.

use vstd::prelude::*;

use crate::command::{CommandRequest, RequestType, RespTypeView};
use crate::device::{is_state_report, process_rel, DeviceModel};
use crate::registry::Registry;

verus! {

/// A typed command aimed at the device registered under `id`.
#[derive(Debug)]
pub enum Command {
    SocketTurnOn { id: String },
    SocketTurnOff { id: String },
    SocketGetState { id: String },
    ThermGetAddress { id: String },
}

/// The typed response to a command: the command's own outcome, an error
/// carried as a human-readable message.
#[derive(Debug)]
pub enum CommandResponse {
    SocketTurnOn(Result<(), String>),
    SocketTurnOff(Result<(), String>),
    SocketGetState(Result<String, String>),
    ThermGetAddress(Result<String, String>),
}

/// The controller: sockets and thermometers in two registries, socket
/// commands dispatched against the socket registry.
pub struct Controller {
    sockets: Registry,
    therms: Registry,
}

impl Controller {
    /// The socket registry's mapping: each registered id to whether that
    /// socket is on.
    pub closed spec fn sockets_on(&self) -> Map<Seq<char>, bool> {
        self.sockets@.map_values(|m: DeviceModel| m.is_on())
    }

    /// Both registries have unique ids and the socket registry holds only
    /// sockets, each under its own id.
    pub closed spec fn well_formed(&self) -> bool {
        &&& self.sockets.well_formed()
        &&& self.therms.well_formed()
        &&& forall|id: Seq<char>|
            self.sockets@.contains_key(id) ==> #[trigger] self.sockets@[id]
                == (DeviceModel::Socket { id, on: self.sockets@[id].is_on() })
    }

    /// An empty controller.
    pub fn new() -> (r: Controller)
        ensures
            r.well_formed(),
            r.sockets_on() == Map::<Seq<char>, bool>::empty(),
    {
        let r = Controller { sockets: Registry::new(), therms: Registry::new() };
        proof {
            assert(r.sockets_on() =~= Map::<Seq<char>, bool>::empty());
        }
        r
    }

    /// Creates a socket under `id` and stores it, overwriting silently.
    pub fn add_socket(&mut self, id: &str)
        requires
            old(self).well_formed(),
        ensures
            final(self).well_formed(),
            final(self).sockets_on() == old(self).sockets_on().insert(id@, false),
    {
        self.sockets.add_socket(id);
        proof {
            assert(self.sockets_on() =~= old(self).sockets_on().insert(id@, false));
        }
    }

    /// Creates a thermometer under `id` and stores it, overwriting silently.
    pub fn add_thermometer(&mut self, id: &str)
        requires
            old(self).well_formed(),
        ensures
            final(self).well_formed(),
            final(self).sockets_on() == old(self).sockets_on(),
    {
        self.therms.add_thermometer(id);
    }

    /// Dispatches one socket operation and reads back what it did.
    fn socket_op(&mut self, id: &str, kind: RequestType) -> (r: Option<String>)
        requires
            old(self).well_formed(),
            kind != RequestType::ThermGetTemp,
        ensures
            final(self).well_formed(),
            !old(self).sockets_on().contains_key(id@) ==> r is None && final(self).sockets_on()
                == old(self).sockets_on(),
            old(self).sockets_on().contains_key(id@) ==> match kind {
                RequestType::SocketTurnOn => (r matches Some(s) && s@ == ""@) && final(self).sockets_on() == old(self).sockets_on().insert(id@, true),
                RequestType::SocketTurnOff => (r matches Some(s) && s@ == ""@) && final(self).sockets_on() == old(self).sockets_on().insert(id@, false),
                RequestType::SocketGetState => (r matches Some(s) && is_state_report(
                    RespTypeView::Success(s@),
                    old(self).sockets_on()[id@],
                )) && final(self).sockets_on() == old(self).sockets_on(),
                RequestType::ThermGetTemp => false,
            },
    {
        let ghost pre = old(self).sockets@;
        let request = CommandRequest::from_parts(id, kind);
        let ghost reqv = request@;
        let resp = self.sockets.dispatch(request);
        proof {
            if pre.contains_key(id@) {
                let d = choose|d: DeviceModel|
                    #[trigger] process_rel(pre[id@], reqv, d, resp@) && self.sockets@ == pre.insert(
                        id@,
                        d,
                    );
                assert(pre[id@] == (DeviceModel::Socket { id: id@, on: pre[id@].is_on() }));
                assert forall|k: Seq<char>| self.sockets@.contains_key(k) implies
                    #[trigger] self.sockets@[k] == (DeviceModel::Socket {
                        id: k,
                        on: self.sockets@[k].is_on(),
                    }) by {
                    if k != id@ {
                        assert(pre.contains_key(k));
                    }
                }
                match kind {
                    RequestType::SocketTurnOn => {
                        assert(self.sockets_on() =~= old(self).sockets_on().insert(id@, true));
                    },
                    RequestType::SocketTurnOff => {
                        assert(self.sockets_on() =~= old(self).sockets_on().insert(id@, false));
                    },
                    RequestType::SocketGetState => {
                        assert(d == pre[id@]);
                        assert(self.sockets_on() =~= old(self).sockets_on());
                    },
                    RequestType::ThermGetTemp => {},
                }
            } else {
                assert(self.sockets@ == pre);
                assert(self.sockets_on() =~= old(self).sockets_on());
                assert(resp@.resp is Error);
            }
        }
        resp.success()
    }

    /// Turns the socket under `id` on; an unregistered id is refused.
    pub fn s_turn_on(&mut self, id: &str) -> (r: Result<(), String>)
        requires
            old(self).well_formed(),
        ensures
            final(self).well_formed(),
            old(self).sockets_on().contains_key(id@) ==> r is Ok && final(self).sockets_on()
                == old(self).sockets_on().insert(id@, true),
            !old(self).sockets_on().contains_key(id@) ==> final(self).sockets_on() == old(self).sockets_on() && (r matches Err(m) && m@ == "No socket"@),
    {
        match self.socket_op(id, RequestType::SocketTurnOn) {
            Some(_) => Ok(()),
            None => Err("No socket".to_owned()),
        }
    }

    /// Turns the socket under `id` off; an unregistered id is refused.
    pub fn s_turn_off(&mut self, id: &str) -> (r: Result<(), String>)
        requires
            old(self).well_formed(),
        ensures
            final(self).well_formed(),
            old(self).sockets_on().contains_key(id@) ==> r is Ok && final(self).sockets_on()
                == old(self).sockets_on().insert(id@, false),
            !old(self).sockets_on().contains_key(id@) ==> final(self).sockets_on() == old(self).sockets_on() && (r matches Err(m) && m@ == "No socket"@),
    {
        match self.socket_op(id, RequestType::SocketTurnOff) {
            Some(_) => Ok(()),
            None => Err("No socket".to_owned()),
        }
    }

    /// Reads the status line of the socket under `id`; an unregistered id is
    /// refused.
    pub fn s_get_state(&mut self, id: &str) -> (r: Result<String, String>)
        requires
            old(self).well_formed(),
        ensures
            final(self).well_formed(),
            final(self).sockets_on() == old(self).sockets_on(),
            old(self).sockets_on().contains_key(id@) ==> (r matches Ok(s) && is_state_report(
                RespTypeView::Success(s@),
                old(self).sockets_on()[id@],
            )),
            !old(self).sockets_on().contains_key(id@) ==> (r matches Err(m) && m@
                == "No socket"@),
    {
        match self.socket_op(id, RequestType::SocketGetState) {
            Some(s) => Ok(s),
            None => Err("No socket".to_owned()),
        }
    }

    /// Answers one command; the thermometer-address command is not part of
    /// the simulated controller.
    pub fn process_command(&mut self, command: &Command) -> (r: CommandResponse)
        requires
            old(self).well_formed(),
            !(command matches Command::ThermGetAddress { .. }),
        ensures
            final(self).well_formed(),
            match command {
                Command::SocketTurnOn { id } => final(self).sockets_on() == (if old(self).sockets_on().contains_key(id@) {
                    old(self).sockets_on().insert(id@, true)
                } else {
                    old(self).sockets_on()
                }) && (r matches CommandResponse::SocketTurnOn(res) && (res is Ok <==> old(self).sockets_on().contains_key(id@)) && (res matches Err(m) ==> m@ == "No socket"@)),
                Command::SocketTurnOff { id } => final(self).sockets_on() == (if old(self).sockets_on().contains_key(id@) {
                    old(self).sockets_on().insert(id@, false)
                } else {
                    old(self).sockets_on()
                }) && (r matches CommandResponse::SocketTurnOff(res) && (res is Ok <==> old(self).sockets_on().contains_key(id@)) && (res matches Err(m) ==> m@ == "No socket"@)),
                Command::SocketGetState { id } => final(self).sockets_on() == old(self).sockets_on() && (r matches CommandResponse::SocketGetState(res) && (match res {
                    Ok(s) => old(self).sockets_on().contains_key(id@) && is_state_report(
                        RespTypeView::Success(s@),
                        old(self).sockets_on()[id@],
                    ),
                    Err(m) => !old(self).sockets_on().contains_key(id@) && m@ == "No socket"@,
                })),
                Command::ThermGetAddress { .. } => false,
            },
    {
        match command {
            Command::SocketTurnOn { id } => CommandResponse::SocketTurnOn(
                self.s_turn_on(id.as_str()),
            ),
            Command::SocketTurnOff { id } => CommandResponse::SocketTurnOff(
                self.s_turn_off(id.as_str()),
            ),
            Command::SocketGetState { id } => CommandResponse::SocketGetState(
                self.s_get_state(id.as_str()),
            ),
            Command::ThermGetAddress { .. } => CommandResponse::ThermGetAddress(
                Err("No socket".to_owned()),
            ),
        }
    }
}

} // verus!
