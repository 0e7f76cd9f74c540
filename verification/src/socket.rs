//! A simulated switchable power socket: on or off, with a pseudo-random
//! power draw while on and a zero draw while off.

use vstd::prelude::*;

use crate::command::{CommandRequest, CommandResponse, RequestType, ResponseType};
use crate::device::{
    is_state_report, state_report_chars, Device, DeviceModel, POWER_LOW_TENTHS, POWER_MAX_TENTHS,
};
use crate::random::random_in_range;
use crate::strutil::{str_eq, tenths_str};

verus! {

/// Whether a socket lets current through.
#[derive(Debug, Clone, Copy, PartialEq, Eq, Structural)]
pub enum SocketState {
    On,
    Off,
}

/// A power socket under a fixed id.
#[derive(Debug)]
pub struct Socket {
    id: String,
    state: SocketState,
}

/// The ways a socket could refuse to switch. The simulated socket never
/// refuses; the variants are kept for callers that match on them.
#[derive(Debug, Clone, Copy, PartialEq, Eq, Structural)]
pub enum SocketError {
    DeviceErrorState,
    MaxVoltageExceed,
}

impl SocketError {
    /// A human-readable message for the error.
    pub fn message(&self) -> (r: String)
        ensures
            *self is DeviceErrorState ==> r@ == "DeviceErrorState"@,
            *self is MaxVoltageExceed ==> r@ == "Max voltage value 250V excceed"@,
    {
        match self {
            SocketError::DeviceErrorState => "DeviceErrorState".to_owned(),
            SocketError::MaxVoltageExceed => "Max voltage value 250V excceed".to_owned(),
        }
    }
}

impl Socket {
    /// A new socket under the given id, initially off.
    pub fn new(desc: &str) -> (r: Socket)
        ensures
            r.model() == (DeviceModel::Socket { id: desc@, on: false }),
    {
        Socket { id: desc.to_owned(), state: SocketState::Off }
    }

    /// The socket's id.
    pub fn id(&self) -> (r: &str)
        ensures
            r@ == self.model().id(),
    {
        self.id.as_str()
    }

    /// Turns the socket on; never refuses, and turning an on socket on again
    /// leaves it unchanged.
    pub fn turn_on(&mut self) -> (r: Result<(), SocketError>)
        ensures
            final(self).model() == (DeviceModel::Socket { id: old(self).model().id(), on: true }),
            r is Ok,
    {
        self.state = SocketState::On;
        Ok(())
    }

    /// Turns the socket off; never refuses, and turning an off socket off
    /// again leaves it unchanged.
    pub fn turn_off(&mut self) -> (r: Result<(), SocketError>)
        ensures
            final(self).model() == (DeviceModel::Socket { id: old(self).model().id(), on: false }),
            r is Ok,
    {
        self.state = SocketState::Off;
        Ok(())
    }

    /// The current power draw in tenths of a watt: zero while off, a fresh
    /// value inside the socket's bounds while on.
    pub fn power_consuption(&self) -> (r: u32)
        ensures
            self.model().is_on() ==> POWER_LOW_TENTHS <= r < POWER_MAX_TENTHS,
            !self.model().is_on() ==> r == 0,
    {
        match self.state {
            SocketState::On => random_in_range(POWER_LOW_TENTHS, POWER_MAX_TENTHS),
            SocketState::Off => 0,
        }
    }

    /// The socket's status line: its state and its current power draw.
    pub fn state_report(&self) -> (r: String)
        ensures
            self.model().is_on() ==> exists|d: nat|
                POWER_LOW_TENTHS <= d < POWER_MAX_TENTHS && r@ == #[trigger] state_report_chars(
                    true,
                    d,
                ),
            !self.model().is_on() ==> r@ == state_report_chars(false, 0),
    {
        let draw = self.power_consuption();
        let mut s = match self.state {
            SocketState::On => "State: on".to_owned(),
            SocketState::Off => "State: off".to_owned(),
        };
        s.append(", power consumption ");
        let tenths = tenths_str(draw);
        s.append(tenths.as_str());
        s.append("W");
        proof {
            if self.model().is_on() {
                assert(s@ =~= state_report_chars(true, draw as nat));
            } else {
                assert(s@ =~= state_report_chars(false, 0));
            }
        }
        s
    }
}

impl Device for Socket {
    closed spec fn model(&self) -> DeviceModel {
        DeviceModel::Socket { id: self.id@, on: self.state is On }
    }

    fn process(&mut self, request: CommandRequest) -> (r: CommandResponse) {
        let response = if !str_eq(self.id.as_str(), request.id()) {
            ResponseType::Error("id mismatch".to_owned())
        } else {
            match *request.req_type() {
                RequestType::SocketGetState => ResponseType::Success(self.state_report()),
                RequestType::SocketTurnOn => match self.turn_on() {
                    Ok(_) => ResponseType::Success("".to_owned()),
                    Err(e) => ResponseType::Error(e.message()),
                },
                RequestType::SocketTurnOff => match self.turn_off() {
                    Ok(_) => ResponseType::Success("".to_owned()),
                    Err(e) => ResponseType::Error(e.message()),
                },
                RequestType::ThermGetTemp => ResponseType::Error("Wrong request".to_owned()),
            }
        };
        CommandResponse::new(request.id(), response)
    }
}

} // verus!
