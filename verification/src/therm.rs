//! A simulated thermometer: it can be switched on and off, and reports a
//! pseudo-random temperature inside fixed bounds regardless of its state.

use vstd::prelude::*;

use crate::command::{CommandRequest, CommandResponse, RequestType, ResponseType};
use crate::device::{is_temp_report, Device, DeviceModel, TEMP_LOW_TENTHS, TEMP_MAX_TENTHS};
use crate::random::random_in_range;
use crate::strutil::{str_eq, tenths_str};

verus! {

/// Whether a thermometer is switched on.
#[derive(Debug, Clone, Copy, PartialEq, Eq, Structural)]
pub enum ThermometerState {
    On,
    Off,
}

/// A thermometer under a fixed id.
#[derive(Debug)]
pub struct Thermometer {
    id: String,
    state: ThermometerState,
}

/// The ways a thermometer could fail. The simulated thermometer never fails;
/// the variant is kept for callers that match on it.
#[derive(Debug, Clone, Copy, PartialEq, Eq, Structural)]
pub enum ThermometerError {
    DeviceError,
}

impl ThermometerError {
    /// A human-readable message for the error.
    pub fn message(&self) -> (r: String)
        ensures
            r@ == "Thermometer device error"@,
    {
        "Thermometer device error".to_owned()
    }
}

impl Thermometer {
    /// A new thermometer under the given id, initially off.
    pub fn new(id: &str) -> (r: Thermometer)
        ensures
            r.model() == (DeviceModel::Thermometer { id: id@, on: false }),
    {
        Thermometer { id: id.to_owned(), state: ThermometerState::Off }
    }

    /// The thermometer's id.
    pub fn id(&self) -> (r: &str)
        ensures
            r@ == self.model().id(),
    {
        self.id.as_str()
    }

    /// Turns the thermometer on; never refuses.
    pub fn turn_on(&mut self) -> (r: Result<(), ThermometerError>)
        ensures
            final(self).model() == (DeviceModel::Thermometer {
                id: old(self).model().id(),
                on: true,
            }),
            r is Ok,
    {
        self.state = ThermometerState::On;
        Ok(())
    }

    /// Turns the thermometer off; never refuses.
    pub fn turn_off(&mut self) -> (r: Result<(), ThermometerError>)
        ensures
            final(self).model() == (DeviceModel::Thermometer {
                id: old(self).model().id(),
                on: false,
            }),
            r is Ok,
    {
        self.state = ThermometerState::Off;
        Ok(())
    }

    /// A fresh temperature reading in tenths of a degree, inside the
    /// thermometer's bounds; the thermometer's state does not gate it.
    pub fn get_temperature(&mut self) -> (r: Result<u32, ThermometerError>)
        ensures
            *final(self) == *old(self),
            match r {
                Ok(d) => TEMP_LOW_TENTHS <= d < TEMP_MAX_TENTHS,
                Err(_) => false,
            },
    {
        Ok(random_in_range(TEMP_LOW_TENTHS, TEMP_MAX_TENTHS))
    }

    /// The thermometer's status line: whether it is on.
    pub fn state_report(&self) -> (r: String)
        ensures
            self.model().is_on() ==> r@ == "State: on"@,
            !self.model().is_on() ==> r@ == "State: off"@,
    {
        match self.state {
            ThermometerState::On => "State: on".to_owned(),
            ThermometerState::Off => "State: off".to_owned(),
        }
    }
}

impl Device for Thermometer {
    closed spec fn model(&self) -> DeviceModel {
        DeviceModel::Thermometer { id: self.id@, on: self.state is On }
    }

    fn process(&mut self, request: CommandRequest) -> (r: CommandResponse) {
        let response = if !str_eq(self.id.as_str(), request.id()) {
            ResponseType::Error("id mismatch".to_owned())
        } else {
            match *request.req_type() {
                RequestType::ThermGetTemp => match self.get_temperature() {
                    Ok(d) => ResponseType::Success(tenths_str(d)),
                    Err(_) => ResponseType::Error("Wrong request".to_owned()),
                },
                _ => ResponseType::Error("Wrong request".to_owned()),
            }
        };
        CommandResponse::new(request.id(), response)
    }
}

} // verus!
