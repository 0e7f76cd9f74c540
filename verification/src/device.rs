//! The device capability: what it means for a device to accept a typed
//! request and produce a typed response, stated over an abstract model of the
//! device so that every device kind answers the same contract.

use vstd::prelude::*;

use crate::command::{CommandRequest, CommandResponse, ReqView, RequestType, RespTypeView, RespView};
use crate::strutil::tenths_digits;

verus! {

/// Lowest power draw, in tenths of a watt, a socket that is on reports.
pub const POWER_LOW_TENTHS: u32 = 200;

/// All power draws a socket that is on reports are below this bound,
/// in tenths of a watt.
pub const POWER_MAX_TENTHS: u32 = 10000;

/// Lowest temperature, in tenths of a degree, a thermometer reports.
pub const TEMP_LOW_TENTHS: u32 = 200;

/// All temperatures a thermometer reports are below this bound,
/// in tenths of a degree.
pub const TEMP_MAX_TENTHS: u32 = 250;

/// The abstract state of a device: its kind, its id, and whether it is on.
pub enum DeviceModel {
    Socket { id: Seq<char>, on: bool },
    Thermometer { id: Seq<char>, on: bool },
}

impl DeviceModel {
    /// The id under which the device answers.
    pub open spec fn id(&self) -> Seq<char> {
        match *self {
            DeviceModel::Socket { id, .. } => id,
            DeviceModel::Thermometer { id, .. } => id,
        }
    }

    /// Whether the device is switched on.
    pub open spec fn is_on(&self) -> bool {
        match *self {
            DeviceModel::Socket { on, .. } => on,
            DeviceModel::Thermometer { on, .. } => on,
        }
    }
}

/// The status line a socket reports: its state and its power draw, the draw
/// rendered with one digit after the decimal point.
pub open spec fn state_report_chars(on: bool, tenths: nat) -> Seq<char> {
    (if on {
        "State: on"@
    } else {
        "State: off"@
    }) + ", power consumption "@ + tenths_digits(tenths) + "W"@
}

/// What a successful state query may answer: when the socket is off, exactly
/// the zero-draw status line; when it is on, a status line whose draw is a
/// fresh value inside the socket's bounds.
pub open spec fn is_state_report(r: RespTypeView, on: bool) -> bool {
    if on {
        exists|d: nat|
            POWER_LOW_TENTHS <= d < POWER_MAX_TENTHS && r == RespTypeView::Success(
                #[trigger] state_report_chars(true, d),
            )
    } else {
        r == RespTypeView::Success(state_report_chars(false, 0))
    }
}

/// What a successful temperature query may answer: a fresh reading inside the
/// thermometer's bounds, rendered with one digit after the decimal point.
pub open spec fn is_temp_report(r: RespTypeView) -> bool {
    exists|d: nat|
        TEMP_LOW_TENTHS <= d < TEMP_MAX_TENTHS && r == RespTypeView::Success(
            #[trigger] tenths_digits(d),
        )
}

/// How one dispatched request transforms a device and what it answers.
///
/// The response always echoes the request's id. A request whose id is not the
/// device's own id is refused without touching the device; an operation
/// outside the device's kind is refused with a kind-mismatch message; turning
/// a socket on or off always succeeds with an empty payload, in either
/// direction idempotently; state and temperature queries leave the device
/// unchanged and answer inside the device's bounds.
pub open spec fn process_rel(
    pre: DeviceModel,
    req: ReqView,
    post: DeviceModel,
    resp: RespView,
) -> bool {
    &&& resp.id == req.id
    &&& match pre {
        DeviceModel::Socket { id, on } => {
            if req.id != id {
                post == pre && resp.resp == RespTypeView::Error("id mismatch"@)
            } else {
                match req.kind {
                    RequestType::SocketTurnOn => post == (DeviceModel::Socket { id, on: true })
                        && resp.resp == RespTypeView::Success(""@),
                    RequestType::SocketTurnOff => post == (DeviceModel::Socket { id, on: false })
                        && resp.resp == RespTypeView::Success(""@),
                    RequestType::SocketGetState => post == pre && is_state_report(resp.resp, on),
                    RequestType::ThermGetTemp => post == pre && resp.resp == RespTypeView::Error(
                        "Wrong request"@,
                    ),
                }
            }
        },
        DeviceModel::Thermometer { id, on } => {
            if req.id != id {
                post == pre && resp.resp == RespTypeView::Error("id mismatch"@)
            } else {
                match req.kind {
                    RequestType::ThermGetTemp => post == pre && is_temp_report(resp.resp),
                    _ => post == pre && resp.resp == RespTypeView::Error("Wrong request"@),
                }
            }
        },
    }
}

/// The device capability: accept one typed request, answer one typed
/// response, as `process_rel` allows for the device's model.
pub trait Device {
    /// The abstract state this device is in.
    spec fn model(&self) -> DeviceModel;

    /// Handle one request aimed at this device.
    fn process(&mut self, request: CommandRequest) -> (r: CommandResponse)
        ensures
            process_rel(old(self).model(), request@, final(self).model(), r@),
    ;
}

} // verus!
