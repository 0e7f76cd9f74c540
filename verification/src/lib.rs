//! Remote control of simple household devices (switchable power sockets and
//! thermometers) over a network link: a verified device registry and dispatch
//! core, a request/response wire codec, and the surrounding data model.
//!
//! Transports themselves (stream and datagram sockets, blocking or
//! cooperative) are thin adapters around the pure per-frame logic here.

use vstd::prelude::*;

pub mod client;
pub mod codec;
pub mod command;
pub mod controller;
pub mod device;
pub mod errors;
pub mod home;
pub mod laws;
mod random;
pub mod registry;
pub mod server;
pub mod socket;
pub mod sources;
pub mod strutil;
pub mod therm;

verus! {

/// Size of the receive buffer used by the transport adapters: one wire frame
/// must fit in a buffer of this many bytes.
pub const BUFLEN: usize = 1024;

/// A container of live devices that can describe any of them: a report asks
/// it for one line per room and device name.
pub trait DeviceInfoProvider {
    /// The provider's own well-formedness; its constructors establish it.
    spec fn wf(&self) -> bool;

    /// The line the provider answers for a room and device name.
    spec fn info_spec(&self, room: Seq<char>, device: Seq<char>) -> Seq<char>;

    /// Describes the device of that name in that room, in one line.
    fn get_info(&self, room: &str, device: &str) -> (r: String)
        requires
            self.wf(),
        ensures
            r@ == self.info_spec(room@, device@),
    ;
}

} // verus!
