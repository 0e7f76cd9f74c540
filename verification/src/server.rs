//! The scheduler-agnostic server logic: decode one frame, dispatch it through
//! the registry, encode the response. Transport adapters — blocking or
//! cooperative, stream or datagram — only move frames and call these.
//!
//! A malformed frame yields no response: a stream adapter then ends the
//! connection, a datagram adapter drops the packet and keeps listening;
//! either way the registry is untouched.

use vstd::prelude::*;

use crate::codec::{decode_request, encode_response, parse_request_chars, resp_doc};
use crate::device::DeviceModel;
use crate::registry::{dispatch_rel, Registry};
use crate::strutil::views_of;

verus! {

/// The view of an optional string.
pub open spec fn opt_view(r: Option<String>) -> Option<Seq<char>> {
    match r {
        Some(s) => Some(s@),
        None => None,
    }
}

/// How one received frame transforms the registry and what frame goes back:
/// a malformed frame changes nothing and answers nothing; a well-formed frame
/// is dispatched and the response document goes back.
pub open spec fn frame_rel(
    pre: Map<Seq<char>, DeviceModel>,
    frame: Seq<char>,
    post: Map<Seq<char>, DeviceModel>,
    out: Option<Seq<char>>,
) -> bool {
    match parse_request_chars(frame) {
        None => post == pre && out is None,
        Some(req) => exists|resp: crate::command::RespView|
            #[trigger] dispatch_rel(pre, req, post, resp) && out == Some(
                resp_doc(resp.id, resp.resp),
            ),
    }
}

/// How one connection's session transforms the registry: the frames are
/// processed strictly in arrival order, each answered before the next is
/// read, and the session ends silently at the first malformed frame.
pub open spec fn session_rel(
    pre: Map<Seq<char>, DeviceModel>,
    frames: Seq<Seq<char>>,
    post: Map<Seq<char>, DeviceModel>,
    outs: Seq<Seq<char>>,
) -> bool
    decreases frames.len(),
{
    if frames.len() == 0 {
        post == pre && outs == Seq::<Seq<char>>::empty()
    } else {
        match parse_request_chars(frames[0]) {
            None => post == pre && outs == Seq::<Seq<char>>::empty(),
            Some(req) => exists|mid: Map<Seq<char>, DeviceModel>, resp: crate::command::RespView|
                #[trigger] dispatch_rel(pre, req, mid, resp) && outs.len() >= 1 && outs[0]
                    == resp_doc(resp.id, resp.resp) && session_rel(
                    mid,
                    frames.skip(1),
                    post,
                    outs.skip(1),
                ),
        }
    }
}

/// Handles one frame: the whole pure work between one transport read and the
/// matching transport write, for the stream and the datagram server alike.
pub fn handle_frame(registry: &mut Registry, frame: &str) -> (r: Option<String>)
    requires
        old(registry).well_formed(),
    ensures
        final(registry).well_formed(),
        frame_rel(old(registry)@, frame@, final(registry)@, opt_view(r)),
{
    match decode_request(frame) {
        None => None,
        Some(req) => {
            let ghost reqv = req@;
            let resp = registry.dispatch(req);
            let out = encode_response(&resp);
            proof {
                assert(dispatch_rel(old(registry)@, reqv, registry@, resp@));
            }
            Some(out)
        },
    }
}

fn session_from(registry: &mut Registry, frames: &Vec<String>, i: usize) -> (outs: Vec<String>)
    requires
        old(registry).well_formed(),
        i <= frames@.len(),
    ensures
        final(registry).well_formed(),
        session_rel(
            old(registry)@,
            views_of(frames@).skip(i as int),
            final(registry)@,
            views_of(outs@),
        ),
    decreases frames@.len() - i,
{
    if i == frames.len() {
        let outs: Vec<String> = Vec::new();
        proof {
            assert(views_of(frames@).skip(i as int) =~= Seq::<Seq<char>>::empty());
            assert(views_of(outs@) =~= Seq::<Seq<char>>::empty());
        }
        outs
    } else {
        proof {
            assert(views_of(frames@).skip(i as int)[0] == frames@[i as int]@);
        }
        match decode_request(frames[i].as_str()) {
            None => {
                let outs: Vec<String> = Vec::new();
                proof {
                    assert(views_of(outs@) =~= Seq::<Seq<char>>::empty());
                }
                outs
            },
            Some(req) => {
                let ghost reqv = req@;
                let resp = registry.dispatch(req);
                let doc = encode_response(&resp);
                let ghost mid = registry@;
                let mut rest = session_from(registry, frames, i + 1);
                let ghost restv = rest@;
                let mut outs: Vec<String> = Vec::new();
                outs.push(doc);
                outs.append(&mut rest);
                proof {
                    assert(outs@ =~= seq![doc] + restv);
                    assert(views_of(frames@).skip(i + 1) =~= views_of(frames@).skip(
                        i as int,
                    ).skip(1));
                    assert(views_of(outs@)[0] == resp_doc(resp@.id, resp@.resp));
                    assert(views_of(outs@).skip(1) =~= views_of(restv));
                    assert(dispatch_rel(old(registry)@, reqv, mid, resp@));
                }
                outs
            },
        }
    }
}

/// Handles one stream connection's worth of frames, strictly in order,
/// stopping silently at the first malformed frame: the compute part of the
/// stream server's per-connection loop.
pub fn handle_stream_session(registry: &mut Registry, frames: &Vec<String>) -> (outs: Vec<String>)
    requires
        old(registry).well_formed(),
    ensures
        final(registry).well_formed(),
        session_rel(old(registry)@, views_of(frames@), final(registry)@, views_of(outs@)),
{
    let outs = session_from(registry, frames, 0);
    proof {
        assert(views_of(frames@).skip(0) =~= views_of(frames@));
    }
    outs
}

/// Handles one datagram: the compute part of the datagram server's loop.
/// A malformed datagram answers nothing and the loop goes on; one bad packet
/// never stops the server.
pub fn handle_datagram(registry: &mut Registry, frame: &str) -> (r: Option<String>)
    requires
        old(registry).well_formed(),
    ensures
        final(registry).well_formed(),
        frame_rel(old(registry)@, frame@, final(registry)@, opt_view(r)),
{
    handle_frame(registry, frame)
}

} // verus!
