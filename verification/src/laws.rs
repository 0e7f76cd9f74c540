//! Laws of the dispatch core, stated and proved over the dispatch relation:
//! switching a socket is idempotent, and any serialized run of switch
//! commands against one socket ends in the state the last command asked for.

use vstd::prelude::*;

use crate::command::{ReqView, RequestType, RespTypeView, RespView};
use crate::device::{process_rel, DeviceModel};
use crate::registry::dispatch_rel;

verus! {

/// The switch operation asking for that state.
pub open spec fn switch_kind(on: bool) -> RequestType {
    if on {
        RequestType::SocketTurnOn
    } else {
        RequestType::SocketTurnOff
    }
}

/// Dispatching the same switch command twice in a row yields the same
/// registry after the first as after the second, and the same response both
/// times: in particular the second call does not error where the first
/// succeeded. This holds whatever is registered under the id, and for
/// turning on and turning off alike.
pub proof fn lemma_switch_idempotent(
    pre: Map<Seq<char>, DeviceModel>,
    id: Seq<char>,
    on: bool,
    m1: Map<Seq<char>, DeviceModel>,
    r1: RespView,
    m2: Map<Seq<char>, DeviceModel>,
    r2: RespView,
)
    requires
        dispatch_rel(pre, ReqView { id, kind: switch_kind(on) }, m1, r1),
        dispatch_rel(m1, ReqView { id, kind: switch_kind(on) }, m2, r2),
    ensures
        m2 == m1,
        r2 == r1,
        pre.contains_key(id) && pre[id] == (DeviceModel::Socket { id, on: pre[id].is_on() })
            ==> r1.resp == RespTypeView::Success(""@) && m1 == pre.insert(
            id,
            DeviceModel::Socket { id, on },
        ),
{
    let req = ReqView { id, kind: switch_kind(on) };
    if !pre.contains_key(id) {
        assert(m1 == pre);
        assert(!m1.contains_key(id));
    } else {
        let d1 = choose|d: DeviceModel|
            #[trigger] process_rel(pre[id], req, d, r1) && m1 == pre.insert(id, d);
        assert(m1.contains_key(id));
        assert(m1[id] == d1);
        let d2 = choose|d: DeviceModel|
            #[trigger] process_rel(m1[id], req, d, r2) && m2 == m1.insert(id, d);
        match pre[id] {
            DeviceModel::Socket { id: sid, on: was } => {
                if id != sid {
                    assert(d1 == pre[id]);
                    assert(d2 == d1);
                    assert(m2 =~= m1);
                } else {
                    assert(d1 == (DeviceModel::Socket { id: sid, on }));
                    assert(d2 == d1);
                    assert(m2 =~= m1);
                }
            },
            DeviceModel::Thermometer { id: tid, on: was } => {
                assert(d1 == pre[id]);
                assert(d2 == d1);
                assert(m2 =~= m1);
            },
        }
    }
}

/// A serialized run of switch commands against one id: each command
/// dispatched after the one before, with its response recorded.
pub open spec fn switch_run(
    pre: Map<Seq<char>, DeviceModel>,
    id: Seq<char>,
    ops: Seq<bool>,
    post: Map<Seq<char>, DeviceModel>,
    resps: Seq<RespView>,
) -> bool
    decreases ops.len(),
{
    if ops.len() == 0 {
        post == pre && resps.len() == 0
    } else {
        exists|mid: Map<Seq<char>, DeviceModel>, r1: RespView|
            #[trigger] dispatch_rel(pre, ReqView { id, kind: switch_kind(ops[0]) }, mid, r1)
                && resps.len() >= 1 && resps[0] == r1 && switch_run(
                mid,
                id,
                ops.skip(1),
                post,
                resps.skip(1),
            )
    }
}

/// However many concurrent switch commands are aimed at one registered
/// socket, once the registry has serialized them, every one of them
/// succeeds and the terminal state is exactly the state the last command in
/// the serialization order asked for: no update is lost and no write is
/// torn.
pub proof fn lemma_switch_run_terminal(
    pre: Map<Seq<char>, DeviceModel>,
    id: Seq<char>,
    ops: Seq<bool>,
    post: Map<Seq<char>, DeviceModel>,
    resps: Seq<RespView>,
)
    requires
        switch_run(pre, id, ops, post, resps),
        pre.contains_key(id),
        pre[id] == (DeviceModel::Socket { id, on: pre[id].is_on() }),
        ops.len() > 0,
    ensures
        post == pre.insert(id, DeviceModel::Socket { id, on: ops.last() }),
        resps.len() == ops.len(),
        forall|i: int|
            0 <= i < resps.len() ==> (#[trigger] resps[i]) == (RespView {
                id,
                resp: RespTypeView::Success(""@),
            }),
    decreases ops.len(),
{
    let req = ReqView { id, kind: switch_kind(ops[0]) };
    let (mid, r1) = choose|mid: Map<Seq<char>, DeviceModel>, r1: RespView|
        #[trigger] dispatch_rel(pre, req, mid, r1) && resps.len() >= 1 && resps[0] == r1
            && switch_run(mid, id, ops.skip(1), post, resps.skip(1));
    let d1 = choose|d: DeviceModel| #[trigger] process_rel(pre[id], req, d, r1) && mid == pre.insert(
        id,
        d,
    );
    assert(d1 == (DeviceModel::Socket { id, on: ops[0] }));
    assert(r1 == (RespView { id, resp: RespTypeView::Success(""@) }));
    assert(mid.contains_key(id));
    assert(mid[id] == d1);
    if ops.len() == 1 {
        assert(ops.skip(1).len() == 0);
        assert(post == mid);
        assert(ops.last() == ops[0]);
        assert(resps.skip(1).len() == 0);
        assert(resps.len() == 1);
    } else {
        lemma_switch_run_terminal(mid, id, ops.skip(1), post, resps.skip(1));
        assert(ops.skip(1).last() == ops.last());
        assert(post == mid.insert(id, DeviceModel::Socket { id, on: ops.last() }));
        assert(mid.insert(id, DeviceModel::Socket { id, on: ops.last() }) =~= pre.insert(
            id,
            DeviceModel::Socket { id, on: ops.last() },
        ));
        assert forall|i: int| 0 <= i < resps.len() implies (#[trigger] resps[i]) == (RespView {
            id,
            resp: RespTypeView::Success(""@),
        }) by {
            if i > 0 {
                assert(resps.skip(1)[i - 1] == resps[i]);
            }
        }
    }
}

} // verus!
