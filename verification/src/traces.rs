//! What whole runs of the services guarantee. The step functions of the
//! socket and login services are folded over input sequences, and the
//! per-connection session shape is proved: one accept, then lines, then
//! one close, and nothing after; one joined user per drop, never a drop
//! without one; a send either reaches the wire in order or follows the
//! connection's close.
use vstd::prelude::*;

use crate::SocketId;
use crate::login::{spec_login_closed, spec_login_step, LoginActionView, LoginView, UserEventView, UserId};
use crate::socket::{
    event_id, spec_socket_step, SocketActionView, SocketEventView, SocketInputView,
    SocketRequestView,
};

verus! {

/// How often an event occurs in a trace.
pub open spec fn cnt_occ(evs: Seq<SocketEventView>, e: SocketEventView) -> nat
    decreases evs.len(),
{
    if evs.len() == 0 {
        0
    } else {
        cnt_occ(evs.drop_last(), e) + if evs.last() == e {
            1nat
        } else {
            0nat
        }
    }
}

pub proof fn lemma_cnt_occ_snoc(evs: Seq<SocketEventView>, x: SocketEventView, e: SocketEventView)
    ensures
        cnt_occ(evs.push(x), e) == cnt_occ(evs, e) + if x == e {
            1nat
        } else {
            0nat
        },
{
    assert(evs.push(x).drop_last() =~= evs);
    assert(evs.push(x).last() == x);
}

pub proof fn lemma_cnt_occ_zero(evs: Seq<SocketEventView>, e: SocketEventView)
    requires
        cnt_occ(evs, e) == 0,
    ensures
        forall|k: int| 0 <= k < evs.len() ==> evs[k] != e,
    decreases evs.len(),
{
    if evs.len() > 0 {
        lemma_cnt_occ_zero(evs.drop_last(), e);
        assert forall|k: int| 0 <= k < evs.len() implies evs[k] != e by {
            if k < evs.len() - 1 {
                assert(evs.drop_last()[k] == evs[k]);
            }
        }
    }
}

pub proof fn lemma_cnt_occ_pos(evs: Seq<SocketEventView>, e: SocketEventView)
    requires
        cnt_occ(evs, e) >= 1,
    ensures
        exists|k: int| 0 <= k < evs.len() && evs[k] == e,
    decreases evs.len(),
{
    if evs.len() > 0 {
        if evs.last() == e {
            assert(evs[evs.len() - 1] == e);
        } else {
            lemma_cnt_occ_pos(evs.drop_last(), e);
            let k = choose|k: int| 0 <= k < evs.len() - 1 && evs.drop_last()[k] == e;
            assert(evs[k] == e);
        }
    }
}

pub proof fn lemma_cnt_occ_atleast(evs: Seq<SocketEventView>, e: SocketEventView, k: int)
    requires
        0 <= k < evs.len(),
        evs[k] == e,
    ensures
        cnt_occ(evs, e) >= 1,
    decreases evs.len(),
{
    if k == evs.len() - 1 {
    } else {
        assert(evs.drop_last()[k] == e);
        lemma_cnt_occ_atleast(evs.drop_last(), e, k);
    }
}

pub proof fn lemma_cnt_occ_two(evs: Seq<SocketEventView>, e: SocketEventView, k1: int, k2: int)
    requires
        0 <= k1 < k2 < evs.len(),
        evs[k1] == e,
        evs[k2] == e,
    ensures
        cnt_occ(evs, e) >= 2,
    decreases evs.len(),
{
    if k2 == evs.len() - 1 {
        assert(evs.drop_last()[k1] == e);
        lemma_cnt_occ_atleast(evs.drop_last(), e, k1);
    } else {
        assert(evs.drop_last()[k1] == e);
        assert(evs.drop_last()[k2] == e);
        lemma_cnt_occ_two(evs.drop_last(), e, k1, k2);
    }
}

pub proof fn lemma_cnt_occ_mono(a: Seq<SocketEventView>, b: Seq<SocketEventView>, e: SocketEventView)
    ensures
        cnt_occ(a + b, e) >= cnt_occ(a, e),
    decreases b.len(),
{
    if b.len() == 0 {
        assert(a + b =~= a);
    } else {
        assert((a + b).drop_last() =~= a + b.drop_last());
        lemma_cnt_occ_mono(a, b.drop_last(), e);
    }
}

pub proof fn lemma_cnt_occ_add(a: Seq<SocketEventView>, b: Seq<SocketEventView>, e: SocketEventView)
    ensures
        cnt_occ(a + b, e) == cnt_occ(a, e) + cnt_occ(b, e),
    decreases b.len(),
{
    if b.len() == 0 {
        assert(a + b =~= a);
    } else {
        assert((a + b).drop_last() =~= a + b.drop_last());
        assert((a + b).last() == b.last());
        lemma_cnt_occ_add(a, b.drop_last(), e);
    }
}

proof fn lemma_cnt_occ_single(x: SocketEventView, e: SocketEventView)
    ensures
        cnt_occ(seq![x], e) == if x == e {
            1nat
        } else {
            0nat
        },
{
    assert(seq![x].drop_last() =~= Seq::<SocketEventView>::empty());
    assert(seq![x].last() == x);
    assert(cnt_occ(Seq::<SocketEventView>::empty(), e) == 0);
}

/// The events an action sequence emits upward, in order.
pub open spec fn events_of(acts: Seq<SocketActionView>) -> Seq<SocketEventView>
    decreases acts.len(),
{
    if acts.len() == 0 {
        Seq::empty()
    } else {
        events_of(acts.drop_last()) + match acts.last() {
            SocketActionView::Emit(e) => seq![e],
            _ => Seq::<SocketEventView>::empty(),
        }
    }
}

pub proof fn lemma_events_of_add(a: Seq<SocketActionView>, b: Seq<SocketActionView>)
    ensures
        events_of(a + b) =~= events_of(a) + events_of(b),
    decreases b.len(),
{
    if b.len() == 0 {
        assert(a + b =~= a);
        assert(events_of(b) =~= Seq::<SocketEventView>::empty());
    } else {
        assert((a + b).drop_last() =~= a + b.drop_last());
        assert((a + b).last() == b.last());
        lemma_events_of_add(a, b.drop_last());
    }
}

/// A whole run of the socket service over a sequence of inputs.
pub open spec fn socket_run(live: Set<SocketId>, ins: Seq<SocketInputView>) -> (Set<SocketId>, Seq<
    SocketActionView,
>)
    decreases ins.len(),
{
    if ins.len() == 0 {
        (live, Seq::empty())
    } else {
        let s = spec_socket_step(live, ins[0]);
        let r = socket_run(s.0, ins.drop_first());
        (r.0, s.1 + r.1)
    }
}

/// The number of accepts in a trace of the given connection.
pub open spec fn cnt_new_socket(evs: Seq<SocketEventView>, id: SocketId) -> nat {
    cnt_occ(evs, SocketEventView::NewSocket(id))
}

/// The number of closes in a trace of the given connection.
pub open spec fn cnt_closed_socket(evs: Seq<SocketEventView>, id: SocketId) -> nat {
    cnt_occ(evs, SocketEventView::ClosedSocket(id))
}

/// The per-connection session shape of an emitted trace: at most one
/// accept and one close, the connection live exactly between them,
/// every event after the accept, and none after the close.
pub open spec fn socket_inv_at(live: Set<SocketId>, evs: Seq<SocketEventView>, id: SocketId) -> bool {
    &&& cnt_new_socket(evs, id) <= 1
    &&& cnt_closed_socket(evs, id) <= cnt_new_socket(evs, id)
    &&& (live.contains(id) <==> cnt_new_socket(evs, id) == cnt_closed_socket(evs, id) + 1)
    &&& forall|k: int|
        0 <= k < evs.len() && event_id(evs[k]) == id && !(#[trigger] evs[k] is NewSocket)
            ==> exists|j: int| 0 <= j < k && evs[j] == SocketEventView::NewSocket(id)
    &&& forall|k: int, k2: int|
        0 <= k < k2 < evs.len() && #[trigger] evs[k] == SocketEventView::ClosedSocket(id)
            ==> event_id(#[trigger] evs[k2]) != id
}

pub open spec fn socket_inv(live: Set<SocketId>, evs: Seq<SocketEventView>) -> bool {
    forall|id: SocketId| #[trigger] socket_inv_at(live, evs, id)
}

/// Whether an input is the accept of the given connection.
pub open spec fn is_conn(inp: SocketInputView, id: SocketId) -> bool {
    inp == SocketInputView::Connection(id)
}

/// No connection id is accepted twice in one input sequence.
pub open spec fn at_most_one_connection(ins: Seq<SocketInputView>) -> bool {
    forall|k1: int, k2: int, id: SocketId|
        0 <= k1 < k2 < ins.len() && #[trigger] is_conn(ins[k1], id) && #[trigger] is_conn(
            ins[k2],
            id,
        ) ==> false
}

/// The remaining inputs accept no connection that is live or was
/// already accepted.
pub open spec fn conn_fresh(
    live: Set<SocketId>,
    evs: Seq<SocketEventView>,
    ins: Seq<SocketInputView>,
) -> bool {
    forall|k: int, id: SocketId|
        0 <= k < ins.len() && #[trigger] is_conn(ins[k], id) ==> !live.contains(id)
            && cnt_new_socket(evs, id) == 0
}

/// The events of an empty, one-action and two-action sequence.
proof fn lemma_events_of_single(a: SocketActionView)
    ensures
        events_of(seq![a]) =~= match a {
            SocketActionView::Emit(e) => seq![e],
            _ => Seq::<SocketEventView>::empty(),
        },
{
    assert(seq![a].drop_last() =~= Seq::<SocketActionView>::empty());
    assert(seq![a].last() == a);
    assert(events_of(Seq::<SocketActionView>::empty()) =~= Seq::<SocketEventView>::empty());
}

proof fn lemma_events_of_pair(a: SocketActionView, b: SocketActionView)
    ensures
        events_of(seq![a, b]) =~= events_of(seq![a]) + match b {
            SocketActionView::Emit(e) => seq![e],
            _ => Seq::<SocketEventView>::empty(),
        },
{
    assert(seq![a, b].drop_last() =~= seq![a]);
    assert(seq![a, b].last() == b);
}

/// Appending one admissible event preserves the session shape.
proof fn lemma_inv_push(
    live: Set<SocketId>,
    evs: Seq<SocketEventView>,
    live2: Set<SocketId>,
    e: SocketEventView,
)
    requires
        socket_inv(live, evs),
        match e {
            SocketEventView::NewSocket(id) => !live.contains(id) && cnt_new_socket(evs, id) == 0
                && live2 == live.insert(id),
            SocketEventView::NewMessage(id, _) => live.contains(id) && live2 == live,
            SocketEventView::ClosedSocket(id) => live.contains(id) && live2 == live.remove(id),
        },
    ensures
        socket_inv(live2, evs.push(e)),
{
    let evs2 = evs.push(e);
    let eid = event_id(e);
    assert forall|id: SocketId| #[trigger] socket_inv_at(live2, evs2, id) by {
        assert(socket_inv_at(live, evs, id));
        lemma_cnt_occ_snoc(evs, e, SocketEventView::NewSocket(id));
        lemma_cnt_occ_snoc(evs, e, SocketEventView::ClosedSocket(id));
        if id != eid {
            assert(cnt_new_socket(evs2, id) == cnt_new_socket(evs, id));
            assert(cnt_closed_socket(evs2, id) == cnt_closed_socket(evs, id));
            assert(live2.contains(id) == live.contains(id));
            assert forall|k: int|
                0 <= k < evs2.len() && event_id(evs2[k]) == id && !(
                #[trigger] evs2[k] is NewSocket) implies exists|j: int|
                0 <= j < k && evs2[j] == SocketEventView::NewSocket(id) by {
                assert(k < evs.len());
                assert(evs[k] == evs2[k]);
                let j = choose|j: int| 0 <= j < k && evs[j] == SocketEventView::NewSocket(id);
                assert(evs2[j] == SocketEventView::NewSocket(id));
            }
        } else {
            match e {
                SocketEventView::NewSocket(_) => {
                    assert(cnt_closed_socket(evs, id) == 0);
                    lemma_cnt_occ_zero(evs, SocketEventView::ClosedSocket(id));
                    assert forall|k: int|
                        0 <= k < evs2.len() && event_id(evs2[k]) == id && !(
                        #[trigger] evs2[k] is NewSocket) implies exists|j: int|
                        0 <= j < k && evs2[j] == SocketEventView::NewSocket(id) by {
                        assert(k < evs.len());
                        assert(evs[k] == evs2[k]);
                        let j = choose|j: int|
                            0 <= j < k && evs[j] == SocketEventView::NewSocket(id);
                        assert(evs2[j] == SocketEventView::NewSocket(id));
                    }
                },
                SocketEventView::NewMessage(_, _) => {
                    assert(cnt_new_socket(evs, id) == 1);
                    assert(cnt_closed_socket(evs, id) == 0);
                    lemma_cnt_occ_zero(evs, SocketEventView::ClosedSocket(id));
                    lemma_cnt_occ_pos(evs, SocketEventView::NewSocket(id));
                    assert forall|k: int|
                        0 <= k < evs2.len() && event_id(evs2[k]) == id && !(
                        #[trigger] evs2[k] is NewSocket) implies exists|j: int|
                        0 <= j < k && evs2[j] == SocketEventView::NewSocket(id) by {
                        if k < evs.len() {
                            let j = choose|j: int|
                                0 <= j < k && evs[j] == SocketEventView::NewSocket(id);
                            assert(evs2[j] == SocketEventView::NewSocket(id));
                        } else {
                            let j = choose|j: int|
                                0 <= j < evs.len() && evs[j] == SocketEventView::NewSocket(id);
                            assert(evs2[j] == SocketEventView::NewSocket(id));
                        }
                    }
                },
                SocketEventView::ClosedSocket(_) => {
                    assert(cnt_new_socket(evs, id) == 1);
                    assert(cnt_closed_socket(evs, id) == 0);
                    lemma_cnt_occ_zero(evs, SocketEventView::ClosedSocket(id));
                    lemma_cnt_occ_pos(evs, SocketEventView::NewSocket(id));
                    assert forall|k: int|
                        0 <= k < evs2.len() && event_id(evs2[k]) == id && !(
                        #[trigger] evs2[k] is NewSocket) implies exists|j: int|
                        0 <= j < k && evs2[j] == SocketEventView::NewSocket(id) by {
                        if k < evs.len() {
                            let j = choose|j: int|
                                0 <= j < k && evs[j] == SocketEventView::NewSocket(id);
                            assert(evs2[j] == SocketEventView::NewSocket(id));
                        } else {
                            let j = choose|j: int|
                                0 <= j < evs.len() && evs[j] == SocketEventView::NewSocket(id);
                            assert(evs2[j] == SocketEventView::NewSocket(id));
                        }
                    }
                },
            }
        }
    }
}

/// Closing a connection preserves the session shape.
proof fn lemma_close_inv(live: Set<SocketId>, evs: Seq<SocketEventView>, id: SocketId)
    requires
        socket_inv(live, evs),
    ensures
        socket_inv(
            crate::socket::spec_close(live, id).0,
            evs + events_of(crate::socket::spec_close(live, id).1),
        ),
{
    let c = crate::socket::spec_close(live, id);
    if live.contains(id) {
        assert(c.1 =~= seq![
            SocketActionView::CloseWriter(id),
            SocketActionView::Emit(SocketEventView::ClosedSocket(id)),
        ]);
        lemma_events_of_pair(
            SocketActionView::CloseWriter(id),
            SocketActionView::Emit(SocketEventView::ClosedSocket(id)),
        );
        lemma_events_of_single(SocketActionView::CloseWriter(id));
        assert(events_of(c.1) =~= seq![SocketEventView::ClosedSocket(id)]);
        assert(evs + events_of(c.1) =~= evs.push(SocketEventView::ClosedSocket(id)));
        lemma_inv_push(live, evs, live.remove(id), SocketEventView::ClosedSocket(id));
    } else {
        assert(events_of(c.1) =~= Seq::<SocketEventView>::empty());
        assert(evs + events_of(c.1) =~= evs);
    }
}

/// One step preserves the session shape.
proof fn lemma_socket_step_inv(
    live: Set<SocketId>,
    evs: Seq<SocketEventView>,
    inp: SocketInputView,
)
    requires
        socket_inv(live, evs),
        forall|id: SocketId|
            #[trigger] is_conn(inp, id) ==> !live.contains(id) && cnt_new_socket(evs, id) == 0,
    ensures
        socket_inv(
            spec_socket_step(live, inp).0,
            evs + events_of(spec_socket_step(live, inp).1),
        ),
{
    let live2 = spec_socket_step(live, inp).0;
    let acts = spec_socket_step(live, inp).1;
    match inp {
        SocketInputView::Connection(id) => {
            assert(is_conn(inp, id));
            assert(!live.contains(id) && cnt_new_socket(evs, id) == 0);
            assert(acts =~= seq![SocketActionView::Emit(SocketEventView::NewSocket(id))]);
            lemma_events_of_single(SocketActionView::Emit(SocketEventView::NewSocket(id)));
            assert(evs + events_of(acts) =~= evs.push(SocketEventView::NewSocket(id)));
            lemma_inv_push(live, evs, live.insert(id), SocketEventView::NewSocket(id));
        },
        SocketInputView::Read(r) => {
            match r {
                crate::socket::ReadResultView::Line(id, s) => {
                    if live.contains(id) {
                        assert(acts =~= seq![
                            SocketActionView::Emit(SocketEventView::NewMessage(id, s)),
                        ]);
                        lemma_events_of_single(
                            SocketActionView::Emit(SocketEventView::NewMessage(id, s)),
                        );
                        assert(evs + events_of(acts) =~= evs.push(
                            SocketEventView::NewMessage(id, s),
                        ));
                        lemma_inv_push(live, evs, live, SocketEventView::NewMessage(id, s));
                    } else {
                        assert(events_of(acts) =~= Seq::<SocketEventView>::empty());
                        assert(evs + events_of(acts) =~= evs);
                    }
                },
                crate::socket::ReadResultView::Closed(id) => lemma_close_inv(live, evs, id),
                crate::socket::ReadResultView::Utf8Error(id) => lemma_close_inv(live, evs, id),
                crate::socket::ReadResultView::TooLong(id) => lemma_close_inv(live, evs, id),
                crate::socket::ReadResultView::IoError(id) => lemma_close_inv(live, evs, id),
            }
        },
        SocketInputView::Request(q) => {
            match q {
                SocketRequestView::SendMessage(id, m) => {
                    if live.contains(id) {
                        assert(acts =~= seq![SocketActionView::Write(id, m)]);
                        lemma_events_of_single(SocketActionView::Write(id, m));
                        assert(events_of(acts) =~= Seq::<SocketEventView>::empty());
                        assert(evs + events_of(acts) =~= evs);
                    } else {
                        assert(events_of(acts) =~= Seq::<SocketEventView>::empty());
                        assert(evs + events_of(acts) =~= evs);
                    }
                },
                SocketRequestView::CloseSocket(id) => lemma_close_inv(live, evs, id),
            }
        },
        SocketInputView::WriteError(id) => lemma_close_inv(live, evs, id),
    }
}

/// A step on anything but the accept of `id` emits no accept of `id`.
proof fn lemma_step_no_new(live: Set<SocketId>, inp: SocketInputView, id: SocketId)
    requires
        !is_conn(inp, id),
    ensures
        cnt_occ(events_of(spec_socket_step(live, inp).1), SocketEventView::NewSocket(id)) == 0,
{
    let acts = spec_socket_step(live, inp).1;
    let ns = SocketEventView::NewSocket(id);
    match inp {
        SocketInputView::Connection(cid) => {
            if !live.contains(cid) {
                assert(acts =~= seq![SocketActionView::Emit(SocketEventView::NewSocket(cid))]);
                lemma_events_of_single(SocketActionView::Emit(SocketEventView::NewSocket(cid)));
                assert(events_of(acts) =~= seq![SocketEventView::NewSocket(cid)]);
                lemma_cnt_occ_single(SocketEventView::NewSocket(cid), ns);
                assert(cid != id);
            } else {
                assert(events_of(acts) =~= Seq::<SocketEventView>::empty());
            }
        },
        SocketInputView::Read(r) => {
            match r {
                crate::socket::ReadResultView::Line(lid, s) => {
                    if live.contains(lid) {
                        assert(acts =~= seq![
                            SocketActionView::Emit(SocketEventView::NewMessage(lid, s)),
                        ]);
                        lemma_events_of_single(
                            SocketActionView::Emit(SocketEventView::NewMessage(lid, s)),
                        );
                        lemma_cnt_occ_single(SocketEventView::NewMessage(lid, s), ns);
                        assert(events_of(acts) =~= seq![SocketEventView::NewMessage(lid, s)]);
                    } else {
                        assert(events_of(acts) =~= Seq::<SocketEventView>::empty());
                    }
                },
                crate::socket::ReadResultView::Closed(cid) => lemma_close_no_new(live, cid, id),
                crate::socket::ReadResultView::Utf8Error(cid) => lemma_close_no_new(live, cid, id),
                crate::socket::ReadResultView::TooLong(cid) => lemma_close_no_new(live, cid, id),
                crate::socket::ReadResultView::IoError(cid) => lemma_close_no_new(live, cid, id),
            }
        },
        SocketInputView::Request(q) => {
            match q {
                SocketRequestView::SendMessage(sid, m) => {
                    if live.contains(sid) {
                        assert(acts =~= seq![SocketActionView::Write(sid, m)]);
                        lemma_events_of_single(SocketActionView::Write(sid, m));
                        assert(events_of(acts) =~= Seq::<SocketEventView>::empty());
                    } else {
                        assert(events_of(acts) =~= Seq::<SocketEventView>::empty());
                    }
                },
                SocketRequestView::CloseSocket(cid) => lemma_close_no_new(live, cid, id),
            }
        },
        SocketInputView::WriteError(cid) => lemma_close_no_new(live, cid, id),
    }
}

/// A close emits no accept.
proof fn lemma_close_no_new(live: Set<SocketId>, cid: SocketId, id: SocketId)
    ensures
        cnt_occ(
            events_of(crate::socket::spec_close(live, cid).1),
            SocketEventView::NewSocket(id),
        ) == 0,
{
    let acts = crate::socket::spec_close(live, cid).1;
    let ns = SocketEventView::NewSocket(id);
    if live.contains(cid) {
        assert(acts =~= seq![
            SocketActionView::CloseWriter(cid),
            SocketActionView::Emit(SocketEventView::ClosedSocket(cid)),
        ]);
        lemma_events_of_pair(
            SocketActionView::CloseWriter(cid),
            SocketActionView::Emit(SocketEventView::ClosedSocket(cid)),
        );
        lemma_events_of_single(SocketActionView::CloseWriter(cid));
        assert(events_of(acts) =~= seq![SocketEventView::ClosedSocket(cid)]);
        lemma_cnt_occ_single(SocketEventView::ClosedSocket(cid), ns);
    } else {
        assert(events_of(acts) =~= Seq::<SocketEventView>::empty());
    }
}

/// A whole run preserves the session shape.
pub proof fn lemma_socket_run_inv(
    live: Set<SocketId>,
    evs: Seq<SocketEventView>,
    ins: Seq<SocketInputView>,
)
    requires
        socket_inv(live, evs),
        at_most_one_connection(ins),
        conn_fresh(live, evs, ins),
    ensures
        socket_inv(socket_run(live, ins).0, evs + events_of(socket_run(live, ins).1)),
    decreases ins.len(),
{
    if ins.len() == 0 {
        assert(events_of(socket_run(live, ins).1) =~= Seq::<SocketEventView>::empty());
        assert(evs + events_of(socket_run(live, ins).1) =~= evs);
    } else {
        let s = spec_socket_step(live, ins[0]);
        let rest = ins.drop_first();
        let evs1 = evs + events_of(s.1);
        lemma_hyps_step(live, evs, ins);
        lemma_socket_run_inv(s.0, evs1, rest);
        let r = socket_run(s.0, rest);
        lemma_events_of_add(s.1, r.1);
        assert(evs1 + events_of(r.1) =~= evs + events_of(s.1 + r.1));
    }
}

/// For every close reported upstream there is exactly one preceding
/// accept with the same id, and no event for that id after the close,
/// provided no id is accepted twice.
pub proof fn lemma_socket_sessions(ins: Seq<SocketInputView>, k: int, id: SocketId)
    requires
        at_most_one_connection(ins),
        0 <= k < events_of(socket_run(Set::empty(), ins).1).len(),
        events_of(socket_run(Set::empty(), ins).1)[k] == SocketEventView::ClosedSocket(id),
    ensures
        ({
            let evs = events_of(socket_run(Set::<SocketId>::empty(), ins).1);
            &&& exists|j: int| 0 <= j < k && evs[j] == SocketEventView::NewSocket(id)
            &&& forall|j1: int, j2: int|
                (0 <= j1 < evs.len() && 0 <= j2 < evs.len() && #[trigger] evs[j1]
                    == SocketEventView::NewSocket(id) && #[trigger] evs[j2]
                    == SocketEventView::NewSocket(id)) ==> j1 == j2
            &&& forall|k2: int| k < k2 < evs.len() ==> event_id(#[trigger] evs[k2]) != id
        }),
{
    let evs = events_of(socket_run(Set::<SocketId>::empty(), ins).1);
    lemma_socket_run_inv(Set::empty(), Seq::empty(), ins);
    assert(Seq::<SocketEventView>::empty() + evs =~= evs);
    let live = socket_run(Set::<SocketId>::empty(), ins).0;
    assert(socket_inv_at(live, evs, id));
    assert(event_id(evs[k]) == id && !(evs[k] is NewSocket));
    assert forall|j1: int, j2: int|
        (0 <= j1 < evs.len() && 0 <= j2 < evs.len() && #[trigger] evs[j1]
            == SocketEventView::NewSocket(id) && #[trigger] evs[j2] == SocketEventView::NewSocket(
            id,
        )) implies j1 == j2 by {
        if j1 < j2 {
            lemma_cnt_occ_two(evs, SocketEventView::NewSocket(id), j1, j2);
        }
        if j2 < j1 {
            lemma_cnt_occ_two(evs, SocketEventView::NewSocket(id), j2, j1);
        }
    }
}


/// The payloads written to one connection's wire, in order.
pub open spec fn wire_of(acts: Seq<SocketActionView>, id: SocketId) -> Seq<Seq<char>>
    decreases acts.len(),
{
    if acts.len() == 0 {
        Seq::empty()
    } else {
        wire_of(acts.drop_last(), id) + match acts.last() {
            SocketActionView::Write(wid, m) => if wid == id {
                seq![m]
            } else {
                Seq::<Seq<char>>::empty()
            },
            _ => Seq::<Seq<char>>::empty(),
        }
    }
}

pub proof fn lemma_wire_of_add(a: Seq<SocketActionView>, b: Seq<SocketActionView>, id: SocketId)
    ensures
        wire_of(a + b, id) =~= wire_of(a, id) + wire_of(b, id),
    decreases b.len(),
{
    if b.len() == 0 {
        assert(a + b =~= a);
        assert(wire_of(b, id) =~= Seq::<Seq<char>>::empty());
    } else {
        assert((a + b).drop_last() =~= a + b.drop_last());
        assert((a + b).last() == b.last());
        lemma_wire_of_add(a, b.drop_last(), id);
    }
}

proof fn lemma_wire_of_single(a: SocketActionView, id: SocketId)
    ensures
        wire_of(seq![a], id) =~= match a {
            SocketActionView::Write(wid, m) => if wid == id {
                seq![m]
            } else {
                Seq::<Seq<char>>::empty()
            },
            _ => Seq::<Seq<char>>::empty(),
        },
{
    assert(seq![a].drop_last() =~= Seq::<SocketActionView>::empty());
    assert(seq![a].last() == a);
    assert(wire_of(Seq::<SocketActionView>::empty(), id) =~= Seq::<Seq<char>>::empty());
}

proof fn lemma_wire_of_pair(a: SocketActionView, b: SocketActionView, id: SocketId)
    ensures
        wire_of(seq![a, b], id) =~= wire_of(seq![a], id) + match b {
            SocketActionView::Write(wid, m) => if wid == id {
                seq![m]
            } else {
                Seq::<Seq<char>>::empty()
            },
            _ => Seq::<Seq<char>>::empty(),
        },
{
    assert(seq![a, b].drop_last() =~= seq![a]);
    assert(seq![a, b].last() == b);
}

/// What one step writes to the given connection's wire.
proof fn lemma_step_wire(live: Set<SocketId>, inp: SocketInputView, id: SocketId)
    ensures
        wire_of(spec_socket_step(live, inp).1, id) =~= match inp {
            SocketInputView::Request(SocketRequestView::SendMessage(sid, m)) => if sid == id
                && live.contains(id) {
                seq![m]
            } else {
                Seq::<Seq<char>>::empty()
            },
            _ => Seq::<Seq<char>>::empty(),
        },
{
    let acts = spec_socket_step(live, inp).1;
    match inp {
        SocketInputView::Connection(cid) => {
            if !live.contains(cid) {
                assert(acts =~= seq![SocketActionView::Emit(SocketEventView::NewSocket(cid))]);
                lemma_wire_of_single(SocketActionView::Emit(SocketEventView::NewSocket(cid)), id);
            } else {
                assert(wire_of(acts, id) =~= Seq::<Seq<char>>::empty());
            }
        },
        SocketInputView::Read(r) => {
            match r {
                crate::socket::ReadResultView::Line(lid, s) => {
                    if live.contains(lid) {
                        assert(acts =~= seq![
                            SocketActionView::Emit(SocketEventView::NewMessage(lid, s)),
                        ]);
                        lemma_wire_of_single(
                            SocketActionView::Emit(SocketEventView::NewMessage(lid, s)),
                            id,
                        );
                    } else {
                        assert(wire_of(acts, id) =~= Seq::<Seq<char>>::empty());
                    }
                },
                crate::socket::ReadResultView::Closed(cid) => lemma_close_wire(live, cid, id),
                crate::socket::ReadResultView::Utf8Error(cid) => lemma_close_wire(live, cid, id),
                crate::socket::ReadResultView::TooLong(cid) => lemma_close_wire(live, cid, id),
                crate::socket::ReadResultView::IoError(cid) => lemma_close_wire(live, cid, id),
            }
        },
        SocketInputView::Request(q) => {
            match q {
                SocketRequestView::SendMessage(sid, m) => {
                    if live.contains(sid) {
                        assert(acts =~= seq![SocketActionView::Write(sid, m)]);
                        lemma_wire_of_single(SocketActionView::Write(sid, m), id);
                    } else {
                        assert(wire_of(acts, id) =~= Seq::<Seq<char>>::empty());
                    }
                },
                SocketRequestView::CloseSocket(cid) => lemma_close_wire(live, cid, id),
            }
        },
        SocketInputView::WriteError(cid) => lemma_close_wire(live, cid, id),
    }
}

/// A close writes nothing.
proof fn lemma_close_wire(live: Set<SocketId>, cid: SocketId, id: SocketId)
    ensures
        wire_of(crate::socket::spec_close(live, cid).1, id) =~= Seq::<Seq<char>>::empty(),
{
    let acts = crate::socket::spec_close(live, cid).1;
    if live.contains(cid) {
        assert(acts =~= seq![
            SocketActionView::CloseWriter(cid),
            SocketActionView::Emit(SocketEventView::ClosedSocket(cid)),
        ]);
        lemma_wire_of_pair(
            SocketActionView::CloseWriter(cid),
            SocketActionView::Emit(SocketEventView::ClosedSocket(cid)),
            id,
        );
        lemma_wire_of_single(SocketActionView::CloseWriter(cid), id);
    } else {
        assert(wire_of(acts, id) =~= Seq::<Seq<char>>::empty());
    }
}

/// The sends a run accepts for one connection while it is live, in the
/// order they arrive.
pub open spec fn sent_while_live(
    live: Set<SocketId>,
    ins: Seq<SocketInputView>,
    id: SocketId,
) -> Seq<Seq<char>>
    decreases ins.len(),
{
    if ins.len() == 0 {
        Seq::empty()
    } else {
        let here = match ins[0] {
            SocketInputView::Request(SocketRequestView::SendMessage(sid, m)) => if sid == id
                && live.contains(id) {
                seq![m]
            } else {
                Seq::<Seq<char>>::empty()
            },
            _ => Seq::<Seq<char>>::empty(),
        };
        here + sent_while_live(spec_socket_step(live, ins[0]).0, ins.drop_first(), id)
    }
}

/// A connection's wire carries exactly the payloads accepted for it
/// while it was live, in the order they were requested.
pub proof fn lemma_socket_wire(live: Set<SocketId>, ins: Seq<SocketInputView>, id: SocketId)
    ensures
        wire_of(socket_run(live, ins).1, id) =~= sent_while_live(live, ins, id),
    decreases ins.len(),
{
    if ins.len() == 0 {
        assert(wire_of(socket_run(live, ins).1, id) =~= Seq::<Seq<char>>::empty());
    } else {
        let s = spec_socket_step(live, ins[0]);
        let r = socket_run(s.0, ins.drop_first());
        lemma_wire_of_add(s.1, r.1, id);
        lemma_step_wire(live, ins[0], id);
        lemma_socket_wire(s.0, ins.drop_first(), id);
    }
}

/// Whether an input asks to send the given payload to the given
/// connection.
pub open spec fn is_send(inp: SocketInputView, id: SocketId, m: Seq<char>) -> bool {
    inp == SocketInputView::Request(SocketRequestView::SendMessage(id, m))
}

/// Every send names a connection that was accepted earlier: sends come
/// from proxies, and a proxy exists only after its accept.
pub open spec fn sends_after_connection(ins: Seq<SocketInputView>) -> bool {
    forall|k: int, id: SocketId, m: Seq<char>|
        0 <= k < ins.len() && #[trigger] is_send(ins[k], id, m) ==> exists|j: int|
            0 <= j < k && is_conn(ins[j], id)
}

/// A processed accept leaves its trace: the run's events hold its
/// `NewSocket`.
proof fn lemma_conn_emits(
    live: Set<SocketId>,
    evs: Seq<SocketEventView>,
    ins: Seq<SocketInputView>,
    j: int,
    id: SocketId,
)
    requires
        socket_inv(live, evs),
        at_most_one_connection(ins),
        conn_fresh(live, evs, ins),
        0 <= j < ins.len(),
        is_conn(ins[j], id),
    ensures
        cnt_new_socket(evs + events_of(socket_run(live, ins).1), id) >= 1,
    decreases ins.len(),
{
    let inp = ins[0];
    let s = spec_socket_step(live, inp);
    let rest = ins.drop_first();
    let evs1 = evs + events_of(s.1);
    lemma_socket_step_inv(live, evs, inp);
    lemma_hyps_step(live, evs, ins);
    let r = socket_run(s.0, rest);
    lemma_events_of_add(s.1, r.1);
    assert(evs + events_of(s.1 + r.1) =~= evs1 + events_of(r.1));
    if j == 0 {
        assert(is_conn(ins[0], id));
        assert(!live.contains(id));
        assert(s.1 =~= seq![SocketActionView::Emit(SocketEventView::NewSocket(id))]);
        lemma_events_of_single(SocketActionView::Emit(SocketEventView::NewSocket(id)));
        assert(events_of(s.1) =~= seq![SocketEventView::NewSocket(id)]);
        assert(evs1 =~= evs.push(SocketEventView::NewSocket(id)));
        lemma_cnt_occ_snoc(
            evs,
            SocketEventView::NewSocket(id),
            SocketEventView::NewSocket(id),
        );
        assert(cnt_new_socket(evs1, id) >= 1);
        lemma_cnt_occ_mono(evs1, events_of(r.1), SocketEventView::NewSocket(id));
    } else {
        assert(rest[j - 1] == ins[j]);
        lemma_conn_emits(s.0, evs1, rest, j - 1, id);
    }
}

/// A step keeps the run hypotheses for the remaining inputs.
proof fn lemma_hyps_step(
    live: Set<SocketId>,
    evs: Seq<SocketEventView>,
    ins: Seq<SocketInputView>,
)
    requires
        socket_inv(live, evs),
        at_most_one_connection(ins),
        conn_fresh(live, evs, ins),
        ins.len() > 0,
    ensures
        at_most_one_connection(ins.drop_first()),
        conn_fresh(
            spec_socket_step(live, ins[0]).0,
            evs + events_of(spec_socket_step(live, ins[0]).1),
            ins.drop_first(),
        ),
        socket_inv(
            spec_socket_step(live, ins[0]).0,
            evs + events_of(spec_socket_step(live, ins[0]).1),
        ),
{
    let inp = ins[0];
    let s = spec_socket_step(live, inp);
    let rest = ins.drop_first();
    lemma_socket_step_inv(live, evs, inp);
    let evs1 = evs + events_of(s.1);
    assert(at_most_one_connection(rest)) by {
        assert forall|k1: int, k2: int, id: SocketId|
            0 <= k1 < k2 < rest.len() && #[trigger] is_conn(rest[k1], id) && #[trigger] is_conn(
                rest[k2],
                id,
            ) implies false by {
            assert(rest[k1] == ins[k1 + 1]);
            assert(rest[k2] == ins[k2 + 1]);
            assert(is_conn(ins[k1 + 1], id) && is_conn(ins[k2 + 1], id));
        }
    }
    assert(conn_fresh(s.0, evs1, rest)) by {
        assert forall|k: int, id: SocketId|
            0 <= k < rest.len() && #[trigger] is_conn(rest[k], id) implies !s.0.contains(id)
            && cnt_new_socket(evs1, id) == 0 by {
            assert(rest[k] == ins[k + 1]);
            assert(is_conn(ins[k + 1], id));
            assert(!is_conn(inp, id)) by {
                if is_conn(inp, id) {
                    assert(is_conn(ins[0], id));
                }
            }
            assert(!live.contains(id) && cnt_new_socket(evs, id) == 0) by {
                assert(is_conn(ins[k + 1], id));
            }
            lemma_step_no_new(live, inp, id);
            lemma_cnt_occ_add(evs, events_of(s.1), SocketEventView::NewSocket(id));
            assert(cnt_new_socket(evs1, id) == 0);
            if s.0.contains(id) {
                assert(socket_inv_at(s.0, evs1, id));
                assert(cnt_new_socket(evs1, id) == cnt_closed_socket(evs1, id) + 1);
                assert(false);
            }
        }
    }
}

/// A send accepted while the connection is live becomes exactly one
/// write of that payload; one that arrives after the connection is gone
/// is dropped, and the close was already reported upstream.
pub proof fn lemma_send_delivered_or_closed(
    ins: Seq<SocketInputView>,
    k: int,
    id: SocketId,
    m: Seq<char>,
)
    requires
        at_most_one_connection(ins),
        sends_after_connection(ins),
        0 <= k < ins.len(),
        is_send(ins[k], id, m),
    ensures
        ({
            let live_k = socket_run(Set::<SocketId>::empty(), ins.take(k)).0;
            let evs_k = events_of(socket_run(Set::<SocketId>::empty(), ins.take(k)).1);
            &&& live_k.contains(id) ==> spec_socket_step(live_k, ins[k]).1 =~= seq![
                SocketActionView::Write(id, m),
            ]
            &&& !live_k.contains(id) ==> exists|j: int|
                0 <= j < evs_k.len() && evs_k[j] == SocketEventView::ClosedSocket(id)
        }),
{
    let pre = ins.take(k);
    let live_k = socket_run(Set::<SocketId>::empty(), pre).0;
    let evs_k = events_of(socket_run(Set::<SocketId>::empty(), pre).1);
    assert(at_most_one_connection(pre)) by {
        assert forall|k1: int, k2: int, cid: SocketId|
            0 <= k1 < k2 < pre.len() && #[trigger] is_conn(pre[k1], cid) && #[trigger] is_conn(
                pre[k2],
                cid,
            ) implies false by {
            assert(pre[k1] == ins[k1]);
            assert(pre[k2] == ins[k2]);
            assert(is_conn(ins[k1], cid) && is_conn(ins[k2], cid));
        }
    }
    assert(conn_fresh(Set::<SocketId>::empty(), Seq::<SocketEventView>::empty(), pre));
    lemma_socket_run_inv(Set::empty(), Seq::empty(), pre);
    assert(Seq::<SocketEventView>::empty() + evs_k =~= evs_k);
    if live_k.contains(id) {
        assert(spec_socket_step(live_k, ins[k]).1 =~= seq![SocketActionView::Write(id, m)]);
    } else {
        let j = choose|j: int| 0 <= j < k && is_conn(ins[j], id);
        assert(pre[j] == ins[j]);
        lemma_conn_emits(Set::empty(), Seq::empty(), pre, j, id);
        assert(cnt_new_socket(evs_k, id) >= 1);
        assert(socket_inv_at(live_k, evs_k, id));
        assert(cnt_closed_socket(evs_k, id) >= 1);
        lemma_cnt_occ_pos(evs_k, SocketEventView::ClosedSocket(id));
    }
}


/// Whether a user event is the joining of the given user.
pub open spec fn is_new_user(e: UserEventView, id: UserId) -> bool {
    match e {
        UserEventView::NewUser(u) => u.id == id,
        _ => false,
    }
}

/// Whether a user event is the dropping of the given user.
pub open spec fn is_drop_user(e: UserEventView, id: UserId) -> bool {
    e == UserEventView::DropUser(id)
}

/// How many times the given user joined, in a trace of user events.
pub open spec fn cnt_new_user(uevs: Seq<UserEventView>, id: UserId) -> nat
    decreases uevs.len(),
{
    if uevs.len() == 0 {
        0
    } else {
        cnt_new_user(uevs.drop_last(), id) + if is_new_user(uevs.last(), id) {
            1nat
        } else {
            0nat
        }
    }
}

/// How many times the given user was dropped.
pub open spec fn cnt_drop_user(uevs: Seq<UserEventView>, id: UserId) -> nat
    decreases uevs.len(),
{
    if uevs.len() == 0 {
        0
    } else {
        cnt_drop_user(uevs.drop_last(), id) + if is_drop_user(uevs.last(), id) {
            1nat
        } else {
            0nat
        }
    }
}

proof fn lemma_cnt_nu_snoc(uevs: Seq<UserEventView>, x: UserEventView, id: UserId)
    ensures
        cnt_new_user(uevs.push(x), id) == cnt_new_user(uevs, id) + if is_new_user(x, id) {
            1nat
        } else {
            0nat
        },
{
    assert(uevs.push(x).drop_last() =~= uevs);
    assert(uevs.push(x).last() == x);
}

proof fn lemma_cnt_du_snoc(uevs: Seq<UserEventView>, x: UserEventView, id: UserId)
    ensures
        cnt_drop_user(uevs.push(x), id) == cnt_drop_user(uevs, id) + if is_drop_user(x, id) {
            1nat
        } else {
            0nat
        },
{
    assert(uevs.push(x).drop_last() =~= uevs);
    assert(uevs.push(x).last() == x);
}

proof fn lemma_cnt_nu_pos(uevs: Seq<UserEventView>, id: UserId)
    requires
        cnt_new_user(uevs, id) >= 1,
    ensures
        exists|k: int| 0 <= k < uevs.len() && is_new_user(uevs[k], id),
    decreases uevs.len(),
{
    if uevs.len() > 0 {
        if is_new_user(uevs.last(), id) {
            assert(is_new_user(uevs[uevs.len() - 1], id));
        } else {
            lemma_cnt_nu_pos(uevs.drop_last(), id);
            let k = choose|k: int| 0 <= k < uevs.len() - 1 && is_new_user(uevs.drop_last()[k], id);
            assert(is_new_user(uevs[k], id));
        }
    }
}

proof fn lemma_cnt_nu_atleast(uevs: Seq<UserEventView>, id: UserId, k: int)
    requires
        0 <= k < uevs.len(),
        is_new_user(uevs[k], id),
    ensures
        cnt_new_user(uevs, id) >= 1,
    decreases uevs.len(),
{
    if k == uevs.len() - 1 {
    } else {
        assert(is_new_user(uevs.drop_last()[k], id));
        lemma_cnt_nu_atleast(uevs.drop_last(), id, k);
    }
}

proof fn lemma_cnt_nu_two(uevs: Seq<UserEventView>, id: UserId, k1: int, k2: int)
    requires
        0 <= k1 < k2 < uevs.len(),
        is_new_user(uevs[k1], id),
        is_new_user(uevs[k2], id),
    ensures
        cnt_new_user(uevs, id) >= 2,
    decreases uevs.len(),
{
    if k2 == uevs.len() - 1 {
        assert(is_new_user(uevs.drop_last()[k1], id));
        lemma_cnt_nu_atleast(uevs.drop_last(), id, k1);
    } else {
        assert(is_new_user(uevs.drop_last()[k1], id));
        assert(is_new_user(uevs.drop_last()[k2], id));
        lemma_cnt_nu_two(uevs.drop_last(), id, k1, k2);
    }
}

/// The user events a login action sequence emits upward, in order.
pub open spec fn user_events_of(acts: Seq<LoginActionView>) -> Seq<UserEventView>
    decreases acts.len(),
{
    if acts.len() == 0 {
        Seq::empty()
    } else {
        user_events_of(acts.drop_last()) + match acts.last() {
            LoginActionView::Emit(e) => seq![e],
            _ => Seq::<UserEventView>::empty(),
        }
    }
}

pub proof fn lemma_user_events_of_add(a: Seq<LoginActionView>, b: Seq<LoginActionView>)
    ensures
        user_events_of(a + b) =~= user_events_of(a) + user_events_of(b),
    decreases b.len(),
{
    if b.len() == 0 {
        assert(a + b =~= a);
        assert(user_events_of(b) =~= Seq::<UserEventView>::empty());
    } else {
        assert((a + b).drop_last() =~= a + b.drop_last());
        assert((a + b).last() == b.last());
        lemma_user_events_of_add(a, b.drop_last());
    }
}

proof fn lemma_user_events_single(a: LoginActionView)
    ensures
        user_events_of(seq![a]) =~= match a {
            LoginActionView::Emit(e) => seq![e],
            _ => Seq::<UserEventView>::empty(),
        },
{
    assert(seq![a].drop_last() =~= Seq::<LoginActionView>::empty());
    assert(seq![a].last() == a);
    assert(user_events_of(Seq::<LoginActionView>::empty()) =~= Seq::<UserEventView>::empty());
}

proof fn lemma_user_events_pair(a: LoginActionView, b: LoginActionView)
    ensures
        user_events_of(seq![a, b]) =~= user_events_of(seq![a]) + match b {
            LoginActionView::Emit(e) => seq![e],
            _ => Seq::<UserEventView>::empty(),
        },
{
    assert(seq![a, b].drop_last() =~= seq![a]);
    assert(seq![a, b].last() == b);
}

/// A whole run of the login service over a sequence of socket events.
pub open spec fn login_run(s: LoginView, evs: Seq<SocketEventView>) -> (LoginView, Seq<
    LoginActionView,
>)
    decreases evs.len(),
{
    if evs.len() == 0 {
        (s, Seq::empty())
    } else {
        let st = spec_login_step(s, evs[0]);
        let r = login_run(st.0, evs.drop_first());
        (r.0, st.1 + r.1)
    }
}

/// The login service as it starts: no slots, no accounts.
pub open spec fn login_empty() -> LoginView {
    LoginView {
        auth: Map::<UserId, crate::login::AuthStateView>::empty(),
        accounts: Map::<Seq<char>, crate::login::LoginStateView>::empty(),
    }
}

/// Whether a socket event is the accept of the given connection.
pub open spec fn is_ns(e: SocketEventView, id: SocketId) -> bool {
    e == SocketEventView::NewSocket(id)
}

/// No connection id is reported accepted twice.
pub open spec fn at_most_one_new_socket(evs: Seq<SocketEventView>) -> bool {
    forall|k1: int, k2: int, id: SocketId|
        0 <= k1 < k2 < evs.len() && #[trigger] is_ns(evs[k1], id) && #[trigger] is_ns(
            evs[k2],
            id,
        ) ==> false
}

/// The remaining socket events accept no connection that has a slot or
/// whose user already joined.
pub open spec fn ns_fresh(s: LoginView, uevs: Seq<UserEventView>, evs: Seq<SocketEventView>) -> bool {
    forall|k: int, id: SocketId|
        0 <= k < evs.len() && #[trigger] is_ns(evs[k], id) ==> !s.auth.contains_key(id)
            && cnt_new_user(uevs, id) == 0
}

/// The per-user session shape of the login service's output: a user
/// joins at most once, is dropped only after joining and only once, and
/// is authenticated exactly between its join and its drop.
pub open spec fn login_inv_at(s: LoginView, uevs: Seq<UserEventView>, id: UserId) -> bool {
    &&& cnt_new_user(uevs, id) <= 1
    &&& (s.auth.contains_key(id) ==> if s.auth[id] is Authenticated {
        cnt_new_user(uevs, id) == 1 && cnt_drop_user(uevs, id) == 0
    } else {
        cnt_new_user(uevs, id) == 0 && cnt_drop_user(uevs, id) == 0
    })
    &&& (!s.auth.contains_key(id) ==> cnt_new_user(uevs, id) == cnt_drop_user(uevs, id))
    &&& forall|k: int|
        0 <= k < uevs.len() && #[trigger] is_drop_user(uevs[k], id) ==> exists|j: int|
            0 <= j < k && is_new_user(uevs[j], id)
}

pub open spec fn login_inv(s: LoginView, uevs: Seq<UserEventView>) -> bool {
    forall|id: UserId| #[trigger] login_inv_at(s, uevs, id)
}

/// One step of the login service preserves the session shape.
proof fn lemma_login_step_inv(s: LoginView, uevs: Seq<UserEventView>, e: SocketEventView)
    requires
        login_inv(s, uevs),
        forall|id: SocketId|
            #[trigger] is_ns(e, id) ==> !s.auth.contains_key(id) && cnt_new_user(uevs, id) == 0,
    ensures
        login_inv(spec_login_step(s, e).0, uevs + user_events_of(spec_login_step(s, e).1)),
{
    let s2 = spec_login_step(s, e).0;
    let acts = spec_login_step(s, e).1;
    let ues = user_events_of(acts);
    match e {
        SocketEventView::NewSocket(nsid) => {
            assert(acts =~= seq![crate::login::send_to(nsid, crate::login::spec_welcome_banner())]);
            lemma_user_events_single(acts[0]);
            assert(acts =~= seq![acts[0]]);
            assert(ues =~= Seq::<UserEventView>::empty());
            assert(uevs + ues =~= uevs);
            assert(is_ns(e, nsid));
            assert forall|id: UserId| #[trigger] login_inv_at(s2, uevs, id) by {
                assert(login_inv_at(s, uevs, id));
                if id == nsid {
                    assert(cnt_new_user(uevs, id) == 0);
                    assert(cnt_drop_user(uevs, id) == 0);
                } else {
                    assert(s2.auth.contains_key(id) == s.auth.contains_key(id));
                    if s.auth.contains_key(id) {
                        assert(s2.auth[id] == s.auth[id]);
                    }
                }
            }
        },
        SocketEventView::NewMessage(mid, line) => {
            if !s.auth.contains_key(mid) {
                assert(acts =~= Seq::<LoginActionView>::empty());
                assert(ues =~= Seq::<UserEventView>::empty());
                assert(uevs + ues =~= uevs);
                assert forall|id: UserId| #[trigger] login_inv_at(s2, uevs, id) by {
                    assert(login_inv_at(s, uevs, id));
                }
            } else {
                match s.auth[mid] {
                    crate::login::AuthStateView::Initial(_) => {
                        assert(acts.len() == 1 && acts[0] is ToSocket);
                        assert(acts =~= seq![acts[0]]);
                        lemma_user_events_single(acts[0]);
                        assert(ues =~= Seq::<UserEventView>::empty());
                        assert(uevs + ues =~= uevs);
                        assert(!(s2.auth[mid] is Authenticated));
                        assert forall|id: UserId| #[trigger] login_inv_at(s2, uevs, id) by {
                            assert(login_inv_at(s, uevs, id));
                            if id != mid {
                                assert(s2.auth.contains_key(id) == s.auth.contains_key(id));
                                if s.auth.contains_key(id) {
                                    assert(s2.auth[id] == s.auth[id]);
                                }
                            }
                        }
                    },
                    crate::login::AuthStateView::GotLogin(_, login) => {
                        let success = if s.accounts.contains_key(login) {
                            s.accounts[login] is Offline && line == s.accounts[login]->Offline_0
                        } else {
                            true
                        };
                        if success {
                            let u = crate::login::UserView { id: mid, login };
                            assert(acts.len() == 2 && acts[1] == LoginActionView::Emit(
                                UserEventView::NewUser(u),
                            ));
                            assert(acts =~= seq![acts[0], acts[1]]);
                            lemma_user_events_pair(acts[0], acts[1]);
                            lemma_user_events_single(acts[0]);
                            assert(acts[0] is ToSocket);
                            assert(ues =~= seq![UserEventView::NewUser(u)]);
                            let uevs2 = uevs + ues;
                            assert(uevs2 =~= uevs.push(UserEventView::NewUser(u)));
                            assert(s2.auth[mid] is Authenticated);
                            assert forall|id: UserId| #[trigger] login_inv_at(s2, uevs2, id) by {
                                assert(login_inv_at(s, uevs, id));
                                lemma_cnt_nu_snoc(uevs, UserEventView::NewUser(u), id);
                                lemma_cnt_du_snoc(uevs, UserEventView::NewUser(u), id);
                                if id == mid {
                                    assert(cnt_new_user(uevs, id) == 0);
                                    assert(is_new_user(UserEventView::NewUser(u), id));
                                } else {
                                    assert(!is_new_user(UserEventView::NewUser(u), id));
                                    assert(s2.auth.contains_key(id) == s.auth.contains_key(id));
                                    if s.auth.contains_key(id) {
                                        assert(s2.auth[id] == s.auth[id]);
                                    }
                                }
                                assert forall|k: int|
                                    0 <= k < uevs2.len() && #[trigger] is_drop_user(
                                        uevs2[k],
                                        id,
                                    ) implies exists|j: int|
                                    0 <= j < k && is_new_user(uevs2[j], id) by {
                                    assert(k < uevs.len());
                                    assert(uevs2[k] == uevs[k]);
                                    let j = choose|j: int|
                                        0 <= j < k && is_new_user(uevs[j], id);
                                    assert(is_new_user(uevs2[j], id));
                                }
                            }
                        } else {
                            assert(acts.len() == 1 && acts[0] is ToSocket);
                            assert(acts =~= seq![acts[0]]);
                            lemma_user_events_single(acts[0]);
                            assert(ues =~= Seq::<UserEventView>::empty());
                            assert(uevs + ues =~= uevs);
                            assert(!(s2.auth[mid] is Authenticated));
                            assert forall|id: UserId| #[trigger] login_inv_at(s2, uevs, id) by {
                                assert(login_inv_at(s, uevs, id));
                                if id != mid {
                                    assert(s2.auth.contains_key(id) == s.auth.contains_key(id));
                                    if s.auth.contains_key(id) {
                                        assert(s2.auth[id] == s.auth[id]);
                                    }
                                }
                            }
                        }
                    },
                    crate::login::AuthStateView::Authenticated(_) => {
                        assert(acts =~= seq![
                            LoginActionView::Emit(UserEventView::NewMessage(mid, line)),
                        ]);
                        lemma_user_events_single(acts[0]);
                        assert(ues =~= seq![UserEventView::NewMessage(mid, line)]);
                        let x = UserEventView::NewMessage(mid, line);
                        let uevs2 = uevs + ues;
                        assert(uevs2 =~= uevs.push(x));
                        assert forall|id: UserId| #[trigger] login_inv_at(s2, uevs2, id) by {
                            assert(login_inv_at(s, uevs, id));
                            lemma_cnt_nu_snoc(uevs, x, id);
                            lemma_cnt_du_snoc(uevs, x, id);
                            assert(!is_new_user(x, id) && !is_drop_user(x, id));
                            assert forall|k: int|
                                0 <= k < uevs2.len() && #[trigger] is_drop_user(
                                    uevs2[k],
                                    id,
                                ) implies exists|j: int|
                                0 <= j < k && is_new_user(uevs2[j], id) by {
                                assert(k < uevs.len());
                                assert(uevs2[k] == uevs[k]);
                                let j = choose|j: int| 0 <= j < k && is_new_user(uevs[j], id);
                                assert(is_new_user(uevs2[j], id));
                            }
                        }
                    },
                }
            }
        },
        SocketEventView::ClosedSocket(cid) => {
            if !s.auth.contains_key(cid) {
                assert(acts =~= Seq::<LoginActionView>::empty());
                assert(ues =~= Seq::<UserEventView>::empty());
                assert(uevs + ues =~= uevs);
                assert forall|id: UserId| #[trigger] login_inv_at(s2, uevs, id) by {
                    assert(login_inv_at(s, uevs, id));
                }
            } else {
                match s.auth[cid] {
                    crate::login::AuthStateView::Authenticated(_) => {
                        assert(acts =~= seq![
                            LoginActionView::Emit(UserEventView::DropUser(cid)),
                        ]);
                        lemma_user_events_single(acts[0]);
                        let x = UserEventView::DropUser(cid);
                        assert(ues =~= seq![x]);
                        let uevs2 = uevs + ues;
                        assert(uevs2 =~= uevs.push(x));
                        assert forall|id: UserId| #[trigger] login_inv_at(s2, uevs2, id) by {
                            assert(login_inv_at(s, uevs, id));
                            lemma_cnt_nu_snoc(uevs, x, id);
                            lemma_cnt_du_snoc(uevs, x, id);
                            if id == cid {
                                assert(cnt_new_user(uevs, id) == 1);
                                assert(cnt_drop_user(uevs, id) == 0);
                                assert(!s2.auth.contains_key(id));
                            } else {
                                assert(s2.auth.contains_key(id) == s.auth.contains_key(id));
                                if s.auth.contains_key(id) {
                                    assert(s2.auth[id] == s.auth[id]);
                                }
                            }
                            assert forall|k: int|
                                0 <= k < uevs2.len() && #[trigger] is_drop_user(
                                    uevs2[k],
                                    id,
                                ) implies exists|j: int|
                                0 <= j < k && is_new_user(uevs2[j], id) by {
                                if k < uevs.len() {
                                    assert(uevs2[k] == uevs[k]);
                                    let j = choose|j: int|
                                        0 <= j < k && is_new_user(uevs[j], id);
                                    assert(is_new_user(uevs2[j], id));
                                } else {
                                    assert(id == cid);
                                    assert(cnt_new_user(uevs, id) == 1);
                                    lemma_cnt_nu_pos(uevs, id);
                                    let j = choose|j: int|
                                        0 <= j < uevs.len() && is_new_user(uevs[j], id);
                                    assert(is_new_user(uevs2[j], id));
                                }
                            }
                        }
                    },
                    _ => {
                        assert(acts =~= Seq::<LoginActionView>::empty());
                        assert(ues =~= Seq::<UserEventView>::empty());
                        assert(uevs + ues =~= uevs);
                        assert forall|id: UserId| #[trigger] login_inv_at(s2, uevs, id) by {
                            assert(login_inv_at(s, uevs, id));
                            if id != cid {
                                assert(s2.auth.contains_key(id) == s.auth.contains_key(id));
                                if s.auth.contains_key(id) {
                                    assert(s2.auth[id] == s.auth[id]);
                                }
                            }
                        }
                    },
                }
            }
        },
    }
}

proof fn lemma_cnt_nu_single(x: UserEventView, id: UserId)
    ensures
        cnt_new_user(seq![x], id) == if is_new_user(x, id) {
            1nat
        } else {
            0nat
        },
{
    assert(seq![x].drop_last() =~= Seq::<UserEventView>::empty());
    assert(seq![x].last() == x);
    assert(cnt_new_user(Seq::<UserEventView>::empty(), id) == 0);
}

/// A step emits no joining of a user that has no slot.
proof fn lemma_login_step_no_foreign_nu(s: LoginView, e: SocketEventView, id: UserId)
    requires
        !s.auth.contains_key(id),
    ensures
        cnt_new_user(user_events_of(spec_login_step(s, e).1), id) == 0,
{
    let acts = spec_login_step(s, e).1;
    let ues = user_events_of(acts);
    match e {
        SocketEventView::NewSocket(nsid) => {
            assert(acts =~= seq![crate::login::send_to(nsid, crate::login::spec_welcome_banner())]);
            assert(acts =~= seq![acts[0]]);
            lemma_user_events_single(acts[0]);
            assert(ues =~= Seq::<UserEventView>::empty());
            assert(cnt_new_user(Seq::<UserEventView>::empty(), id) == 0);
        },
        SocketEventView::NewMessage(mid, line) => {
            if !s.auth.contains_key(mid) {
                assert(ues =~= Seq::<UserEventView>::empty());
                assert(cnt_new_user(Seq::<UserEventView>::empty(), id) == 0);
            } else {
                assert(mid != id);
                match s.auth[mid] {
                    crate::login::AuthStateView::Initial(_) => {
                        assert(acts =~= seq![acts[0]]);
                        lemma_user_events_single(acts[0]);
                        assert(acts[0] is ToSocket);
                        assert(ues =~= Seq::<UserEventView>::empty());
                        assert(cnt_new_user(Seq::<UserEventView>::empty(), id) == 0);
                    },
                    crate::login::AuthStateView::GotLogin(_, login) => {
                        let success = if s.accounts.contains_key(login) {
                            s.accounts[login] is Offline && line == s.accounts[login]->Offline_0
                        } else {
                            true
                        };
                        if success {
                            let u = crate::login::UserView { id: mid, login };
                            assert(acts =~= seq![acts[0], acts[1]]);
                            lemma_user_events_pair(acts[0], acts[1]);
                            lemma_user_events_single(acts[0]);
                            assert(acts[0] is ToSocket);
                            assert(ues =~= seq![UserEventView::NewUser(u)]);
                            assert(!is_new_user(UserEventView::NewUser(u), id));
                            lemma_cnt_nu_single(UserEventView::NewUser(u), id);
                        } else {
                            assert(acts =~= seq![acts[0]]);
                            lemma_user_events_single(acts[0]);
                            assert(acts[0] is ToSocket);
                            assert(ues =~= Seq::<UserEventView>::empty());
                            assert(cnt_new_user(Seq::<UserEventView>::empty(), id) == 0);
                        }
                    },
                    crate::login::AuthStateView::Authenticated(_) => {
                        assert(acts =~= seq![
                            LoginActionView::Emit(UserEventView::NewMessage(mid, line)),
                        ]);
                        lemma_user_events_single(acts[0]);
                        assert(ues =~= seq![UserEventView::NewMessage(mid, line)]);
                        lemma_cnt_nu_single(UserEventView::NewMessage(mid, line), id);
                    },
                }
            }
        },
        SocketEventView::ClosedSocket(cid) => {
            if s.auth.contains_key(cid) && s.auth[cid] is Authenticated {
                assert(acts =~= seq![LoginActionView::Emit(UserEventView::DropUser(cid))]);
                lemma_user_events_single(acts[0]);
                assert(ues =~= seq![UserEventView::DropUser(cid)]);
                lemma_cnt_nu_single(UserEventView::DropUser(cid), id);
            } else {
                assert(ues =~= Seq::<UserEventView>::empty());
                assert(cnt_new_user(Seq::<UserEventView>::empty(), id) == 0);
            }
        },
    }
}

proof fn lemma_cnt_nu_add(a: Seq<UserEventView>, b: Seq<UserEventView>, id: UserId)
    ensures
        cnt_new_user(a + b, id) == cnt_new_user(a, id) + cnt_new_user(b, id),
    decreases b.len(),
{
    if b.len() == 0 {
        assert(a + b =~= a);
    } else {
        assert((a + b).drop_last() =~= a + b.drop_last());
        assert((a + b).last() == b.last());
        lemma_cnt_nu_add(a, b.drop_last(), id);
    }
}

/// A whole run of the login service preserves the session shape.
pub proof fn lemma_login_run_inv(
    s: LoginView,
    uevs: Seq<UserEventView>,
    evs: Seq<SocketEventView>,
)
    requires
        login_inv(s, uevs),
        at_most_one_new_socket(evs),
        ns_fresh(s, uevs, evs),
    ensures
        login_inv(login_run(s, evs).0, uevs + user_events_of(login_run(s, evs).1)),
    decreases evs.len(),
{
    if evs.len() == 0 {
        assert(user_events_of(login_run(s, evs).1) =~= Seq::<UserEventView>::empty());
        assert(uevs + user_events_of(login_run(s, evs).1) =~= uevs);
    } else {
        let e = evs[0];
        let st = spec_login_step(s, e);
        let rest = evs.drop_first();
        lemma_login_step_inv(s, uevs, e);
        let uevs1 = uevs + user_events_of(st.1);
        assert(at_most_one_new_socket(rest)) by {
            assert forall|k1: int, k2: int, id: SocketId|
                0 <= k1 < k2 < rest.len() && #[trigger] is_ns(rest[k1], id) && #[trigger] is_ns(
                    rest[k2],
                    id,
                ) implies false by {
                assert(rest[k1] == evs[k1 + 1]);
                assert(rest[k2] == evs[k2 + 1]);
                assert(is_ns(evs[k1 + 1], id) && is_ns(evs[k2 + 1], id));
            }
        }
        assert(ns_fresh(st.0, uevs1, rest)) by {
            assert forall|k: int, id: SocketId|
                0 <= k < rest.len() && #[trigger] is_ns(rest[k], id) implies !st.0.auth.contains_key(
                id,
            ) && cnt_new_user(uevs1, id) == 0 by {
                assert(rest[k] == evs[k + 1]);
                assert(is_ns(evs[k + 1], id));
                assert(!is_ns(e, id)) by {
                    if is_ns(e, id) {
                        assert(is_ns(evs[0], id));
                    }
                }
                assert(!s.auth.contains_key(id) && cnt_new_user(uevs, id) == 0) by {
                    assert(is_ns(evs[k + 1], id));
                }
                lemma_login_step_no_foreign_nu(s, e, id);
                lemma_cnt_nu_add(uevs, user_events_of(st.1), id);
                assert(cnt_new_user(uevs1, id) == 0);
                // a slot for id cannot appear without its accept
                assert(!st.0.auth.contains_key(id)) by {
                    match e {
                        SocketEventView::NewSocket(nsid) => {
                            assert(nsid != id);
                        },
                        _ => {},
                    }
                }
            }
        }
        lemma_login_run_inv(st.0, uevs1, rest);
        let r = login_run(st.0, rest);
        lemma_user_events_of_add(st.1, r.1);
        assert(uevs1 + user_events_of(r.1) =~= uevs + user_events_of(st.1 + r.1));
    }
}

/// For every user dropped upstream there is exactly one preceding join
/// with the same id, and no drop names a user that never joined,
/// provided no connection id is reported accepted twice.
pub proof fn lemma_login_sessions(evs: Seq<SocketEventView>, k: int, id: UserId)
    requires
        at_most_one_new_socket(evs),
        0 <= k < user_events_of(login_run(login_empty(), evs).1).len(),
        is_drop_user(user_events_of(login_run(login_empty(), evs).1)[k], id),
    ensures
        ({
            let uevs = user_events_of(login_run(login_empty(), evs).1);
            &&& exists|j: int| 0 <= j < k && is_new_user(uevs[j], id)
            &&& forall|j1: int, j2: int|
                (0 <= j1 < uevs.len() && 0 <= j2 < uevs.len() && #[trigger] is_new_user(
                    uevs[j1],
                    id,
                ) && #[trigger] is_new_user(uevs[j2], id)) ==> j1 == j2
        }),
{
    let uevs = user_events_of(login_run(login_empty(), evs).1);
    lemma_login_run_inv(login_empty(), Seq::empty(), evs);
    assert(Seq::<UserEventView>::empty() + uevs =~= uevs);
    let sf = login_run(login_empty(), evs).0;
    assert(login_inv_at(sf, uevs, id));
    assert forall|j1: int, j2: int|
        (0 <= j1 < uevs.len() && 0 <= j2 < uevs.len() && #[trigger] is_new_user(uevs[j1], id)
            && #[trigger] is_new_user(uevs[j2], id)) implies j1 == j2 by {
        if j1 < j2 {
            lemma_cnt_nu_two(uevs, id, j1, j2);
        }
        if j2 < j1 {
            lemma_cnt_nu_two(uevs, id, j2, j1);
        }
    }
}


/// After a connection's close is processed everywhere, nothing is left
/// of it: the chat holds no participant under the id and no login maps
/// to it, the login slot is gone, and the socket writer is gone.
pub proof fn lemma_close_clears(
    c: crate::chat::ChatView,
    l: LoginView,
    live: Set<SocketId>,
    id: UserId,
    t: crate::clock::ClockTime,
)
    requires
        crate::chat::chat_view_wf(c),
    ensures
        !crate::chat::spec_chat_drop(c, id, t).0.users.contains_key(id),
        forall|lg: Seq<char>|
            #[trigger] crate::chat::spec_chat_drop(c, id, t).0.login_id.contains_key(lg)
                ==> crate::chat::spec_chat_drop(c, id, t).0.login_id[lg] != id,
        !spec_login_closed(l, id).0.auth.contains_key(id),
        !crate::socket::spec_close(live, id).0.contains(id),
{
    let c2 = crate::chat::spec_chat_drop(c, id, t).0;
    if c.users.contains_key(id) {
        let login = c.users[id].user.login;
        assert forall|lg: Seq<char>| c2.login_id.contains_key(lg) implies c2.login_id[lg]
            != id by {
            assert(c.login_id.contains_key(lg));
            if c.login_id[lg] == id {
                assert(c.users[c.login_id[lg]].user.login == lg);
                assert(lg == login);
            }
        }
    } else {
        assert forall|lg: Seq<char>| c2.login_id.contains_key(lg) implies c2.login_id[lg]
            != id by {
            assert(c.login_id.contains_key(lg));
            assert(c.users.contains_key(c.login_id[lg]));
        }
    }
}

} // verus!
