//! What every message does to a node of the token tree, whatever its state:
//! the properties of `receive_step` that the algorithm rests on.
use vstd::prelude::*;
use crate::tree::{
    marker_step, neighbor_at, receive_step, request_step, request_toward, serve_step, Action,
    NodeView, Signal,
};

verus! {

/// Whether an action sends a request toward the token (or finds no direction to send it).
pub open spec fn is_request(a: Action) -> bool {
    a is SendRequest || a is InvalidDirection
}

/// The ranks whose requests the actions serve, in order: the node itself for
/// `EnterCritical`, the receiver for `SendMarker`, the unknown rank for `InvalidRank`.
pub open spec fn served_ranks(rk: i32, acts: Seq<Action>) -> Seq<i32>
    decreases acts.len(),
{
    if acts.len() == 0 {
        Seq::empty()
    } else {
        let head = match acts[0] {
            Action::EnterCritical => seq![rk],
            Action::SendMarker { dest, to_proc: _ } => seq![dest],
            Action::InvalidRank(r) => seq![r],
            _ => Seq::empty(),
        };
        head + served_ranks(rk, acts.drop_first())
    }
}

/// Whether the node holds the token at every `EnterCritical` and every
/// `SendMarker` of `acts`, starting with `held`, where the token leaves the
/// node with each `SendMarker` and no action brings it.
pub open spec fn token_trace_ok(held: bool, acts: Seq<Action>) -> bool
    decreases acts.len(),
{
    if acts.len() == 0 {
        true
    } else {
        match acts[0] {
            Action::EnterCritical => held && token_trace_ok(held, acts.drop_first()),
            Action::SendMarker { .. } => held && token_trace_ok(false, acts.drop_first()),
            _ => token_trace_ok(held, acts.drop_first()),
        }
    }
}

/// Whether the node still holds the token after `acts`, starting with `held`.
pub open spec fn holds_after(held: bool, acts: Seq<Action>) -> bool
    decreases acts.len(),
{
    if acts.len() == 0 {
        held
    } else {
        match acts[0] {
            Action::SendMarker { .. } => holds_after(false, acts.drop_first()),
            _ => holds_after(held, acts.drop_first()),
        }
    }
}

/// The requests that the node had to handle: its queue, and the sender of a request.
pub open spec fn pending_after_arrival(s: NodeView, signal: Signal, sender: i32) -> Seq<i32> {
    match signal {
        Signal::Marker => s.queue,
        Signal::Request => s.queue.push(sender),
    }
}

/// Whether the node may use the token while handling the message: it held
/// it, or the message is the token.
pub open spec fn holds_on_arrival(s: NodeView, signal: Signal) -> bool {
    s.marker || signal is Marker
}

/// The place of the node in the tree never changes.
pub open spec fn keeps_shape(before: NodeView, after: NodeView) -> bool {
    &&& after.rk == before.rk
    &&& after.root == before.root
    &&& after.left == before.left
    &&& after.right == before.right
}

/// A node that keeps the token has no request waiting.
pub open spec fn holder_has_no_pending(after: NodeView) -> bool {
    after.marker ==> after.queue.len() == 0
}

/// A node left with waiting requests has sent its last word toward the token:
/// it does not hold it, and the last action asks in the direction of `to_proc`.
pub open spec fn pending_are_forwarded(after: NodeView, acts: Seq<Action>) -> bool {
    after.queue.len() > 0 ==> {
        &&& !after.marker
        &&& acts.len() > 0
        &&& acts.last() == request_toward(after)
    }
}

/// At most one request goes out, and only as the last action.
pub open spec fn request_only_last(acts: Seq<Action>) -> bool {
    forall|i: int| 0 <= i < acts.len() - 1 ==> !is_request(#[trigger] acts[i])
}

/// After the token is handed on, `to_proc` points at the neighbour that got it.
pub open spec fn pointer_follows_token(after: NodeView, acts: Seq<Action>) -> bool {
    forall|i: int|
        0 <= i < acts.len() ==> (#[trigger] acts[i] matches Action::SendMarker { dest, to_proc }
            ==> after.to_proc == to_proc && neighbor_at(after, to_proc) == Some(dest))
}

/// The token is used only while held, handed on at most once, and never made:
/// the node keeps it at the end only if no `SendMarker` sent it away.
pub open spec fn token_conserved(held: bool, after: NodeView, acts: Seq<Action>) -> bool {
    &&& token_trace_ok(held, acts)
    &&& after.marker ==> holds_after(held, acts)
}

/// Requests leave the queue from its back, each exactly once: the queue left
/// over is a prefix of the pending requests, and the requests served are the
/// rest, last first.
pub open spec fn served_lifo(pending: Seq<i32>, rk: i32, after: NodeView, acts: Seq<Action>) -> bool {
    let k = after.queue.len();
    let served = served_ranks(rk, acts);
    &&& k <= pending.len()
    &&& after.queue == pending.subrange(0, k as int)
    &&& served.len() == pending.len() - k
    &&& forall|i: int| 0 <= i < served.len() ==> #[trigger] served[i] == pending[pending.len() - 1 - i]
}

/// Whether `r` is this node or one of its neighbours in the tree.
pub open spec fn is_self_or_neighbor(s: NodeView, r: i32) -> bool {
    r == s.rk || r == s.root || r == s.left || r == s.right
}

/// An unknown rank is reported only for a process that is neither this node
/// nor one of its neighbours: a request from a neighbour is always served.
pub open spec fn invalid_only_for_strangers(s: NodeView, acts: Seq<Action>) -> bool {
    forall|i: int|
        0 <= i < acts.len() ==> (#[trigger] acts[i] matches Action::InvalidRank(r)
            ==> !is_self_or_neighbor(s, r))
}

/// Whether some action hands the token on.
pub open spec fn hands_token_on(acts: Seq<Action>) -> bool {
    exists|i: int| 0 <= i < acts.len() && #[trigger] acts[i] is SendMarker
}

/// The token pointer moves only when the token is handed on.
pub open spec fn pointer_moves_only_with_token(
    before: NodeView,
    after: NodeView,
    acts: Seq<Action>,
) -> bool {
    after.to_proc == before.to_proc || hands_token_on(acts)
}

/// A node that holds the token still holds it afterwards or has handed it on.
pub open spec fn holder_keeps_or_hands_on(
    before: NodeView,
    after: NodeView,
    acts: Seq<Action>,
) -> bool {
    before.marker ==> after.marker || hands_token_on(acts)
}

/// All the properties above, for one step from `s` that had `pending`
/// requests to handle and started with `held`.
pub open spec fn step_laws(
    s: NodeView,
    pending: Seq<i32>,
    held: bool,
    r: (NodeView, Seq<Action>),
) -> bool {
    &&& keeps_shape(s, r.0)
    &&& holder_has_no_pending(r.0)
    &&& pending_are_forwarded(r.0, r.1)
    &&& request_only_last(r.1)
    &&& pointer_follows_token(r.0, r.1)
    &&& token_conserved(held, r.0, r.1)
    &&& served_lifo(pending, s.rk, r.0, r.1)
    &&& invalid_only_for_strangers(s, r.1)
    &&& pointer_moves_only_with_token(s, r.0, r.1)
    &&& holder_keeps_or_hands_on(s, r.0, r.1)
}

/// How many times the actions hand the token on.
pub open spec fn marker_sends(acts: Seq<Action>) -> nat
    decreases acts.len(),
{
    if acts.len() == 0 {
        0
    } else {
        (if acts[0] is SendMarker {
            1nat
        } else {
            0nat
        }) + marker_sends(acts.drop_first())
    }
}

/// A trace that uses the token only while held hands it on at most once, and
/// not at all where the token was not held to begin with; a node that still
/// holds the token after the actions held it before and handed nothing on.
pub proof fn lemma_token_counts(held: bool, acts: Seq<Action>)
    ensures
        token_trace_ok(held, acts) ==> marker_sends(acts) <= (if held {
            1nat
        } else {
            0nat
        }),
        holds_after(held, acts) ==> held && marker_sends(acts) == 0,
    decreases acts.len(),
{
    if acts.len() > 0 {
        lemma_token_counts(held, acts.drop_first());
        lemma_token_counts(false, acts.drop_first());
    }
}

proof fn lemma_served_concat(rk: i32, a: Seq<Action>, b: Seq<Action>)
    ensures
        served_ranks(rk, a + b) == served_ranks(rk, a) + served_ranks(rk, b),
    decreases a.len(),
{
    if a.len() == 0 {
        assert(a + b =~= b);
        assert(served_ranks(rk, a) + served_ranks(rk, b) =~= served_ranks(rk, b));
    } else {
        assert((a + b).drop_first() =~= a.drop_first() + b);
        lemma_served_concat(rk, a.drop_first(), b);
        assert((a + b)[0] == a[0]);
    }
}

proof fn lemma_token_concat(held: bool, a: Seq<Action>, b: Seq<Action>)
    ensures
        token_trace_ok(held, a + b) == (token_trace_ok(held, a) && token_trace_ok(
            holds_after(held, a),
            b,
        )),
        holds_after(held, a + b) == holds_after(holds_after(held, a), b),
    decreases a.len(),
{
    if a.len() == 0 {
        assert(a + b =~= b);
    } else {
        assert((a + b).drop_first() =~= a.drop_first() + b);
        assert((a + b)[0] == a[0]);
        match a[0] {
            Action::SendMarker { .. } => lemma_token_concat(false, a.drop_first(), b),
            _ => lemma_token_concat(held, a.drop_first(), b),
        }
    }
}

proof fn lemma_single(rk: i32, held: bool, x: Action)
    ensures
        served_ranks(rk, seq![x]) == match x {
            Action::EnterCritical => seq![rk],
            Action::SendMarker { dest, to_proc: _ } => seq![dest],
            Action::InvalidRank(r) => seq![r],
            _ => Seq::<i32>::empty(),
        },
        token_trace_ok(held, seq![x]) == match x {
            Action::EnterCritical => held,
            Action::SendMarker { .. } => held,
            _ => true,
        },
        holds_after(held, seq![x]) == match x {
            Action::SendMarker { .. } => false,
            _ => held,
        },
{
    let s = seq![x];
    assert(s.drop_first() =~= Seq::<Action>::empty());
    assert(served_ranks(rk, s.drop_first()) == Seq::<i32>::empty());
    assert(token_trace_ok(true, s.drop_first()) && token_trace_ok(false, s.drop_first()));
    assert(holds_after(true, s.drop_first()) && !holds_after(false, s.drop_first()));
    match x {
        Action::EnterCritical => assert(seq![rk] + Seq::<i32>::empty() =~= seq![rk]),
        Action::SendMarker { dest, to_proc: _ } => assert(seq![dest] + Seq::<i32>::empty()
            =~= seq![dest]),
        Action::InvalidRank(r) => assert(seq![r] + Seq::<i32>::empty() =~= seq![r]),
        _ => assert(Seq::<i32>::empty() + Seq::<i32>::empty() =~= Seq::<i32>::empty()),
    }
}

proof fn lemma_marker_laws(s: NodeView)
    ensures
        step_laws(s, s.queue, true, marker_step(s)),
    decreases 2 * s.queue.len(),
{
    let r = marker_step(s);
    if s.queue.len() == 0 {
        assert(served_ranks(s.rk, r.1) =~= Seq::<i32>::empty());
        assert(s.queue.subrange(0, 0) =~= s.queue);
    } else {
        let first = s.queue.last();
        let s1 = NodeView { queue: s.queue.drop_last(), ..s };
        let served = serve_step(s1, first);
        let s2 = served.0;
        let x = served.1[0];
        assert(served.1 =~= seq![x]);
        lemma_single(s.rk, true, x);
        if s2.queue.len() == 0 {
            assert(served_ranks(s.rk, r.1) =~= seq![first]);
            assert(s2.queue =~= s.queue.subrange(0, 0));
        } else {
            let top = s2.queue.last();
            let s3 = NodeView { queue: s2.queue.drop_last(), ..s2 };
            let held2 = holds_after(true, served.1);
            assert(s3.marker ==> held2);
            lemma_request_laws(s3, top, held2);
            let rest = request_step(s3, top);
            let ext = s3.queue.push(top);
            assert(ext =~= s.queue.drop_last());
            assert(r.0 == rest.0);
            assert(r.1 == served.1 + rest.1);
            lemma_served_concat(s.rk, served.1, rest.1);
            lemma_token_concat(true, served.1, rest.1);
            let sv = served_ranks(s.rk, r.1);
            let sv2 = served_ranks(s.rk, rest.1);
            assert(sv =~= seq![first] + sv2);
            assert forall|i: int| 0 <= i < sv.len() implies #[trigger] sv[i] == s.queue[s.queue.len()
                - 1 - i] by {
                if i > 0 {
                    assert(sv[i] == sv2[i - 1]);
                }
            }
            assert(r.0.queue =~= s.queue.subrange(0, r.0.queue.len() as int));
            assert forall|i: int| 0 <= i < r.1.len() - 1 implies !is_request(#[trigger] r.1[i]) by {
                if i > 0 {
                    assert(r.1[i] == rest.1[i - 1]);
                }
            }
            assert forall|i: int| 0 <= i < r.1.len() implies (#[trigger] r.1[i] matches Action::SendMarker {
                dest,
                to_proc,
            } ==> r.0.to_proc == to_proc && neighbor_at(r.0, to_proc) == Some(dest)) by {
                if i > 0 {
                    assert(r.1[i] == rest.1[i - 1]);
                } else {
                    if x is SendMarker {
                        assert(!s3.marker);
                    }
                }
            }
            if r.1.len() > 0 && rest.1.len() > 0 {
                assert(r.1.last() == rest.1.last());
            }
            assert forall|i: int| 0 <= i < r.1.len() implies (#[trigger] r.1[i] matches Action::InvalidRank(
                q,
            ) ==> !is_self_or_neighbor(s, q)) by {
                if i > 0 {
                    assert(r.1[i] == rest.1[i - 1]);
                }
            }
            if hands_token_on(rest.1) {
                let j = choose|j: int| 0 <= j < rest.1.len() && #[trigger] rest.1[j] is SendMarker;
                assert(r.1[j + 1] == rest.1[j]);
            }
            if x is SendMarker {
                assert(r.1[0] is SendMarker);
            }
        }
    }
}

proof fn lemma_request_laws(s: NodeView, sender: i32, held: bool)
    requires
        s.marker ==> held,
    ensures
        step_laws(s, s.queue.push(sender), held, request_step(s, sender)),
    decreases 2 * s.queue.len() + 3,
{
    let s1 = NodeView { queue: s.queue.push(sender), ..s };
    let r = request_step(s, sender);
    if s1.marker {
        lemma_marker_laws(s1);
    } else {
        let x = request_toward(s1);
        assert(r.1 =~= seq![x]);
        lemma_single(s.rk, held, x);
        assert(served_ranks(s.rk, r.1) =~= Seq::<i32>::empty());
        assert(s1.queue =~= s1.queue.subrange(0, s1.queue.len() as int));
    }
}

/// Every message, in every state of a node, obeys the laws of the token tree:
/// the node keeps its place in the tree; a node left with the token has no
/// pending request; a node left with pending requests does not hold the token
/// and has just asked toward it; at most one request goes out, as the last
/// action; after handing the token on, `to_proc` points at its receiver; the
/// token is used only while held, handed on at most once and never made; and
/// requests are served from the back of the queue, each exactly once.
pub proof fn law_receive(s: NodeView, signal: Signal, sender: i32)
    ensures
        step_laws(
            s,
            pending_after_arrival(s, signal, sender),
            holds_on_arrival(s, signal),
            receive_step(s, signal, sender),
        ),
{
    match signal {
        Signal::Marker => lemma_marker_laws(s),
        Signal::Request => lemma_request_laws(s, sender, s.marker),
    }
}

/// A request that reaches a node without the token is queued, and the node
/// asks, with one message, the neighbour that its pointer names; the
/// pointer, the token flag and the tree links stay as they were.
pub proof fn law_request_without_token(s: NodeView, sender: i32)
    requires
        !s.marker,
    ensures
        ({
            let r = receive_step(s, Signal::Request, sender);
            &&& r.0.queue == s.queue.push(sender)
            &&& r.0.to_proc == s.to_proc
            &&& !r.0.marker
            &&& keeps_shape(s, r.0)
            &&& r.1.len() == 1
            &&& r.1[0] == match neighbor_at(s, s.to_proc) {
                Some(d) => Action::SendRequest { dest: d, to_proc: s.to_proc },
                None => Action::InvalidDirection(s.to_proc),
            }
        }),
{
}

/// A node that may use the token (it holds it, or the message is the token)
/// first serves the newest pending request: it enters the critical section
/// for its own, hands the token to the neighbour that asked and names it by
/// the direction it sends along, and reports only a process that is neither
/// itself nor a neighbour. When the newest request is its own or a
/// neighbour's, the token is not lost: the node holds it afterwards or has
/// handed it on.
pub proof fn law_token_serves_newest(s: NodeView, signal: Signal, sender: i32)
    requires
        holds_on_arrival(s, signal),
        pending_after_arrival(s, signal, sender).len() > 0,
    ensures
        ({
            let r = receive_step(s, signal, sender);
            let q = pending_after_arrival(s, signal, sender).last();
            &&& r.1.len() > 0
            &&& q == s.rk ==> r.1[0] == Action::EnterCritical
            &&& (q != s.rk && (q == s.root || q == s.left || q == s.right)) ==> (
            r.1[0] matches Action::SendMarker { dest, to_proc } && dest == q && neighbor_at(
                s,
                to_proc,
            ) == Some(q))
            &&& !is_self_or_neighbor(s, q) ==> r.1[0] == Action::InvalidRank(q)
            &&& is_self_or_neighbor(s, q) ==> r.0.marker || hands_token_on(r.1)
        }),
{
    let t = match signal {
        Signal::Marker => s,
        Signal::Request => NodeView { queue: s.queue.push(sender), ..s },
    };
    assert(receive_step(s, signal, sender) == marker_step(t));
    let r = marker_step(t);
    let q = t.queue.last();
    let t1 = NodeView { queue: t.queue.drop_last(), ..t };
    let served = serve_step(t1, q);
    let s2 = served.0;
    if s2.queue.len() == 0 {
        assert(r == served);
    } else {
        let top = s2.queue.last();
        let s3 = NodeView { queue: s2.queue.drop_last(), ..s2 };
        let rest = request_step(s3, top);
        assert(r.1 == served.1 + rest.1);
        assert(r.1[0] == served.1[0]);
        lemma_request_laws(s3, top, s3.marker);
        if q == s.rk {
            assert(s3.marker);
            if !rest.0.marker {
                let j = choose|j: int| 0 <= j < rest.1.len() && #[trigger] rest.1[j] is SendMarker;
                assert(r.1[j + 1] == rest.1[j]);
            }
        }
    }
    if is_self_or_neighbor(s, q) && q != s.rk {
        assert(r.1[0] is SendMarker);
    }
}

/// A token holder with nothing queued that gets a request from a neighbour
/// hands the token straight to it: one `SendMarker` to the requester, in the
/// direction that names it, the pointer turned that way, the token gone and
/// the queue empty.
pub proof fn law_holder_hands_token_to_requester(s: NodeView, sender: i32)
    requires
        s.marker,
        s.queue.len() == 0,
        sender != s.rk,
        sender == s.root || sender == s.left || sender == s.right,
    ensures
        ({
            let r = receive_step(s, Signal::Request, sender);
            &&& r.1.len() == 1
            &&& r.1[0] matches Action::SendMarker { dest, to_proc } && dest == sender && r.0.to_proc
                == to_proc && neighbor_at(s, to_proc) == Some(sender)
            &&& !r.0.marker
            &&& r.0.queue.len() == 0
        }),
{
    let s1 = NodeView { queue: s.queue.push(sender), ..s };
    assert(s1.queue.drop_last() =~= Seq::<i32>::empty());
    assert(s1.queue.last() == sender);
}

/// The direction codes name the neighbours: `TO_PARENT` the parent,
/// `TO_LEFT` the left child, `TO_RIGHT` the right child; no other code names
/// one.
pub proof fn law_direction_codes(s: NodeView, dir: i32)
    ensures
        dir == 0 ==> neighbor_at(s, dir) == Some(s.root),
        dir == 1 ==> neighbor_at(s, dir) == Some(s.left),
        dir == 2 ==> neighbor_at(s, dir) == Some(s.right),
        !(0 <= dir <= 2) ==> neighbor_at(s, dir) is None,
{
}

/// A token that reaches a node with no request queued changes nothing and
/// causes nothing.
pub proof fn law_token_with_nothing_to_serve(s: NodeView, sender: i32)
    requires
        s.queue.len() == 0,
    ensures
        receive_step(s, Signal::Marker, sender).0 == s,
        receive_step(s, Signal::Marker, sender).1.len() == 0,
{
}

} // verus!
