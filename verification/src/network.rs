//! The whole tree as a system: the nodes, indexed by rank, and the messages
//! in flight between them. Delivering a message runs `receive_step` at its
//! destination and puts the node's outgoing messages in flight.
use vstd::prelude::*;
use crate::tree::{receive_step, Action, NodeView, Signal};
use crate::tree_laws::{
    holds_after, holds_on_arrival, law_receive, lemma_token_counts, marker_sends, token_trace_ok,
};

verus! {

/// A message in flight: `signal` from rank `from` to rank `to`.
pub struct Message {
    pub to: i32,
    pub signal: Signal,
    pub from: i32,
}

/// The messages that node `from` sends by its actions, in order.
pub open spec fn outgoing(from: i32, acts: Seq<Action>) -> Seq<Message>
    decreases acts.len(),
{
    if acts.len() == 0 {
        Seq::empty()
    } else {
        let head = match acts[0] {
            Action::SendMarker { dest, to_proc: _ } => seq![
                Message { to: dest, signal: Signal::Marker, from },
            ],
            Action::SendRequest { dest, to_proc: _ } => seq![
                Message { to: dest, signal: Signal::Request, from },
            ],
            _ => Seq::empty(),
        };
        head + outgoing(from, acts.drop_first())
    }
}

/// How many nodes hold the token.
pub open spec fn holders(nodes: Seq<NodeView>) -> nat
    decreases nodes.len(),
{
    if nodes.len() == 0 {
        0
    } else {
        (if nodes.last().marker {
            1nat
        } else {
            0nat
        }) + holders(nodes.drop_last())
    }
}

/// How many tokens are on their way.
pub open spec fn tokens_in_flight(msgs: Seq<Message>) -> nat
    decreases msgs.len(),
{
    if msgs.len() == 0 {
        0
    } else {
        (if msgs.last().signal is Marker {
            1nat
        } else {
            0nat
        }) + tokens_in_flight(msgs.drop_last())
    }
}

/// All the tokens of the system: held, and in flight.
pub open spec fn token_count(nodes: Seq<NodeView>, msgs: Seq<Message>) -> nat {
    holders(nodes) + tokens_in_flight(msgs)
}

/// The system after message `i` is delivered to its destination.
pub open spec fn deliver(nodes: Seq<NodeView>, msgs: Seq<Message>, i: int) -> (
    Seq<NodeView>,
    Seq<Message>,
) {
    let m = msgs[i];
    let r = receive_step(nodes[m.to as int], m.signal, m.from);
    (nodes.update(m.to as int, r.0), msgs.remove(i) + outgoing(m.to, r.1))
}

proof fn lemma_holders_update(nodes: Seq<NodeView>, d: int, x: NodeView)
    requires
        0 <= d < nodes.len(),
    ensures
        holders(nodes.update(d, x)) + (if nodes[d].marker {
            1nat
        } else {
            0nat
        }) == holders(nodes) + (if x.marker {
            1nat
        } else {
            0nat
        }),
    decreases nodes.len(),
{
    let u = nodes.update(d, x);
    if d == nodes.len() - 1 {
        assert(u.drop_last() =~= nodes.drop_last());
    } else {
        assert(u.drop_last() =~= nodes.drop_last().update(d, x));
        lemma_holders_update(nodes.drop_last(), d, x);
    }
}

proof fn lemma_in_flight_concat(a: Seq<Message>, b: Seq<Message>)
    ensures
        tokens_in_flight(a + b) == tokens_in_flight(a) + tokens_in_flight(b),
    decreases b.len(),
{
    if b.len() == 0 {
        assert(a + b =~= a);
    } else {
        assert((a + b).drop_last() =~= a + b.drop_last());
        lemma_in_flight_concat(a, b.drop_last());
    }
}

proof fn lemma_in_flight_single(x: Message)
    ensures
        tokens_in_flight(seq![x]) == (if x.signal is Marker {
            1nat
        } else {
            0nat
        }),
{
    assert(seq![x].drop_last() =~= Seq::<Message>::empty());
    assert(tokens_in_flight(Seq::<Message>::empty()) == 0);
}

proof fn lemma_in_flight_remove(msgs: Seq<Message>, i: int)
    requires
        0 <= i < msgs.len(),
    ensures
        tokens_in_flight(msgs.remove(i)) + (if msgs[i].signal is Marker {
            1nat
        } else {
            0nat
        }) == tokens_in_flight(msgs),
{
    let pre = msgs.subrange(0, i);
    let post = msgs.subrange(i + 1, msgs.len() as int);
    assert(msgs.remove(i) =~= pre + post);
    assert(msgs =~= (pre + seq![msgs[i]]) + post);
    lemma_in_flight_concat(pre, post);
    lemma_in_flight_concat(pre + seq![msgs[i]], post);
    lemma_in_flight_concat(pre, seq![msgs[i]]);
    lemma_in_flight_single(msgs[i]);
}

proof fn lemma_outgoing_tokens(from: i32, acts: Seq<Action>)
    ensures
        tokens_in_flight(outgoing(from, acts)) == marker_sends(acts),
    decreases acts.len(),
{
    if acts.len() > 0 {
        lemma_outgoing_tokens(from, acts.drop_first());
        let head = match acts[0] {
            Action::SendMarker { dest, to_proc: _ } => seq![
                Message { to: dest, signal: Signal::Marker, from },
            ],
            Action::SendRequest { dest, to_proc: _ } => seq![
                Message { to: dest, signal: Signal::Request, from },
            ],
            _ => Seq::<Message>::empty(),
        };
        lemma_in_flight_concat(head, outgoing(from, acts.drop_first()));
        if head.len() == 1 {
            lemma_in_flight_single(head[0]);
            assert(head =~= seq![head[0]]);
        } else {
            assert(tokens_in_flight(head) == 0);
        }
    }
}

/// Tokens are never made: delivering any message in flight, in any state of
/// the system, leaves at most as many tokens (held or in flight) as before.
/// So a system that starts with one token never has two, and since a node
/// enters the critical section only while it holds the token, no two nodes
/// are ever in it on the strength of different tokens.
pub proof fn law_tokens_never_multiply(nodes: Seq<NodeView>, msgs: Seq<Message>, i: int)
    requires
        0 <= i < msgs.len(),
        0 <= msgs[i].to < nodes.len(),
    ensures
        ({
            let next = deliver(nodes, msgs, i);
            token_count(next.0, next.1) <= token_count(nodes, msgs)
        }),
{
    let m = msgs[i];
    let d = m.to as int;
    let s = nodes[d];
    let r = receive_step(s, m.signal, m.from);
    let held = holds_on_arrival(s, m.signal);
    law_receive(s, m.signal, m.from);
    lemma_token_counts(held, r.1);
    lemma_holders_update(nodes, d, r.0);
    lemma_in_flight_remove(msgs, i);
    lemma_in_flight_concat(msgs.remove(i), outgoing(m.to, r.1));
    lemma_outgoing_tokens(m.to, r.1);
    assert(token_trace_ok(held, r.1));
    assert(r.0.marker ==> holds_after(held, r.1));
}

} // verus!
