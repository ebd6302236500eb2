//! One node of the process tree of Raymond's token algorithm for mutual
//! exclusion: its state, and what it does when a message arrives.
use vstd::prelude::*;
use crate::tree_laws::{
    holder_has_no_pending, holder_keeps_or_hands_on, holds_on_arrival, invalid_only_for_strangers,
    keeps_shape, law_receive, law_request_without_token, pending_after_arrival,
    pending_are_forwarded, pointer_follows_token, pointer_moves_only_with_token, request_only_last,
    served_lifo, token_conserved,
};

verus! {

/// Direction code of the token pointer: the token lies toward the parent.
pub const TO_PARENT: i32 = 0;

/// Direction code of the token pointer: the token lies in the left subtree.
pub const TO_LEFT: i32 = 1;

/// Direction code of the token pointer: the token lies in the right subtree.
pub const TO_RIGHT: i32 = 2;

/// The two kinds of message of the protocol.
/// - `Marker`: the token (the right to enter the critical section) arrives;
/// - `Request`: a process asks for the token.
#[derive(Clone, Copy, Debug, PartialEq, Eq, Structural)]
pub enum Signal {
    Marker,
    Request,
}

/// What a node asks its environment to do, in order, after a message.
#[derive(Clone, Copy, Debug, PartialEq, Eq, Structural)]
pub enum Action {
    /// The node itself holds the token and enters the critical section.
    EnterCritical,
    /// Send the token to the neighbour `dest`, which lies in direction `to_proc`.
    SendMarker { dest: i32, to_proc: i32 },
    /// Send a request to the neighbour `dest`, which lies in direction `to_proc`.
    SendRequest { dest: i32, to_proc: i32 },
    /// The request taken from the queue names no process next to this node.
    InvalidRank(i32),
    /// The token pointer holds no valid direction code.
    InvalidDirection(i32),
}

/// The mathematical state of a node: its request queue (served from the back)
/// and its place in the tree.
pub struct NodeView {
    pub queue: Seq<i32>,
    pub rk: i32,
    pub root: i32,
    pub left: i32,
    pub right: i32,
    pub to_proc: i32,
    pub marker: bool,
}

/// One element of the process tree.
/// - `queue`: pending requests; the last one is served first;
/// - `rk`: this process's rank;
/// - `root`, `left`, `right`: ranks of the parent and of the children (-1 where none);
/// - `to_proc`: direction of the token (`TO_PARENT`, `TO_LEFT` or `TO_RIGHT`);
/// - `marker`: whether this process holds the token.
#[derive(Debug)]
pub struct ProcTree {
    pub queue: Vec<i32>,
    pub rk: i32,
    pub root: i32,
    pub left: i32,
    pub right: i32,
    pub to_proc: i32,
    pub marker: bool,
}

impl View for ProcTree {
    type V = NodeView;

    open spec fn view(&self) -> NodeView {
        NodeView {
            queue: self.queue@,
            rk: self.rk,
            root: self.root,
            left: self.left,
            right: self.right,
            to_proc: self.to_proc,
            marker: self.marker,
        }
    }
}

/// The neighbour that lies in direction `dir`, if `dir` is a direction code.
pub open spec fn neighbor_at(s: NodeView, dir: i32) -> Option<i32> {
    if dir == TO_PARENT {
        Some(s.root)
    } else if dir == TO_LEFT {
        Some(s.left)
    } else if dir == TO_RIGHT {
        Some(s.right)
    } else {
        None
    }
}

/// The request that a node without the token sends toward it.
pub open spec fn request_toward(s: NodeView) -> Action {
    match neighbor_at(s, s.to_proc) {
        Some(dest) => Action::SendRequest { dest, to_proc: s.to_proc },
        None => Action::InvalidDirection(s.to_proc),
    }
}

/// Serving the request of `first` with the token in hand: enter the critical
/// section if `first` is this node, else hand the token to that neighbour and
/// point toward it.
pub open spec fn serve_step(s: NodeView, first: i32) -> (NodeView, Seq<Action>) {
    if first == s.rk {
        (NodeView { marker: true, ..s }, seq![Action::EnterCritical])
    } else if first == s.root {
        (
            NodeView { marker: false, to_proc: TO_PARENT, ..s },
            seq![Action::SendMarker { dest: first, to_proc: TO_PARENT }],
        )
    } else if first == s.left {
        (
            NodeView { marker: false, to_proc: TO_LEFT, ..s },
            seq![Action::SendMarker { dest: first, to_proc: TO_LEFT }],
        )
    } else if first == s.right {
        (
            NodeView { marker: false, to_proc: TO_RIGHT, ..s },
            seq![Action::SendMarker { dest: first, to_proc: TO_RIGHT }],
        )
    } else {
        (s, seq![Action::InvalidRank(first)])
    }
}

/// The token arrives: serve the last queued request, then, if requests
/// remain, take the next one off the queue and handle it as a new request.
pub open spec fn marker_step(s: NodeView) -> (NodeView, Seq<Action>)
    decreases 2 * s.queue.len(),
{
    if s.queue.len() == 0 {
        (s, Seq::empty())
    } else {
        let first = s.queue.last();
        let served = serve_step(NodeView { queue: s.queue.drop_last(), ..s }, first);
        let s2 = served.0;
        if s2.queue.len() == 0 {
            served
        } else {
            let top = s2.queue.last();
            let rest = request_step(NodeView { queue: s2.queue.drop_last(), ..s2 }, top);
            (rest.0, served.1 + rest.1)
        }
    }
}

/// A request from `sender` arrives: queue it; with the token in hand handle it
/// as if the token had just arrived, else ask toward the token.
pub open spec fn request_step(s: NodeView, sender: i32) -> (NodeView, Seq<Action>)
    decreases 2 * s.queue.len() + 3,
{
    let s1 = NodeView { queue: s.queue.push(sender), ..s };
    if s1.marker {
        marker_step(s1)
    } else {
        (s1, seq![request_toward(s1)])
    }
}

/// The state after a message and the actions it causes, in order.
pub open spec fn receive_step(s: NodeView, signal: Signal, sender: i32) -> (
    NodeView,
    Seq<Action>,
) {
    match signal {
        Signal::Marker => marker_step(s),
        Signal::Request => request_step(s, sender),
    }
}

/// The measure that decreases along the recursion of `receive`.
pub open spec fn receive_measure(s: NodeView, signal: Signal) -> int {
    match signal {
        Signal::Marker => 2 * s.queue.len() as int,
        Signal::Request => 2 * s.queue.len() as int + 3,
    }
}

impl ProcTree {
    /// The rank of the neighbour in the direction of the token, or `None`
    /// where `to_proc` is no direction code.
    pub fn marker_neighbor(&self) -> (n: Option<i32>)
        ensures
            n == neighbor_at(self@, self.to_proc),
    {
        match self.to_proc {
            0 => Some(self.root),
            1 => Some(self.left),
            2 => Some(self.right),
            _ => None,
        }
    }

    fn serve(&mut self, first: i32) -> (actions: Vec<Action>)
        ensures
            (final(self)@, actions@) == serve_step(old(self)@, first),
    {
        let mut actions: Vec<Action> = Vec::new();
        if self.rk == first {
            self.marker = true;
            actions.push(Action::EnterCritical);
        } else if self.root == first {
            self.marker = false;
            self.to_proc = TO_PARENT;
            actions.push(Action::SendMarker { dest: first, to_proc: TO_PARENT });
        } else if self.left == first {
            self.marker = false;
            self.to_proc = TO_LEFT;
            actions.push(Action::SendMarker { dest: first, to_proc: TO_LEFT });
        } else if self.right == first {
            self.marker = false;
            self.to_proc = TO_RIGHT;
            actions.push(Action::SendMarker { dest: first, to_proc: TO_RIGHT });
        } else {
            actions.push(Action::InvalidRank(first));
        }
        proof {
            assert(actions@ == serve_step(old(self)@, first).1);
        }
        actions
    }

    /// Handles one message and returns what is to be done, in order.
    /// - `Marker`: take the last request off the queue; if it is this node's
    ///   own, enter the critical section, else send the token to the
    ///   neighbour that asked and point `to_proc` toward it; then, if the
    ///   queue is not empty, take the next request off it and handle it as a
    ///   new `Request`.
    /// - `Request`: queue `sender`; with the token in hand handle a `Marker`,
    ///   else send a request toward the token.
    pub fn receive(&mut self, signal: Signal, sender: i32) -> (actions: Vec<Action>)
        ensures
            (final(self)@, actions@) == receive_step(old(self)@, signal, sender),
            keeps_shape(old(self)@, final(self)@),
            holder_has_no_pending(final(self)@),
            pending_are_forwarded(final(self)@, actions@),
            request_only_last(actions@),
            pointer_follows_token(final(self)@, actions@),
            token_conserved(holds_on_arrival(old(self)@, signal), final(self)@, actions@),
            served_lifo(
                pending_after_arrival(old(self)@, signal, sender),
                old(self).rk,
                final(self)@,
                actions@,
            ),
            invalid_only_for_strangers(old(self)@, actions@),
            pointer_moves_only_with_token(old(self)@, final(self)@, actions@),
            holder_keeps_or_hands_on(old(self)@, final(self)@, actions@),
            signal is Request && !old(self).marker ==> final(self).to_proc == old(self).to_proc
                && final(self).queue@ == old(self).queue@.push(sender) && actions@ == seq![
                request_toward(old(self)@),
            ],
        decreases receive_measure(old(self)@, signal),
    {
        proof {
            law_receive(self@, signal, sender);
            if signal is Request && !self.marker {
                law_request_without_token(self@, sender);
            }
        }
        match signal {
            Signal::Marker => {
                let mut actions: Vec<Action> = Vec::new();
                let ghost s0 = self@;
                if let Some(first) = self.queue.pop() {
                    assert(self.queue@ == s0.queue.drop_last());
                    actions = self.serve(first);
                    let ghost s2 = self@;
                    if let Some(top) = self.queue.pop() {
                        assert(self.queue@ == s2.queue.drop_last());
                        let mut rest = self.receive(Signal::Request, top);
                        actions.append(&mut rest);
                    }
                }
                actions
            },
            Signal::Request => {
                self.queue.push(sender);
                if self.marker {
                    let rk = self.rk;
                    self.receive(Signal::Marker, rk)
                } else {
                    let mut actions: Vec<Action> = Vec::new();
                    match self.marker_neighbor() {
                        Some(dest) => actions.push(
                            Action::SendRequest { dest, to_proc: self.to_proc },
                        ),
                        None => actions.push(Action::InvalidDirection(self.to_proc)),
                    }
                    assert(actions@ == seq![request_toward(self@)]);
                    actions
                }
            },
        }
    }
}

} // verus!
