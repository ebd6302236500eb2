use mpi_tasks::messages::STOP_CODE;
use mpi_tasks::rows::row_owners;
use mpi_tasks::topology::marker_path;
use mpi_tasks::tree::{Action, ProcTree, Signal, TO_LEFT, TO_PARENT, TO_RIGHT};

fn node(rk: i32, root: i32, left: i32, right: i32, to_proc: i32, marker: bool) -> ProcTree {
    ProcTree { queue: Vec::new(), rk, root, left, right, to_proc, marker }
}

#[test]
fn request_without_token_is_forwarded_toward_it() {
    let mut t = node(1, 0, 3, 4, TO_PARENT, false);
    let acts = t.receive(Signal::Request, 3);
    assert_eq!(acts, vec![Action::SendRequest { dest: 0, to_proc: TO_PARENT }]);
    assert_eq!(t.queue, vec![3]);
    assert!(!t.marker);
}

#[test]
fn arriving_token_goes_to_the_requesting_child() {
    let mut t = node(1, 0, 3, 4, TO_PARENT, false);
    t.receive(Signal::Request, 3);
    let acts = t.receive(Signal::Marker, 0);
    assert_eq!(acts, vec![Action::SendMarker { dest: 3, to_proc: TO_LEFT }]);
    assert_eq!(t.to_proc, TO_LEFT);
    assert!(!t.marker);
    assert!(t.queue.is_empty());
}

#[test]
fn holder_requesting_itself_enters_critical_section() {
    let mut t = node(2, 0, 5, 6, TO_PARENT, true);
    let acts = t.receive(Signal::Request, 2);
    assert_eq!(acts, vec![Action::EnterCritical]);
    assert!(t.marker);
    assert!(t.queue.is_empty());
}

#[test]
fn holder_passes_token_to_requesting_parent() {
    let mut t = node(2, 0, 5, 6, TO_RIGHT, true);
    let acts = t.receive(Signal::Request, 0);
    assert_eq!(acts, vec![Action::SendMarker { dest: 0, to_proc: TO_PARENT }]);
    assert_eq!(t.to_proc, TO_PARENT);
    assert!(!t.marker);
}

#[test]
fn queue_is_served_last_in_first_out() {
    let mut t = node(1, 0, 3, 4, TO_PARENT, false);
    t.queue = vec![3, 4];
    let acts = t.receive(Signal::Marker, 0);
    assert_eq!(
        acts,
        vec![
            Action::SendMarker { dest: 4, to_proc: TO_RIGHT },
            Action::SendRequest { dest: 4, to_proc: TO_RIGHT },
        ]
    );
    assert_eq!(t.queue, vec![3]);
    assert!(!t.marker);
}

#[test]
fn own_request_then_child_request_with_token() {
    // The node holds the token with its own request and a child's queued,
    // the child's last: the child is served first and the own request is
    // sent after the token.
    let mut t = node(0, -1, 1, 2, TO_LEFT, true);
    t.queue = vec![0];
    let acts = t.receive(Signal::Request, 2);
    assert_eq!(
        acts,
        vec![
            Action::SendMarker { dest: 2, to_proc: TO_RIGHT },
            Action::SendRequest { dest: 2, to_proc: TO_RIGHT },
        ]
    );
    assert_eq!(t.queue, vec![0]);
}

#[test]
fn token_serves_own_request_then_forwards() {
    let mut t = node(1, 0, 3, 4, TO_PARENT, false);
    t.queue = vec![3, 1];
    let acts = t.receive(Signal::Marker, 0);
    assert_eq!(
        acts,
        vec![Action::EnterCritical, Action::SendMarker { dest: 3, to_proc: TO_LEFT }]
    );
    assert!(t.queue.is_empty());
    assert!(!t.marker);
    assert_eq!(t.to_proc, TO_LEFT);
}

#[test]
fn unknown_rank_in_queue_is_reported() {
    let mut t = node(1, 0, 3, 4, TO_PARENT, false);
    t.queue = vec![9];
    let acts = t.receive(Signal::Marker, 0);
    assert_eq!(acts, vec![Action::InvalidRank(9)]);
    assert!(t.queue.is_empty());
    assert!(!t.marker);
}

#[test]
fn invalid_direction_is_reported() {
    let mut t = node(1, 0, 3, 4, 7, false);
    let acts = t.receive(Signal::Request, 3);
    assert_eq!(acts, vec![Action::InvalidDirection(7)]);
    assert_eq!(t.marker_neighbor(), None);
}

#[test]
fn token_with_empty_queue_does_nothing() {
    let mut t = node(1, 0, 3, 4, TO_PARENT, false);
    let acts = t.receive(Signal::Marker, 0);
    assert!(acts.is_empty());
    assert!(!t.marker);
}

#[test]
fn tree_elements_follow_heap_layout() {
    let root = ProcTree::new(0, 7, 5);
    assert_eq!((root.rk, root.root, root.left, root.right, root.to_proc, root.marker), (0, -1, 1, 2, TO_LEFT, false));
    let inner = ProcTree::new(2, 7, 5);
    assert_eq!((inner.root, inner.left, inner.right, inner.to_proc), (0, 5, 6, TO_PARENT));
    let leaf = ProcTree::new(5, 7, 5);
    assert_eq!((leaf.root, leaf.left, leaf.right, leaf.marker), (2, -1, -1, true));
    let half = ProcTree::new(2, 6, 0);
    assert_eq!((half.left, half.right), (5, -1));
    assert!(root.queue.is_empty());
}

#[test]
fn marker_path_names_the_way_down() {
    let path = marker_path(5);
    assert_eq!(path.len(), 2);
    assert_eq!(path[&0], 2);
    assert_eq!(path[&2], 5);
    assert!(marker_path(0).is_empty());
    let deep = marker_path(11);
    assert_eq!(deep.len(), 3);
    assert_eq!((deep[&0], deep[&2], deep[&5]), (2, 5, 11));
}

#[test]
fn initial_pointers_lead_to_the_token() {
    let size = 7;
    let marker = 5;
    let path = marker_path(marker);
    let mut nodes: Vec<ProcTree> = (0..size).map(|r| ProcTree::new(r, size, marker)).collect();
    for n in nodes.iter_mut() {
        n.point_to_marker(&path);
    }
    let dirs: Vec<i32> = nodes.iter().map(|n| n.to_proc).collect();
    assert_eq!(dirs, vec![TO_RIGHT, TO_PARENT, TO_LEFT, TO_PARENT, TO_PARENT, TO_PARENT, TO_PARENT]);
    // following the pointers from any node reaches the token
    for start in 0..size {
        let mut at = start;
        let mut steps = 0;
        while !nodes[at as usize].marker {
            at = nodes[at as usize].marker_neighbor().unwrap();
            steps += 1;
            assert!(steps < size);
        }
        assert_eq!(at, marker);
    }
}

#[test]
fn signal_codes_round_trip() {
    assert_eq!(Signal::Marker.code(), 0);
    assert_eq!(Signal::Request.code(), 1);
    assert_eq!(Signal::decode(Signal::Marker.code()), Some(Signal::Marker));
    assert_eq!(Signal::decode(Signal::Request.code()), Some(Signal::Request));
    assert_eq!(Signal::decode(STOP_CODE), None);
    assert_eq!(Signal::decode(-3), None);
}

#[test]
fn rows_are_dealt_round_robin() {
    let owners = row_owners(15, 3);
    assert_eq!(owners, vec![0, 1, 2, 0, 1, 2, 0, 1, 2, 0, 1, 2, 0, 1, 2]);
    assert_eq!(row_owners(4, 8), vec![0, 1, 2, 3]);
    assert!(row_owners(0, 2).is_empty());
}

/// Delivers messages between the nodes until none is left; returns the
/// ranks that entered the critical section, in order.
fn run_round(nodes: &mut Vec<ProcTree>, requester: i32) -> Vec<i32> {
    let mut entered = Vec::new();
    let mut inbox: Vec<(i32, Signal, i32)> = vec![(requester, Signal::Request, requester)];
    while !inbox.is_empty() {
        let held = nodes.iter().filter(|n| n.marker).count();
        let moving = inbox.iter().filter(|m| m.1 == Signal::Marker).count();
        assert!(held + moving <= 1);
        let (to, signal, from) = inbox.remove(0);
        let acts = nodes[to as usize].receive(signal, from);
        for a in acts {
            match a {
                Action::EnterCritical => entered.push(to),
                Action::SendMarker { dest, .. } => inbox.push((dest, Signal::Marker, to)),
                Action::SendRequest { dest, .. } => inbox.push((dest, Signal::Request, to)),
                other => panic!("unexpected {:?}", other),
            }
        }
    }
    entered
}

#[test]
fn every_process_in_turn_gets_the_token_exactly_once() {
    let size = 7;
    let marker = size - 1;
    let path = marker_path(marker);
    let mut nodes: Vec<ProcTree> = (0..size).map(|r| ProcTree::new(r, size, marker)).collect();
    for n in nodes.iter_mut() {
        n.point_to_marker(&path);
    }
    for requester in 0..size {
        let entered = run_round(&mut nodes, requester);
        assert_eq!(entered, vec![requester]);
        let holders: Vec<i32> = nodes.iter().filter(|n| n.marker).map(|n| n.rk).collect();
        assert_eq!(holders, vec![requester]);
        assert!(nodes.iter().all(|n| n.queue.is_empty()));
    }
}

#[test]
fn parent_and_child_links_agree() {
    for size in 3..20 {
        for c in 1..size {
            let child = ProcTree::new(c, size, 0);
            let parent = ProcTree::new(child.root, size, 0);
            assert!(child.root < c);
            assert!(parent.left == c || parent.right == c);
        }
        for n in 0..size {
            let t = ProcTree::new(n, size, 0);
            for kid in [t.left, t.right] {
                if kid != -1 {
                    assert_eq!(ProcTree::new(kid, size, 0).root, n);
                }
            }
        }
    }
    // with two processes the root still names a right child 2 that does not exist
    assert_eq!(ProcTree::new(0, 2, 0).right, 2);
}
