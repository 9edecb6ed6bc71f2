//! The election state machine: per-process logic that consumes incoming
//! protocol messages and timer expirations and produces role transitions and
//! outgoing messages, following the bully rule — the highest surviving
//! identifier always wins, and any process learning of a higher identifier
//! currently claiming or contesting leadership defers at once.
//!
//! The whole transition relation is the spec function [`spec_step`]; the
//! executable [`ElectionState::step`] is proved to follow it exactly, and the
//! protocol laws at the end of the module are proved about it.

use vstd::prelude::*;
use crate::message::MessageType;

verus! {

/// The role a process currently plays.
#[derive(Copy, Clone, Debug, PartialEq, Eq, Structural)]
pub enum Role {
    Follower,
    Candidate,
    Coordinator,
}

/// The timers that drive the protocol. Arming a timer of one kind replaces
/// any earlier timer of that kind; a firing of a timer that is no longer
/// armed is stale and ignored.
#[derive(Copy, Clone, Debug, PartialEq, Eq, Structural)]
pub enum TimerKind {
    /// Armed while a follower; firing signals a suspected coordinator failure.
    HeartbeatDeadline,
    /// Armed when a candidate sends `Election`; firing with no `Answer` seen
    /// means no higher peer is alive.
    ElectionDeadline,
    /// Armed when a candidate hears an `Answer`; firing means the answering
    /// peer never followed up with `Coordinator`.
    CoordinatorDeadline,
    /// The coordinator's periodic assertion interval.
    AssertionInterval,
}

/// One event the runtime serializes into the state machine.
#[derive(Copy, Clone, Debug, PartialEq, Eq, Structural)]
pub enum Event {
    TimerFired(TimerKind),
    /// A decoded protocol message from the peer with identifier `sender`.
    MessageReceived { sender: u64, kind: MessageType },
}

/// One message the state machine asks the runtime to send.
#[derive(Copy, Clone, Debug, PartialEq, Eq, Structural)]
pub struct Outgoing {
    pub dest: u64,
    pub kind: MessageType,
}

/// The per-process election state.
pub struct ElectionState {
    /// This process's identifier; the ordering of identifiers is the
    /// election priority.
    pub self_id: u64,
    /// All peer identifiers, strictly ascending, never this process's own.
    pub peers: Vec<u64>,
    pub role: Role,
    /// Best current belief of who leads; `None` until the first
    /// `Coordinator` message or self-promotion.
    pub known_coordinator: Option<u64>,
    pub election_deadline_armed: bool,
    pub coordinator_deadline_armed: bool,
    pub heartbeat_deadline_armed: bool,
}

/// Some peer outranks this process.
pub open spec fn has_higher_peer(peers: Seq<u64>, self_id: u64) -> bool {
    exists|i: int| 0 <= i < peers.len() && peers[i] > self_id
}

impl ElectionState {
    /// Exactly one timer relevant to the current role is armed: a follower
    /// waits on its heartbeat deadline, a candidate on exactly one of the
    /// election or coordinator deadlines, a coordinator on none (its
    /// periodic assertion is driven from outside). A coordinator always
    /// believes in itself, and a candidate only ever contests when a higher
    /// peer exists — with none it would have promoted itself directly.
    pub open spec fn wf(&self) -> bool {
        &&& forall|i: int, j: int| 0 <= i < j < self.peers@.len() ==> self.peers@[i] < self.peers@[j]
        &&& forall|i: int| 0 <= i < self.peers@.len() ==> self.peers@[i] != self.self_id
        &&& (self.role == Role::Follower ==> self.heartbeat_deadline_armed
            && !self.election_deadline_armed && !self.coordinator_deadline_armed)
        &&& (self.role == Role::Candidate ==> !self.heartbeat_deadline_armed
            && (self.election_deadline_armed != self.coordinator_deadline_armed))
        &&& (self.role == Role::Candidate ==> has_higher_peer(self.peers@, self.self_id))
        &&& (self.role == Role::Coordinator ==> !self.heartbeat_deadline_armed
            && !self.election_deadline_armed && !self.coordinator_deadline_armed
            && self.known_coordinator == Some(self.self_id))
    }
}

/// An `Election` message for every peer that outranks `self_id`, in
/// ascending identifier order.
pub open spec fn election_targets(peers: Seq<u64>, self_id: u64) -> Seq<Outgoing>
    decreases peers.len(),
{
    if peers.len() == 0 {
        Seq::empty()
    } else {
        election_targets(peers.drop_last(), self_id) + if peers.last() > self_id {
            seq![Outgoing { dest: peers.last(), kind: MessageType::Election }]
        } else {
            Seq::empty()
        }
    }
}

/// A message of the given kind for every peer, in ascending identifier
/// order.
pub open spec fn broadcast_targets(peers: Seq<u64>, kind: MessageType) -> Seq<Outgoing>
    decreases peers.len(),
{
    if peers.len() == 0 {
        Seq::empty()
    } else {
        broadcast_targets(peers.drop_last(), kind) + seq![
            Outgoing { dest: peers.last(), kind },
        ]
    }
}

/// The follower's heartbeat deadline fired: suspect the coordinator, start
/// an election — or, with no higher peer to ask, claim leadership at once.
pub open spec fn spec_heartbeat_fired(s: ElectionState) -> (ElectionState, Seq<Outgoing>) {
    if s.role == Role::Follower && s.heartbeat_deadline_armed {
        if has_higher_peer(s.peers@, s.self_id) {
            (
                ElectionState {
                    role: Role::Candidate,
                    heartbeat_deadline_armed: false,
                    election_deadline_armed: true,
                    coordinator_deadline_armed: false,
                    ..s
                },
                election_targets(s.peers@, s.self_id),
            )
        } else {
            (
                ElectionState {
                    role: Role::Coordinator,
                    known_coordinator: Some(s.self_id),
                    heartbeat_deadline_armed: false,
                    election_deadline_armed: false,
                    coordinator_deadline_armed: false,
                    ..s
                },
                broadcast_targets(s.peers@, MessageType::Coordinator),
            )
        }
    } else {
        (s, Seq::empty())
    }
}

/// The candidate's election deadline fired with no `Answer` seen: every
/// higher peer is presumed dead, so self-promote and announce to all peers.
pub open spec fn spec_election_deadline_fired(s: ElectionState) -> (ElectionState, Seq<Outgoing>) {
    if s.role == Role::Candidate && s.election_deadline_armed {
        (
            ElectionState {
                role: Role::Coordinator,
                known_coordinator: Some(s.self_id),
                heartbeat_deadline_armed: false,
                election_deadline_armed: false,
                coordinator_deadline_armed: false,
                ..s
            },
            broadcast_targets(s.peers@, MessageType::Coordinator),
        )
    } else {
        (s, Seq::empty())
    }
}

/// The candidate's coordinator deadline fired: an `Answer` arrived but no
/// `Coordinator` followed, so restart the election round.
pub open spec fn spec_coordinator_deadline_fired(s: ElectionState) -> (ElectionState, Seq<Outgoing>) {
    if s.role == Role::Candidate && s.coordinator_deadline_armed {
        (
            ElectionState {
                election_deadline_armed: true,
                coordinator_deadline_armed: false,
                ..s
            },
            election_targets(s.peers@, s.self_id),
        )
    } else {
        (s, Seq::empty())
    }
}

/// The coordinator's periodic assertion interval fired: reaffirm leadership
/// to every peer.
pub open spec fn spec_assertion_fired(s: ElectionState) -> (ElectionState, Seq<Outgoing>) {
    if s.role == Role::Coordinator {
        (s, broadcast_targets(s.peers@, MessageType::Coordinator))
    } else {
        (s, Seq::empty())
    }
}

/// A protocol message arrived from the peer with identifier `sender`.
///
/// - `Election`: always answer — the sender must learn this process is
///   alive. A coordinator outranked by the sender also steps down and waits
///   for the election's outcome as a follower.
/// - `Answer`: a higher peer is alive and pursues its own candidacy; a
///   candidate stops waiting for answers and waits for a `Coordinator`
///   instead. Anything else is stale and ignored.
/// - `Coordinator`: a follower accepts any claim; a candidate accepts a
///   claim of equal or higher rank and abandons its candidacy; a coordinator
///   defers to a higher claim. A claim from a lower identifier than a
///   contesting or leading process is ignored — the periodic assertion will
///   correct the lower claimant.
pub open spec fn spec_message_received(s: ElectionState, sender: u64, kind: MessageType) -> (
    ElectionState,
    Seq<Outgoing>,
) {
    match kind {
        MessageType::Election => {
            let reply = seq![Outgoing { dest: sender, kind: MessageType::Answer }];
            if s.role == Role::Coordinator && sender > s.self_id {
                (
                    ElectionState {
                        role: Role::Follower,
                        heartbeat_deadline_armed: true,
                        election_deadline_armed: false,
                        coordinator_deadline_armed: false,
                        ..s
                    },
                    reply,
                )
            } else {
                (s, reply)
            }
        },
        MessageType::Answer => {
            if s.role == Role::Candidate && sender > s.self_id {
                (
                    ElectionState {
                        election_deadline_armed: false,
                        coordinator_deadline_armed: true,
                        ..s
                    },
                    Seq::empty(),
                )
            } else {
                (s, Seq::empty())
            }
        },
        MessageType::Coordinator => {
            let accepted = ElectionState {
                role: Role::Follower,
                known_coordinator: Some(sender),
                heartbeat_deadline_armed: true,
                election_deadline_armed: false,
                coordinator_deadline_armed: false,
                ..s
            };
            if s.role == Role::Follower {
                (accepted, Seq::empty())
            } else if s.role == Role::Candidate && sender >= s.self_id {
                (accepted, Seq::empty())
            } else if s.role == Role::Coordinator && sender > s.self_id {
                (accepted, Seq::empty())
            } else {
                (s, Seq::empty())
            }
        },
    }
}

/// The whole transition relation: one event in, the next state and the
/// outgoing messages out.
pub open spec fn spec_step(s: ElectionState, ev: Event) -> (ElectionState, Seq<Outgoing>) {
    match ev {
        Event::TimerFired(TimerKind::HeartbeatDeadline) => spec_heartbeat_fired(s),
        Event::TimerFired(TimerKind::ElectionDeadline) => spec_election_deadline_fired(s),
        Event::TimerFired(TimerKind::CoordinatorDeadline) => spec_coordinator_deadline_fired(s),
        Event::TimerFired(TimerKind::AssertionInterval) => spec_assertion_fired(s),
        Event::MessageReceived { sender, kind } => spec_message_received(s, sender, kind),
    }
}

/// Every state the machine can reach is well formed: each transition
/// preserves the timer and belief invariants.
pub proof fn lemma_spec_step_preserves_wf(s: ElectionState, ev: Event)
    requires
        s.wf(),
    ensures
        spec_step(s, ev).0.wf(),
{
}

/// `Election` messages for exactly the higher peers.
fn collect_election_targets(peers: &Vec<u64>, self_id: u64) -> (r: Vec<Outgoing>)
    ensures
        r@ == election_targets(peers@, self_id),
{
    let mut r: Vec<Outgoing> = Vec::new();
    let mut i: usize = 0;
    while i < peers.len()
        invariant
            0 <= i <= peers@.len(),
            r@ == election_targets(peers@.take(i as int), self_id),
        decreases peers@.len() - i,
    {
        if peers[i] > self_id {
            r.push(Outgoing { dest: peers[i], kind: MessageType::Election });
        }
        proof {
            assert(peers@.take(i as int + 1).drop_last() =~= peers@.take(i as int));
            assert(peers@.take(i as int + 1).last() == peers@[i as int]);
            assert(r@ =~= election_targets(peers@.take(i as int + 1), self_id));
        }
        i = i + 1;
    }
    proof {
        assert(peers@.take(peers@.len() as int) =~= peers@);
    }
    r
}

/// Messages of one kind for every peer.
fn collect_broadcast_targets(peers: &Vec<u64>, kind: MessageType) -> (r: Vec<Outgoing>)
    ensures
        r@ == broadcast_targets(peers@, kind),
{
    let mut r: Vec<Outgoing> = Vec::new();
    let mut i: usize = 0;
    while i < peers.len()
        invariant
            0 <= i <= peers@.len(),
            r@ == broadcast_targets(peers@.take(i as int), kind),
        decreases peers@.len() - i,
    {
        r.push(Outgoing { dest: peers[i], kind });
        proof {
            assert(peers@.take(i as int + 1).drop_last() =~= peers@.take(i as int));
            assert(peers@.take(i as int + 1).last() == peers@[i as int]);
            assert(r@ =~= broadcast_targets(peers@.take(i as int + 1), kind));
        }
        i = i + 1;
    }
    proof {
        assert(peers@.take(peers@.len() as int) =~= peers@);
    }
    r
}

impl ElectionState {
    /// A fresh process: a follower that knows no coordinator, with its
    /// heartbeat deadline armed immediately so that a cluster with no
    /// coordinator information starts an election promptly.
    pub fn new(self_id: u64, peers: Vec<u64>) -> (r: ElectionState)
        requires
            forall|i: int, j: int| 0 <= i < j < peers@.len() ==> peers@[i] < peers@[j],
            forall|i: int| 0 <= i < peers@.len() ==> peers@[i] != self_id,
        ensures
            r.wf(),
            r.self_id == self_id,
            r.peers == peers,
            r.role == Role::Follower,
            r.known_coordinator is None,
            r.heartbeat_deadline_armed,
            !r.election_deadline_armed,
            !r.coordinator_deadline_armed,
    {
        ElectionState {
            self_id,
            peers,
            role: Role::Follower,
            known_coordinator: None,
            election_deadline_armed: false,
            coordinator_deadline_armed: false,
            heartbeat_deadline_armed: true,
        }
    }

    /// The role this process currently plays.
    pub fn current_role(&self) -> (r: Role)
        ensures
            r == self.role,
    {
        self.role
    }

    /// This process's best current belief of who leads.
    pub fn current_coordinator(&self) -> (r: Option<u64>)
        ensures
            r == self.known_coordinator,
    {
        self.known_coordinator
    }

    /// Whether some peer outranks this process.
    fn has_higher(&self) -> (r: bool)
        requires
            self.wf(),
        ensures
            r == has_higher_peer(self.peers@, self.self_id),
    {
        let n = self.peers.len();
        if n == 0 {
            false
        } else if self.peers[n - 1] > self.self_id {
            true
        } else {
            proof {
                assert forall|i: int| 0 <= i < self.peers@.len() implies !(self.peers@[i]
                    > self.self_id) by {
                    if i < n - 1 {
                        assert(self.peers@[i] < self.peers@[n - 1]);
                    }
                }
            }
            false
        }
    }

    /// Applies one serialized event and returns the messages to send, in
    /// ascending destination order. The transition followed is exactly
    /// [`spec_step`]; a firing of a timer that is no longer armed changes
    /// nothing.
    pub fn step(&mut self, ev: Event) -> (out: Vec<Outgoing>)
        requires
            old(self).wf(),
        ensures
            final(self).wf(),
            *final(self) == spec_step(*old(self), ev).0,
            out@ == spec_step(*old(self), ev).1,
    {
        proof {
            lemma_spec_step_preserves_wf(*old(self), ev);
        }
        match ev {
            Event::TimerFired(TimerKind::HeartbeatDeadline) => {
                if self.role == Role::Follower && self.heartbeat_deadline_armed {
                    if self.has_higher() {
                        self.role = Role::Candidate;
                        self.heartbeat_deadline_armed = false;
                        self.election_deadline_armed = true;
                        self.coordinator_deadline_armed = false;
                        collect_election_targets(&self.peers, self.self_id)
                    } else {
                        self.role = Role::Coordinator;
                        self.known_coordinator = Some(self.self_id);
                        self.heartbeat_deadline_armed = false;
                        self.election_deadline_armed = false;
                        self.coordinator_deadline_armed = false;
                        collect_broadcast_targets(&self.peers, MessageType::Coordinator)
                    }
                } else {
                    Vec::new()
                }
            },
            Event::TimerFired(TimerKind::ElectionDeadline) => {
                if self.role == Role::Candidate && self.election_deadline_armed {
                    self.role = Role::Coordinator;
                    self.known_coordinator = Some(self.self_id);
                    self.heartbeat_deadline_armed = false;
                    self.election_deadline_armed = false;
                    self.coordinator_deadline_armed = false;
                    collect_broadcast_targets(&self.peers, MessageType::Coordinator)
                } else {
                    Vec::new()
                }
            },
            Event::TimerFired(TimerKind::CoordinatorDeadline) => {
                if self.role == Role::Candidate && self.coordinator_deadline_armed {
                    self.election_deadline_armed = true;
                    self.coordinator_deadline_armed = false;
                    collect_election_targets(&self.peers, self.self_id)
                } else {
                    Vec::new()
                }
            },
            Event::TimerFired(TimerKind::AssertionInterval) => {
                if self.role == Role::Coordinator {
                    collect_broadcast_targets(&self.peers, MessageType::Coordinator)
                } else {
                    Vec::new()
                }
            },
            Event::MessageReceived { sender, kind } => {
                match kind {
                    MessageType::Election => {
                        if self.role == Role::Coordinator && sender > self.self_id {
                            self.role = Role::Follower;
                            self.heartbeat_deadline_armed = true;
                            self.election_deadline_armed = false;
                            self.coordinator_deadline_armed = false;
                        }
                        let mut reply: Vec<Outgoing> = Vec::new();
                        reply.push(Outgoing { dest: sender, kind: MessageType::Answer });
                        proof {
                            assert(reply@ =~= spec_step(*old(self), ev).1);
                        }
                        reply
                    },
                    MessageType::Answer => {
                        if self.role == Role::Candidate && sender > self.self_id {
                            self.election_deadline_armed = false;
                            self.coordinator_deadline_armed = true;
                        }
                        Vec::new()
                    },
                    MessageType::Coordinator => {
                        let accept = if self.role == Role::Follower {
                            true
                        } else if self.role == Role::Candidate {
                            sender >= self.self_id
                        } else {
                            sender > self.self_id
                        };
                        if accept {
                            self.role = Role::Follower;
                            self.known_coordinator = Some(sender);
                            self.heartbeat_deadline_armed = true;
                            self.election_deadline_armed = false;
                            self.coordinator_deadline_armed = false;
                        }
                        Vec::new()
                    },
                }
            },
        }
    }
}

/// At quiescence there is one leader at most: once every process of a
/// cluster has converged on the same believed coordinator `m` — which is
/// what delivering the final `Coordinator` broadcast leaves behind — no two
/// distinct processes can both hold the `Coordinator` role, since a
/// well-formed coordinator believes only in itself.
pub proof fn lemma_unique_leader_at_quiescence(
    cluster: Seq<ElectionState>,
    m: u64,
    i: int,
    j: int,
)
    requires
        forall|k: int| 0 <= k < cluster.len() ==> (#[trigger] cluster[k]).wf(),
        forall|k: int| 0 <= k < cluster.len() ==> (#[trigger] cluster[k]).known_coordinator
            == Some(m),
        0 <= i < cluster.len(),
        0 <= j < cluster.len(),
        cluster[i].self_id != cluster[j].self_id,
    ensures
        !(cluster[i].role == Role::Coordinator && cluster[j].role == Role::Coordinator),
{
}

/// Leadership is only ever taken on a timeout, never granted by a message:
/// a process comes to hold the `Coordinator` role only as a candidate whose
/// election deadline passed with no `Answer`, or as a follower whose
/// heartbeat deadline fired when no peer outranked it.
pub proof fn lemma_promotion_only_by_timeout(s: ElectionState, ev: Event)
    requires
        s.wf(),
        s.role != Role::Coordinator,
        spec_step(s, ev).0.role == Role::Coordinator,
    ensures
        (ev == Event::TimerFired(TimerKind::ElectionDeadline) && s.role == Role::Candidate
            && s.election_deadline_armed) || (ev == Event::TimerFired(TimerKind::HeartbeatDeadline)
            && s.role == Role::Follower && !has_higher_peer(s.peers@, s.self_id)),
        spec_step(s, ev).0.known_coordinator == Some(s.self_id),
{
}

/// Quiescence implies a single leader: in a connected, healthy cluster,
/// once all pending timers have fired and no message still in flight can
/// change any state — in particular, every leader's periodic assertion has
/// been delivered and absorbed — no two distinct processes hold the
/// `Coordinator` role. Were there two, the lower-ranked one would still be
/// changed by the higher one's assertion.
pub proof fn lemma_quiescence_single_leader(cluster: Seq<ElectionState>, i: int, j: int)
    requires
        forall|k: int| 0 <= k < cluster.len() ==> (#[trigger] cluster[k]).wf(),
        forall|a: int, b: int|
            0 <= a < cluster.len() && 0 <= b < cluster.len() && a != b ==> (#[trigger] cluster[a]).self_id
                != (#[trigger] cluster[b]).self_id,
        forall|a: int, b: int|
            0 <= a < cluster.len() && 0 <= b < cluster.len() && a != b && (#[trigger] cluster[b]).role
                == Role::Coordinator ==> spec_step(
                #[trigger] cluster[a],
                Event::MessageReceived { sender: cluster[b].self_id, kind: MessageType::Coordinator },
            ).0 == cluster[a],
        0 <= i < cluster.len(),
        0 <= j < cluster.len(),
        i != j,
    ensures
        !(cluster[i].role == Role::Coordinator && cluster[j].role == Role::Coordinator),
{
    if cluster[i].role == Role::Coordinator && cluster[j].role == Role::Coordinator {
        if cluster[i].self_id < cluster[j].self_id {
            lemma_leader_deference(cluster[i], cluster[j].self_id);
            assert(spec_step(
                cluster[i],
                Event::MessageReceived {
                    sender: cluster[j].self_id,
                    kind: MessageType::Coordinator,
                },
            ).0 == cluster[i]);
        } else {
            lemma_leader_deference(cluster[j], cluster[i].self_id);
            assert(spec_step(
                cluster[j],
                Event::MessageReceived {
                    sender: cluster[i].self_id,
                    kind: MessageType::Coordinator,
                },
            ).0 == cluster[j]);
        }
    }
}

/// A leading process defers to any leadership claim from a higher
/// identifier: after handling it, the process follows the claimant.
pub proof fn lemma_leader_deference(s: ElectionState, sender: u64)
    requires
        s.wf(),
        s.role == Role::Coordinator,
        sender > s.self_id,
    ensures
        spec_step(
            s,
            Event::MessageReceived { sender, kind: MessageType::Coordinator },
        ).0.role == Role::Follower,
        spec_step(
            s,
            Event::MessageReceived { sender, kind: MessageType::Coordinator },
        ).0.known_coordinator == Some(sender),
{
}

/// One delivery converges one process: whatever its role, a process that
/// handles a `Coordinator` claim from a higher identifier ends up a
/// follower that knows the claimant as leader. Repeated over one broadcast
/// round, every live process converges on the highest live identifier
/// within a bounded number of timeout cycles.
pub proof fn lemma_convergence_on_coordinator(s: ElectionState, sender: u64)
    requires
        s.wf(),
        sender > s.self_id,
    ensures
        spec_step(
            s,
            Event::MessageReceived { sender, kind: MessageType::Coordinator },
        ).0.role == Role::Follower,
        spec_step(
            s,
            Event::MessageReceived { sender, kind: MessageType::Coordinator },
        ).0.known_coordinator == Some(sender),
        spec_step(s, Event::MessageReceived { sender, kind: MessageType::Coordinator }).0.wf(),
{
    lemma_spec_step_preserves_wf(
        s,
        Event::MessageReceived { sender, kind: MessageType::Coordinator },
    );
}

/// The highest-ranked process never waits on anyone: when its heartbeat
/// deadline fires and no peer outranks it, it promotes itself at once and
/// announces its leadership to every peer.
pub proof fn lemma_highest_self_promotes(s: ElectionState)
    requires
        s.wf(),
        s.role == Role::Follower,
        !has_higher_peer(s.peers@, s.self_id),
    ensures
        spec_step(s, Event::TimerFired(TimerKind::HeartbeatDeadline)).0.role == Role::Coordinator,
        spec_step(s, Event::TimerFired(TimerKind::HeartbeatDeadline)).0.known_coordinator == Some(
            s.self_id,
        ),
        spec_step(s, Event::TimerFired(TimerKind::HeartbeatDeadline)).1 == broadcast_targets(
            s.peers@,
            MessageType::Coordinator,
        ),
{
}

/// One broadcast round settles the cluster: when the highest-ranked process
/// leads and every other process handles its `Coordinator` assertion, every
/// process ends up well formed and knowing the highest identifier as leader,
/// and only the process bearing that identifier still holds the
/// `Coordinator` role. This bounds convergence: one delivery per process
/// after the leader's broadcast, every cycle.
pub proof fn lemma_broadcast_round_converges(
    before: Seq<ElectionState>,
    after: Seq<ElectionState>,
    m: u64,
)
    requires
        before.len() == after.len(),
        forall|k: int| 0 <= k < before.len() ==> (#[trigger] before[k]).wf(),
        forall|k: int| 0 <= k < before.len() ==> (#[trigger] before[k]).self_id <= m,
        forall|k: int|
            0 <= k < before.len() && (#[trigger] before[k]).self_id == m ==> before[k].role
                == Role::Coordinator && after[k] == before[k],
        forall|k: int|
            0 <= k < before.len() && (#[trigger] before[k]).self_id < m ==> after[k] == spec_step(
                before[k],
                Event::MessageReceived { sender: m, kind: MessageType::Coordinator },
            ).0,
    ensures
        forall|k: int|
            0 <= k < after.len() ==> (#[trigger] after[k]).wf() && after[k].known_coordinator
                == Some(m),
        forall|k: int|
            0 <= k < after.len() && (#[trigger] after[k]).self_id != m ==> after[k].role
                == Role::Follower,
{
    assert forall|k: int| 0 <= k < after.len() implies (#[trigger] after[k]).wf()
        && after[k].known_coordinator == Some(m) && (after[k].self_id != m ==> after[k].role
        == Role::Follower) by {
        if before[k].self_id == m {
            assert(after[k].known_coordinator == Some(m));
        } else {
            lemma_convergence_on_coordinator(before[k], m);
        }
    }
}

/// An election round asks exactly the peers that outrank the sender: every
/// target is a higher peer asked with `Election`, and every higher peer is a
/// target.
pub proof fn lemma_election_asks_all_higher(peers: Seq<u64>, self_id: u64)
    ensures
        forall|i: int|
            0 <= i < election_targets(peers, self_id).len() ==> (#[trigger] election_targets(
                peers,
                self_id,
            )[i]).kind == MessageType::Election && election_targets(peers, self_id)[i].dest
                > self_id && peers.contains(election_targets(peers, self_id)[i].dest),
        forall|k: int|
            0 <= k < peers.len() && peers[k] > self_id ==> exists|i: int|
                0 <= i < election_targets(peers, self_id).len() && (#[trigger] election_targets(
                    peers,
                    self_id,
                )[i]).dest == peers[k],
    decreases peers.len(),
{
    if peers.len() > 0 {
        let pre = peers.drop_last();
        lemma_election_asks_all_higher(pre, self_id);
        assert forall|i: int|
            0 <= i < election_targets(peers, self_id).len() implies (#[trigger] election_targets(
            peers,
            self_id,
        )[i]).kind == MessageType::Election && election_targets(peers, self_id)[i].dest > self_id
            && peers.contains(election_targets(peers, self_id)[i].dest) by {
            if i < election_targets(pre, self_id).len() {
                assert(election_targets(peers, self_id)[i] == election_targets(pre, self_id)[i]);
                let w = choose|w: int| 0 <= w < pre.len() && pre[w] == election_targets(
                    pre,
                    self_id,
                )[i].dest;
                assert(peers[w] == election_targets(peers, self_id)[i].dest);
            } else {
                assert(peers.last() > self_id);
                assert(election_targets(peers, self_id)[i].dest == peers.last());
                assert(peers[peers.len() - 1] == peers.last());
            }
        }
        assert forall|k: int| 0 <= k < peers.len() && peers[k] > self_id implies exists|i: int|
            0 <= i < election_targets(peers, self_id).len() && (#[trigger] election_targets(
                peers,
                self_id,
            )[i]).dest == peers[k] by {
            if k < peers.len() - 1 {
                assert(pre[k] == peers[k]);
                let i = choose|i: int|
                    0 <= i < election_targets(pre, self_id).len() && election_targets(
                        pre,
                        self_id,
                    )[i].dest == pre[k];
                assert(election_targets(peers, self_id)[i].dest == peers[k]);
            } else {
                let i = election_targets(pre, self_id).len() as int;
                assert(election_targets(peers, self_id)[i].dest == peers.last());
            }
        }
    }
}

/// A broadcast reaches every peer: one message of the given kind per peer,
/// in ascending identifier order.
pub proof fn lemma_broadcast_reaches_all(peers: Seq<u64>, kind: MessageType)
    ensures
        broadcast_targets(peers, kind).len() == peers.len(),
        forall|i: int|
            0 <= i < peers.len() ==> broadcast_targets(peers, kind)[i] == (Outgoing {
                dest: peers[i],
                kind,
            }),
    decreases peers.len(),
{
    if peers.len() > 0 {
        lemma_broadcast_reaches_all(peers.drop_last(), kind);
        assert forall|i: int| 0 <= i < peers.len() implies broadcast_targets(peers, kind)[i]
            == (Outgoing { dest: peers[i], kind }) by {
            if i < peers.len() - 1 {
                assert(peers.drop_last()[i] == peers[i]);
            }
        }
    }
}

} // verus!

