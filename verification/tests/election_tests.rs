use bully::election::{ElectionState, Event, Outgoing, Role, TimerKind};
use bully::message::MessageType;

fn received(sender: u64, kind: MessageType) -> Event {
    Event::MessageReceived { sender, kind }
}

fn outgoing(dest: u64, kind: MessageType) -> Outgoing {
    Outgoing { dest, kind }
}

#[test]
fn initial_state_is_follower_with_heartbeat_armed() {
    let p = ElectionState::new(1, vec![2, 3]);
    assert_eq!(p.current_role(), Role::Follower);
    assert_eq!(p.current_coordinator(), None);
    assert!(p.heartbeat_deadline_armed);
    assert!(!p.election_deadline_armed);
    assert!(!p.coordinator_deadline_armed);
}

#[test]
fn scenario_all_alive_highest_wins() {
    let mut p1 = ElectionState::new(1, vec![2, 3]);
    let mut p2 = ElectionState::new(2, vec![1, 3]);
    let mut p3 = ElectionState::new(3, vec![1, 2]);

    // Process 1's heartbeat deadline fires first: Election to {2, 3}.
    let out1 = p1.step(Event::TimerFired(TimerKind::HeartbeatDeadline));
    assert_eq!(out1, vec![
        outgoing(2, MessageType::Election),
        outgoing(3, MessageType::Election),
    ]);
    assert_eq!(p1.current_role(), Role::Candidate);
    assert!(p1.election_deadline_armed);

    // Both higher peers answer.
    let out2 = p2.step(received(1, MessageType::Election));
    assert_eq!(out2, vec![outgoing(1, MessageType::Answer)]);
    let out3 = p3.step(received(1, MessageType::Election));
    assert_eq!(out3, vec![outgoing(1, MessageType::Answer)]);

    // Process 1 hears the answers and arms its coordinator deadline.
    let quiet = p1.step(received(2, MessageType::Answer));
    assert_eq!(quiet, Vec::new());
    assert!(p1.coordinator_deadline_armed);
    assert!(!p1.election_deadline_armed);
    p1.step(received(3, MessageType::Answer));
    assert_eq!(p1.current_role(), Role::Candidate);

    // Meanwhile process 3's own heartbeat also times out independently;
    // with no higher peer it self-promotes and announces to {1, 2}.
    let out4 = p3.step(Event::TimerFired(TimerKind::HeartbeatDeadline));
    assert_eq!(p3.current_role(), Role::Coordinator);
    assert_eq!(p3.current_coordinator(), Some(3));
    assert_eq!(out4, vec![
        outgoing(1, MessageType::Coordinator),
        outgoing(2, MessageType::Coordinator),
    ]);

    // Processes 1 and 2 accept id 3, discarding the in-flight candidacy.
    p1.step(received(3, MessageType::Coordinator));
    assert_eq!(p1.current_role(), Role::Follower);
    assert_eq!(p1.current_coordinator(), Some(3));
    assert!(p1.heartbeat_deadline_armed);
    assert!(!p1.coordinator_deadline_armed);
    p2.step(received(3, MessageType::Coordinator));
    assert_eq!(p2.current_role(), Role::Follower);
    assert_eq!(p2.current_coordinator(), Some(3));

    // Exactly one process leads.
    let leaders = [&p1, &p2, &p3]
        .iter()
        .filter(|p| p.current_role() == Role::Coordinator)
        .count();
    assert_eq!(leaders, 1);
}

#[test]
fn scenario_coordinator_crash_next_highest_wins() {
    let mut p1 = ElectionState::new(1, vec![2, 3]);
    let mut p2 = ElectionState::new(2, vec![1, 3]);
    // Process 3, the current coordinator, has crashed.

    // Process 2's heartbeat deadline fires: Election to the higher peer 3.
    let out = p2.step(Event::TimerFired(TimerKind::HeartbeatDeadline));
    assert_eq!(out, vec![outgoing(3, MessageType::Election)]);
    assert_eq!(p2.current_role(), Role::Candidate);

    // No Answer arrives within the response timeout.
    let out2 = p2.step(Event::TimerFired(TimerKind::ElectionDeadline));
    assert_eq!(p2.current_role(), Role::Coordinator);
    assert_eq!(p2.current_coordinator(), Some(2));
    assert_eq!(out2, vec![
        outgoing(1, MessageType::Coordinator),
        outgoing(3, MessageType::Coordinator),
    ]);

    // Process 1 accepts.
    p1.step(received(2, MessageType::Coordinator));
    assert_eq!(p1.current_role(), Role::Follower);
    assert_eq!(p1.current_coordinator(), Some(2));
}

#[test]
fn coordinator_defers_to_higher_claim() {
    let mut p = ElectionState::new(2, vec![1, 3]);
    p.step(Event::TimerFired(TimerKind::HeartbeatDeadline));
    p.step(Event::TimerFired(TimerKind::ElectionDeadline));
    assert_eq!(p.current_role(), Role::Coordinator);

    p.step(received(3, MessageType::Coordinator));
    assert_eq!(p.current_role(), Role::Follower);
    assert_eq!(p.current_coordinator(), Some(3));
    assert!(p.heartbeat_deadline_armed);
}

#[test]
fn coordinator_ignores_lower_claim() {
    let mut p = ElectionState::new(2, vec![1, 3]);
    p.step(Event::TimerFired(TimerKind::HeartbeatDeadline));
    p.step(Event::TimerFired(TimerKind::ElectionDeadline));
    assert_eq!(p.current_role(), Role::Coordinator);

    let out = p.step(received(1, MessageType::Coordinator));
    assert_eq!(out, Vec::new());
    assert_eq!(p.current_role(), Role::Coordinator);
    assert_eq!(p.current_coordinator(), Some(2));
}

#[test]
fn coordinator_steps_down_on_higher_election() {
    let mut p = ElectionState::new(2, vec![1, 3]);
    p.step(Event::TimerFired(TimerKind::HeartbeatDeadline));
    p.step(Event::TimerFired(TimerKind::ElectionDeadline));
    assert_eq!(p.current_role(), Role::Coordinator);

    let out = p.step(received(3, MessageType::Election));
    assert_eq!(out, vec![outgoing(3, MessageType::Answer)]);
    assert_eq!(p.current_role(), Role::Follower);
    assert!(p.heartbeat_deadline_armed);
}

#[test]
fn candidate_answers_lower_election_and_keeps_candidacy() {
    let mut p = ElectionState::new(2, vec![1, 3]);
    p.step(Event::TimerFired(TimerKind::HeartbeatDeadline));
    assert_eq!(p.current_role(), Role::Candidate);

    let out = p.step(received(1, MessageType::Election));
    assert_eq!(out, vec![outgoing(1, MessageType::Answer)]);
    assert_eq!(p.current_role(), Role::Candidate);
    assert!(p.election_deadline_armed);
}

#[test]
fn candidate_rejects_lower_coordinator_claim() {
    let mut p = ElectionState::new(2, vec![1, 3]);
    p.step(Event::TimerFired(TimerKind::HeartbeatDeadline));
    let out = p.step(received(1, MessageType::Coordinator));
    assert_eq!(out, Vec::new());
    assert_eq!(p.current_role(), Role::Candidate);
    assert_eq!(p.current_coordinator(), None);
}

#[test]
fn candidate_restarts_election_when_coordinator_never_comes() {
    let mut p = ElectionState::new(1, vec![2, 3]);
    p.step(Event::TimerFired(TimerKind::HeartbeatDeadline));
    p.step(received(3, MessageType::Answer));
    assert!(p.coordinator_deadline_armed);

    let out = p.step(Event::TimerFired(TimerKind::CoordinatorDeadline));
    assert_eq!(out, vec![
        outgoing(2, MessageType::Election),
        outgoing(3, MessageType::Election),
    ]);
    assert_eq!(p.current_role(), Role::Candidate);
    assert!(p.election_deadline_armed);
    assert!(!p.coordinator_deadline_armed);
}

#[test]
fn stale_timer_firings_change_nothing() {
    let mut p = ElectionState::new(1, vec![2, 3]);
    // Not a candidate: both candidate deadlines are stale.
    assert_eq!(p.step(Event::TimerFired(TimerKind::ElectionDeadline)), Vec::new());
    assert_eq!(p.step(Event::TimerFired(TimerKind::CoordinatorDeadline)), Vec::new());
    // Not a coordinator: the assertion interval is stale.
    assert_eq!(p.step(Event::TimerFired(TimerKind::AssertionInterval)), Vec::new());
    assert_eq!(p.current_role(), Role::Follower);
    assert!(p.heartbeat_deadline_armed);
}

#[test]
fn coordinator_reasserts_periodically() {
    let mut p = ElectionState::new(3, vec![1, 2]);
    p.step(Event::TimerFired(TimerKind::HeartbeatDeadline));
    assert_eq!(p.current_role(), Role::Coordinator);

    let out = p.step(Event::TimerFired(TimerKind::AssertionInterval));
    assert_eq!(out, vec![
        outgoing(1, MessageType::Coordinator),
        outgoing(2, MessageType::Coordinator),
    ]);
    assert_eq!(p.current_role(), Role::Coordinator);
}

#[test]
fn follower_accepts_any_coordinator_claim_and_rearms_heartbeat() {
    let mut p = ElectionState::new(2, vec![1, 3]);
    p.step(received(1, MessageType::Coordinator));
    assert_eq!(p.current_role(), Role::Follower);
    assert_eq!(p.current_coordinator(), Some(1));
    assert!(p.heartbeat_deadline_armed);
}
