use terra_link::bridge::NetworkCommand;
use terra_link::sequencer::RelaySequencer;

const RELAY: &str = "/ip4/46.62.175.35/tcp/4001/p2p/QmRelay";

#[test]
fn relay_sequencing_full_walk() {
    // No listener yet: the sequencer first requests an ephemeral one, then
    // dials the relay, and only reserves the circuit once the grace period
    // has elapsed since the dial.
    let mut seq = RelaySequencer::new(RELAY.to_string(), 2000, false);
    assert_eq!(
        seq.poll(0),
        Some(NetworkCommand::Listen("/ip4/0.0.0.0/tcp/0".to_string()))
    );
    assert_eq!(seq.poll(10), Some(NetworkCommand::Dial(RELAY.to_string())));
    assert_eq!(seq.poll(20), None);
    assert_eq!(seq.poll(100), None);
    assert_eq!(seq.poll(2009), None); // dial was at 10; 2010 is the earliest
    assert_eq!(
        seq.poll(2010),
        Some(NetworkCommand::ReserveRelayCircuit(RELAY.to_string()))
    );
    assert_eq!(seq.poll(10_000), None); // terminal: one-shot
}

#[test]
fn relay_sequencing_existing_listener() {
    // With a listener already up, no ephemeral listen is requested.
    let mut seq = RelaySequencer::new(RELAY.to_string(), 500, true);
    assert_eq!(seq.poll(0), None);
    assert_eq!(seq.poll(1), Some(NetworkCommand::Dial(RELAY.to_string())));
    assert_eq!(seq.poll(2), None);
    assert_eq!(seq.poll(500), None);
    assert_eq!(
        seq.poll(501),
        Some(NetworkCommand::ReserveRelayCircuit(RELAY.to_string()))
    );
}

#[test]
fn relay_sequencing_never_early() {
    // Polling hard before the grace period never yields the reservation.
    let mut seq = RelaySequencer::new(RELAY.to_string(), 2000, true);
    assert_eq!(seq.poll(0), None);
    assert_eq!(seq.poll(0), Some(NetworkCommand::Dial(RELAY.to_string())));
    assert_eq!(seq.poll(0), None);
    for now in 0..2000u64 {
        assert_eq!(seq.poll(now), None);
    }
    assert_eq!(
        seq.poll(2000),
        Some(NetworkCommand::ReserveRelayCircuit(RELAY.to_string()))
    );
}
