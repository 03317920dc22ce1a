use terra_link::bridge::{IpAddress, NetworkCommand, NetworkEvent};
use terra_link::engine::{
    engine_step, events_for_payload, failure_event, AddrComponent, EngineInput, SubstrateAction,
    SubstrateEvent,
};
use terra_link::envelope::{decode, encode, NetworkMessage};

#[test]
fn publish_chat_round_trips_to_message_received() {
    // A published chat, decoded elsewhere, is observed as MessageReceived
    // with the same sender and text.
    let out = engine_step(
        EngineInput::Command(NetworkCommand::PublishChat {
            sender_id: "abc123".to_string(),
            text: "hello".to_string(),
        }),
        1000,
    );
    assert!(out.events.is_empty());
    assert!(!out.done);
    assert_eq!(out.actions.len(), 1);
    let data = match &out.actions[0] {
        SubstrateAction::Publish { data } => data.clone(),
        other => panic!("expected a publish action, got {:?}", other),
    };
    assert_eq!(
        decode(&data),
        Ok(Some(NetworkMessage::Chat {
            sender_id: "abc123".to_string(),
            text: "hello".to_string(),
            timestamp_millis: 1000,
        }))
    );
    let inbound = engine_step(
        EngineInput::Substrate(SubstrateEvent::TopicMessage { data }),
        9999,
    );
    assert_eq!(
        inbound.events,
        vec![NetworkEvent::MessageReceived {
            sender_id: "abc123".to_string(),
            text: "hello".to_string(),
        }]
    );
    assert!(inbound.actions.is_empty());
}

#[test]
fn presence_yields_one_discovery_per_address() {
    // Presence with one valid listen address: exactly one PeerDiscovered.
    let m = NetworkMessage::Presence {
        sender_id: "xyz".to_string(),
        listen_addrs: vec!["/ip4/1.2.3.4/tcp/4001".to_string()],
        timestamp_millis: 2000,
    };
    let events = events_for_payload(&encode(&m));
    assert_eq!(
        events,
        vec![NetworkEvent::PeerDiscovered(
            "xyz".to_string(),
            "/ip4/1.2.3.4/tcp/4001".to_string()
        )]
    );
}

#[test]
fn presence_filters_unparseable_addresses() {
    // Addresses the substrate's parser rejects yield no discovery; valid
    // ones still do, in order.
    let m = NetworkMessage::Presence {
        sender_id: "xyz".to_string(),
        listen_addrs: vec![
            "not an address".to_string(),
            "/ip4/5.6.7.8/tcp/4001".to_string(),
            "/ip4/5.6.7.8/tcp/not-a-port".to_string(),
        ],
        timestamp_millis: 0,
    };
    let events = events_for_payload(&encode(&m));
    assert_eq!(
        events,
        vec![NetworkEvent::PeerDiscovered(
            "xyz".to_string(),
            "/ip4/5.6.7.8/tcp/4001".to_string()
        )]
    );
}

#[test]
fn malformed_payload_is_dropped_silently() {
    assert_eq!(events_for_payload(&vec![0xFF, 0x00, 0x13]), Vec::new());
}

#[test]
fn shutdown_on_closed_command_channel() {
    // Sender dropped mid-loop: the engine finishes within this iteration
    // and issues nothing further.
    let out = engine_step(EngineInput::CommandChannelClosed, 123);
    assert!(out.done);
    assert!(out.events.is_empty());
    assert!(out.actions.is_empty());
}

#[test]
fn connection_events_translate() {
    let out = engine_step(
        EngineInput::Substrate(SubstrateEvent::ConnectionEstablished {
            peer_id: "peer1".to_string(),
            remote_address: vec![
                AddrComponent::Other,
                AddrComponent::Ip4(1, 2, 3, 4),
                AddrComponent::Other,
            ],
        }),
        0,
    );
    assert_eq!(
        out.events,
        vec![NetworkEvent::PeerConnected(
            "peer1".to_string(),
            IpAddress::V4(1, 2, 3, 4)
        )]
    );
    let closed = engine_step(
        EngineInput::Substrate(SubstrateEvent::ConnectionClosed { peer_id: "peer1".to_string() }),
        0,
    );
    assert_eq!(
        closed.events,
        vec![NetworkEvent::PeerDisconnected("peer1".to_string())]
    );
}

#[test]
fn connection_without_ip_is_not_reported() {
    let out = engine_step(
        EngineInput::Substrate(SubstrateEvent::ConnectionEstablished {
            peer_id: "peer2".to_string(),
            remote_address: vec![AddrComponent::Other, AddrComponent::Other],
        }),
        0,
    );
    assert!(out.events.is_empty());
}

#[test]
fn later_ip_component_wins() {
    let out = engine_step(
        EngineInput::Substrate(SubstrateEvent::ConnectionEstablished {
            peer_id: "peer3".to_string(),
            remote_address: vec![AddrComponent::Ip4(1, 1, 1, 1), AddrComponent::Ip6(7)],
        }),
        0,
    );
    assert_eq!(
        out.events,
        vec![NetworkEvent::PeerConnected("peer3".to_string(), IpAddress::V6(7))]
    );
}

#[test]
fn listening_translates() {
    let out = engine_step(
        EngineInput::Substrate(SubstrateEvent::NewListenAddr {
            address: "/ip4/0.0.0.0/tcp/4001".to_string(),
        }),
        0,
    );
    assert_eq!(
        out.events,
        vec![NetworkEvent::Listening("/ip4/0.0.0.0/tcp/4001".to_string())]
    );
}

#[test]
fn unrecognized_substrate_event_is_ignored() {
    let out = engine_step(EngineInput::Substrate(SubstrateEvent::Other), 0);
    assert!(out.events.is_empty());
    assert!(out.actions.is_empty());
    assert!(!out.done);
}

#[test]
fn reserve_appends_circuit_suffix() {
    let out = engine_step(
        EngineInput::Command(NetworkCommand::ReserveRelayCircuit(
            "/ip4/9.9.9.9/tcp/4001/p2p/QmRelay".to_string(),
        )),
        0,
    );
    assert_eq!(
        out.actions,
        vec![SubstrateAction::ListenOnCircuit {
            address: "/ip4/9.9.9.9/tcp/4001/p2p/QmRelay/p2p-circuit".to_string(),
        }]
    );
}

#[test]
fn listen_and_dial_commands_translate() {
    let listen = engine_step(
        EngineInput::Command(NetworkCommand::Listen("/ip4/0.0.0.0/tcp/0".to_string())),
        0,
    );
    assert_eq!(
        listen.actions,
        vec![SubstrateAction::Listen { address: "/ip4/0.0.0.0/tcp/0".to_string() }]
    );
    let dial = engine_step(
        EngineInput::Command(NetworkCommand::Dial("/ip4/8.8.8.8/tcp/4001".to_string())),
        0,
    );
    assert_eq!(
        dial.actions,
        vec![SubstrateAction::Dial { address: "/ip4/8.8.8.8/tcp/4001".to_string() }]
    );
}

#[test]
fn broadcast_presence_round_trips() {
    let out = engine_step(
        EngineInput::Command(NetworkCommand::BroadcastPresence {
            sender_id: "me".to_string(),
            listen_addrs: vec!["/ip4/1.2.3.4/tcp/4001".to_string()],
        }),
        2000,
    );
    let data = match &out.actions[0] {
        SubstrateAction::Publish { data } => data.clone(),
        other => panic!("expected a publish action, got {:?}", other),
    };
    assert_eq!(
        decode(&data),
        Ok(Some(NetworkMessage::Presence {
            sender_id: "me".to_string(),
            listen_addrs: vec!["/ip4/1.2.3.4/tcp/4001".to_string()],
            timestamp_millis: 2000,
        }))
    );
}

#[test]
fn failure_events_name_the_target() {
    let listen = SubstrateAction::Listen { address: "/ip4/1.1.1.1/tcp/1".to_string() };
    assert_eq!(
        failure_event(&listen, "boom"),
        Some(NetworkEvent::Error("Listen error on /ip4/1.1.1.1/tcp/1: boom".to_string()))
    );
    let dial = SubstrateAction::Dial { address: "/dns4/x/tcp/1".to_string() };
    assert_eq!(
        failure_event(&dial, "no route"),
        Some(NetworkEvent::Error("Dial error for /dns4/x/tcp/1: no route".to_string()))
    );
    let reserve = SubstrateAction::ListenOnCircuit { address: "/p2p/Qm/p2p-circuit".to_string() };
    assert_eq!(
        failure_event(&reserve, "denied"),
        Some(NetworkEvent::Error(
            "Relay Reservation error for /p2p/Qm/p2p-circuit: denied".to_string()
        ))
    );
    let publish = SubstrateAction::Publish { data: vec![1, 2, 3] };
    assert_eq!(failure_event(&publish, "no peers"), None);
}
