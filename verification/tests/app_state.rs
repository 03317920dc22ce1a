use terra_link::app_state::{AppState, KeyInput};
use terra_link::bridge::{IpAddress, NetworkCommand, NetworkEvent};

fn connected(peer: &str) -> NetworkEvent {
    NetworkEvent::PeerConnected(peer.to_string(), IpAddress::V4(1, 2, 3, 4))
}

#[test]
fn auto_dial_idempotence() {
    // A discovered peer already in the known-peers set is not dialed again.
    let me = libp2p::PeerId::random().to_string();
    let known = libp2p::PeerId::random().to_string();
    let mut app = AppState::new();
    app.local_peer_id = Some(me);
    app.handle_network_event(connected(&known));
    assert_eq!(app.auto_dial(&known, &"/ip4/1.2.3.4/tcp/4001".to_string()), None);
}

#[test]
fn auto_dial_unknown_peer() {
    let me = libp2p::PeerId::random().to_string();
    let discovered = libp2p::PeerId::random().to_string();
    let mut app = AppState::new();
    app.local_peer_id = Some(me);
    app.handle_network_event(connected("someone else"));
    let addr = "/ip4/1.2.3.4/tcp/4001".to_string();
    assert_eq!(
        app.auto_dial(&discovered, &addr),
        Some(NetworkCommand::Dial(addr.clone()))
    );
}

#[test]
fn auto_dial_rejects_invalid_identity() {
    // A sender label that is no peer identity never triggers a dial, even
    // when unknown.
    let app = AppState::new();
    assert_eq!(
        app.auto_dial(&"not a peer id!!".to_string(), &"/ip4/1.2.3.4/tcp/4001".to_string()),
        None
    );
}

#[test]
fn auto_dial_skips_self() {
    let me = libp2p::PeerId::random().to_string();
    let mut app = AppState::new();
    app.local_peer_id = Some(me.clone());
    assert_eq!(app.auto_dial(&me, &"/ip4/1.2.3.4/tcp/4001".to_string()), None);
}

#[test]
fn listen_addresses_only_grow() {
    let mut app = AppState::new();
    app.handle_network_event(NetworkEvent::Listening("/ip4/1.1.1.1/tcp/1".to_string()));
    app.handle_network_event(NetworkEvent::Listening("/ip4/2.2.2.2/tcp/2".to_string()));
    app.handle_network_event(NetworkEvent::Listening("/ip4/1.1.1.1/tcp/1".to_string()));
    assert_eq!(
        app.listen_addrs,
        vec![
            "/ip4/1.1.1.1/tcp/1".to_string(),
            "/ip4/2.2.2.2/tcp/2".to_string(),
            "/ip4/1.1.1.1/tcp/1".to_string(),
        ]
    );
}

#[test]
fn peers_rebuilt_from_events() {
    let mut app = AppState::new();
    app.handle_network_event(connected("p1"));
    app.handle_network_event(connected("p2"));
    app.handle_network_event(connected("p1")); // duplicate: ignored
    assert_eq!(app.peers, vec!["p1".to_string(), "p2".to_string()]);
    app.handle_network_event(NetworkEvent::PeerDisconnected("p1".to_string()));
    assert_eq!(app.peers, vec!["p2".to_string()]);
    app.handle_network_event(NetworkEvent::PeerDisconnected("unknown".to_string()));
    assert_eq!(app.peers, vec!["p2".to_string()]);
}

#[test]
fn chat_history_is_bounded() {
    let mut app = AppState::new();
    for i in 0..105u32 {
        app.handle_network_event(NetworkEvent::MessageReceived {
            sender_id: "s".to_string(),
            text: format!("m{}", i),
        });
    }
    assert_eq!(app.chat_messages.len(), 100);
    assert_eq!(app.chat_messages[0].1, "m5".to_string());
    assert_eq!(app.chat_messages[99].1, "m104".to_string());
}

#[test]
fn discovery_and_errors_leave_state_alone() {
    let mut app = AppState::new();
    app.handle_network_event(NetworkEvent::PeerDiscovered(
        "xyz".to_string(),
        "/ip4/1.2.3.4/tcp/4001".to_string(),
    ));
    app.handle_network_event(NetworkEvent::Error("transient".to_string()));
    assert!(app.peers.is_empty());
    assert!(app.chat_messages.is_empty());
}

#[test]
fn nickname_prompt_flow() {
    let mut app = AppState::new();
    assert_eq!(app.handle_key(KeyInput::Char('z')), None);
    assert_eq!(app.handle_key(KeyInput::Char('o')), None);
    assert_eq!(app.handle_key(KeyInput::Backspace), None);
    for c in "orbital".chars() {
        app.handle_key(KeyInput::Char(c));
    }
    // The buffer is capped at eight characters.
    assert_eq!(app.nickname_buffer, "zorbital".to_string());
    app.handle_key(KeyInput::Char('x'));
    assert_eq!(app.nickname_buffer, "zorbital".to_string());
    assert_eq!(app.handle_key(KeyInput::Enter), None);
    assert!(app.boot_complete);
    assert_eq!(app.nickname, Some("zorbital".to_string()));
}

#[test]
fn nickname_is_trimmed() {
    let mut app = AppState::new();
    for c in " a ".chars() {
        app.handle_key(KeyInput::Char(c));
    }
    assert_eq!(app.handle_key(KeyInput::Enter), None);
    assert!(app.boot_complete);
    assert_eq!(app.nickname, Some("a".to_string()));
}

#[test]
fn whitespace_only_nickname_stays_unset() {
    let mut app = AppState::new();
    app.handle_key(KeyInput::Char(' '));
    app.handle_key(KeyInput::Char('\t'));
    app.handle_key(KeyInput::Char(' '));
    app.handle_key(KeyInput::Enter);
    assert!(app.boot_complete);
    assert_eq!(app.nickname, None);
}

#[test]
fn empty_nickname_stays_unset() {
    let mut app = AppState::new();
    app.handle_key(KeyInput::Enter);
    assert!(app.boot_complete);
    assert_eq!(app.nickname, None);
}

#[test]
fn chat_submit_publishes_under_display_name() {
    let mut app = AppState::new();
    app.handle_key(KeyInput::Enter); // leave boot prompt, no nickname
    app.handle_key(KeyInput::Enter); // enter chat input
    assert!(app.input_mode);
    for c in "hi".chars() {
        app.handle_key(KeyInput::Char(c));
    }
    let cmd = app.handle_key(KeyInput::Enter);
    assert_eq!(
        cmd,
        Some(NetworkCommand::PublishChat { sender_id: "Me".to_string(), text: "hi".to_string() })
    );
    assert!(!app.input_mode);
    assert_eq!(app.input_buffer, String::new());
    assert_eq!(app.chat_messages, vec![("Me".to_string(), "hi".to_string())]);
}

#[test]
fn empty_chat_submit_sends_nothing() {
    let mut app = AppState::new();
    app.handle_key(KeyInput::Enter);
    app.handle_key(KeyInput::Enter);
    assert_eq!(app.handle_key(KeyInput::Enter), None);
    assert!(app.chat_messages.is_empty());
}

#[test]
fn escape_abandons_input_then_quits() {
    let mut app = AppState::new();
    app.handle_key(KeyInput::Enter);
    app.handle_key(KeyInput::Enter);
    app.handle_key(KeyInput::Char('x'));
    assert_eq!(app.handle_key(KeyInput::Esc), None);
    assert!(!app.input_mode);
    assert_eq!(app.input_buffer, String::new());
    assert!(!app.should_quit);
    app.handle_key(KeyInput::Esc);
    assert!(app.should_quit);
}

#[test]
fn quit_key_outside_input_mode() {
    let mut app = AppState::new();
    app.handle_key(KeyInput::Enter);
    app.handle_key(KeyInput::Char('q'));
    assert!(app.should_quit);
}

#[test]
fn display_name_prefers_nickname_then_peer_tail() {
    let mut app = AppState::new();
    assert_eq!(app.display_name(), "Me".to_string());
    app.local_peer_id = Some("12D3KooWAbCdEfGh".to_string());
    assert_eq!(app.display_name(), "AbCdEfGh".to_string());
    app.local_peer_id = Some("short".to_string());
    assert_eq!(app.display_name(), "short".to_string());
    app.nickname = Some("zorbital".to_string());
    assert_eq!(app.display_name(), "zorbital".to_string());
}

#[test]
fn presence_needs_identity_and_addresses() {
    let mut app = AppState::new();
    assert_eq!(app.presence_command(), None);
    app.local_peer_id = Some("me".to_string());
    assert_eq!(app.presence_command(), None);
    app.handle_network_event(NetworkEvent::Listening("/ip4/1.1.1.1/tcp/1".to_string()));
    assert_eq!(
        app.presence_command(),
        Some(NetworkCommand::BroadcastPresence {
            sender_id: "me".to_string(),
            listen_addrs: vec!["/ip4/1.1.1.1/tcp/1".to_string()],
        })
    );
}

#[test]
fn tick_advances_and_wraps() {
    let mut app = AppState::new();
    app.tick();
    assert_eq!(app.tick_count, 1);
    app.tick_count = u64::MAX;
    app.tick();
    assert_eq!(app.tick_count, 0);
}
