//! The network engine's translation step.
//!
//! The engine owns the networking substrate and runs one loop that races two
//! sources of work: substrate events and queued commands. Each iteration
//! handles exactly one ready input. This module is that iteration's decision
//! logic as a pure step: from one input (and the wall clock, for timestamped
//! publishes) to the bridge events to emit and the substrate actions to
//! perform. The surrounding loop only performs the actions, forwards the
//! events, and feeds failures back through [`failure_event`].

use vstd::prelude::*;

verus! {

use crate::bridge::{IpAddress, NetworkCommand, NetworkEvent};
use crate::envelope::{self, MessageModel, NetworkMessage};

/// One protocol component of a parsed multiaddress, reduced to what the
/// engine reads: the network-layer address, everything else opaque.
#[derive(Debug, Clone, Copy, PartialEq, Eq)]
pub enum AddrComponent {
    Ip4(u8, u8, u8, u8),
    Ip6(u128),
    Other,
}

/// A substrate-originated event, reduced to plain values. `Other` is the
/// deliberate catch-all: tracking more sub-protocols never requires a new
/// bridge event.
#[derive(Debug, Clone, PartialEq, Eq)]
pub enum SubstrateEvent {
    NewListenAddr { address: String },
    ConnectionEstablished { peer_id: String, remote_address: Vec<AddrComponent> },
    ConnectionClosed { peer_id: String },
    /// An inbound delivery on the shared pub/sub topic.
    TopicMessage { data: Vec<u8> },
    Other,
}

/// An operation for the loop to invoke on the substrate.
#[derive(Debug, Clone, PartialEq, Eq)]
pub enum SubstrateAction {
    Listen { address: String },
    Dial { address: String },
    /// Listen on a relayed address (the address already carries the circuit
    /// suffix): this is how a circuit reservation is requested.
    ListenOnCircuit { address: String },
    /// Publish an encoded envelope on the shared topic (fire-and-forget).
    Publish { data: Vec<u8> },
}

/// What the engine's selection point yielded this iteration.
#[derive(Debug, Clone, PartialEq, Eq)]
pub enum EngineInput {
    Substrate(SubstrateEvent),
    Command(NetworkCommand),
    /// The command queue's sending half was dropped: the shutdown signal.
    CommandChannelClosed,
}

/// What one iteration decided: events to forward, actions to perform, and
/// whether the loop is done.
#[derive(Debug, Clone, PartialEq, Eq)]
pub struct StepOutcome {
    pub events: Vec<NetworkEvent>,
    pub actions: Vec<SubstrateAction>,
    pub done: bool,
}

/// Spec-level model of a bridge event, strings as character sequences.
pub enum EventModel {
    Listening(Seq<char>),
    PeerConnected(Seq<char>, IpAddress),
    PeerDisconnected(Seq<char>),
    MessageReceived { sender_id: Seq<char>, text: Seq<char> },
    PeerDiscovered(Seq<char>, Seq<char>),
    Error(Seq<char>),
}

impl View for NetworkEvent {
    type V = EventModel;

    open spec fn view(&self) -> EventModel {
        match self {
            NetworkEvent::Listening(a) => EventModel::Listening(a@),
            NetworkEvent::PeerConnected(p, ip) => EventModel::PeerConnected(p@, *ip),
            NetworkEvent::PeerDisconnected(p) => EventModel::PeerDisconnected(p@),
            NetworkEvent::MessageReceived { sender_id, text } => EventModel::MessageReceived {
                sender_id: sender_id@,
                text: text@,
            },
            NetworkEvent::PeerDiscovered(p, a) => EventModel::PeerDiscovered(p@, a@),
            NetworkEvent::Error(m) => EventModel::Error(m@),
        }
    }
}

/// The models of a vector of bridge events, in order.
pub open spec fn events_view(v: Seq<NetworkEvent>) -> Seq<EventModel> {
    v.map(|i: int, e: NetworkEvent| e@)
}

/// Whether a string parses as a multiaddress; the parse is a function of the
/// characters alone.
pub uninterp spec fn multiaddr_ok(s: Seq<char>) -> bool;

/// Relies on libp2p's multiaddress parser (`Multiaddr::from_str`): whether a
/// string parses is determined by its characters alone.
#[verifier::external_body]
fn multiaddr_check(s: &str) -> (r: bool)
    ensures
        r == multiaddr_ok(s@),
{
    s.parse::<libp2p::Multiaddr>().is_ok()
}

/// The last network-layer component of a remote address, the way the engine
/// reports a connected peer: later components override earlier ones.
pub open spec fn last_ip(parts: Seq<AddrComponent>) -> Option<IpAddress>
    decreases parts.len(),
{
    if parts.len() == 0 {
        None
    } else {
        match parts[parts.len() - 1] {
            AddrComponent::Ip4(a, b, c, d) => Some(IpAddress::V4(a, b, c, d)),
            AddrComponent::Ip6(x) => Some(IpAddress::V6(x)),
            AddrComponent::Other => last_ip(parts.drop_last()),
        }
    }
}

/// Extracts the remote IP from the components of a remote address.
pub fn remote_ip(parts: &Vec<AddrComponent>) -> (r: Option<IpAddress>)
    ensures
        r == last_ip(parts@),
{
    let mut found: Option<IpAddress> = None;
    let mut i: usize = 0;
    while i < parts.len()
        invariant
            i <= parts@.len(),
            found == last_ip(parts@.take(i as int)),
        decreases parts@.len() - i,
    {
        match parts[i] {
            AddrComponent::Ip4(a, b, c, d) => {
                found = Some(IpAddress::V4(a, b, c, d));
            }
            AddrComponent::Ip6(x) => {
                found = Some(IpAddress::V6(x));
            }
            AddrComponent::Other => {}
        }
        i = i + 1;
        proof {
            let taken = parts@.take(i as int);
            assert(taken.drop_last() =~= parts@.take(i as int - 1));
            assert(taken[taken.len() - 1] == parts@[i as int - 1]);
        }
    }
    proof {
        assert(parts@.take(parts@.len() as int) =~= parts@);
    }
    found
}

/// The discovery events a presence announcement yields: one per listed
/// address that parses as a multiaddress, in list order.
pub open spec fn discovered_events(sender: Seq<char>, addrs: Seq<Seq<char>>) -> Seq<EventModel>
    decreases addrs.len(),
{
    if addrs.len() == 0 {
        Seq::empty()
    } else {
        let head: Seq<EventModel> = if multiaddr_ok(addrs[0]) {
            seq![EventModel::PeerDiscovered(sender, addrs[0])]
        } else {
            Seq::empty()
        };
        head + discovered_events(sender, addrs.drop_first())
    }
}

/// The bridge events an inbound topic payload yields: a chat becomes one
/// received message, a presence one discovery per parseable address, and
/// anything malformed or unrecognized is silently dropped.
pub open spec fn payload_events(bytes: Seq<u8>) -> Seq<EventModel> {
    match envelope::decoded(bytes) {
        Some(Some(MessageModel::Chat { sender_id, text, .. })) => seq![
            EventModel::MessageReceived { sender_id, text },
        ],
        Some(Some(MessageModel::Presence { sender_id, listen_addrs, .. })) => discovered_events(
            sender_id,
            listen_addrs,
        ),
        _ => Seq::empty(),
    }
}

/// Appending one address extends the discovery events at the end.
proof fn lemma_discovered_push(sender: Seq<char>, addrs: Seq<Seq<char>>, x: Seq<char>)
    ensures
        discovered_events(sender, addrs.push(x)) == discovered_events(sender, addrs) + (
        if multiaddr_ok(x) {
            seq![EventModel::PeerDiscovered(sender, x)]
        } else {
            Seq::<EventModel>::empty()
        }),
    decreases addrs.len(),
{
    let tail: Seq<EventModel> = if multiaddr_ok(x) {
        seq![EventModel::PeerDiscovered(sender, x)]
    } else {
        Seq::empty()
    };
    if addrs.len() == 0 {
        assert(addrs.push(x)[0] == x);
        assert(addrs.push(x).drop_first() =~= Seq::<Seq<char>>::empty());
        assert(discovered_events(sender, Seq::<Seq<char>>::empty()) == Seq::<EventModel>::empty());
        assert(discovered_events(sender, addrs.push(x)) =~= discovered_events(sender, addrs)
            + tail);
    } else {
        assert(addrs.push(x)[0] == addrs[0]);
        assert(addrs.push(x).drop_first() =~= addrs.drop_first().push(x));
        lemma_discovered_push(sender, addrs.drop_first(), x);
        assert(discovered_events(sender, addrs.push(x)) =~= discovered_events(sender, addrs)
            + tail);
    }
}

/// Translates one inbound topic payload into bridge events.
pub fn events_for_payload(data: &Vec<u8>) -> (r: Vec<NetworkEvent>)
    ensures
        events_view(r@) == payload_events(data@),
{
    let mut out: Vec<NetworkEvent> = Vec::new();
    match envelope::decode(data) {
        Ok(Some(NetworkMessage::Chat { sender_id, text, .. })) => {
            out.push(NetworkEvent::MessageReceived { sender_id, text });
            assert(events_view(out@) =~= payload_events(data@));
        }
        Ok(Some(NetworkMessage::Presence { sender_id, listen_addrs, .. })) => {
            let ghost addr_views = listen_addrs.deep_view();
            let ghost sv = sender_id@;
            let mut i: usize = 0;
            while i < listen_addrs.len()
                invariant
                    i <= listen_addrs@.len(),
                    addr_views == listen_addrs.deep_view(),
                    sv == sender_id@,
                    events_view(out@) == discovered_events(sv, addr_views.take(i as int)),
                decreases listen_addrs@.len() - i,
            {
                let addr = &listen_addrs[i];
                if multiaddr_check(addr.as_str()) {
                    out.push(NetworkEvent::PeerDiscovered(sender_id.clone(), addr.clone()));
                }
                i = i + 1;
                proof {
                    assert(addr_views.take(i as int)
                        =~= addr_views.take(i as int - 1).push(addr_views[i as int - 1]));
                    lemma_discovered_push(sv, addr_views.take(i as int - 1), addr_views[i as int - 1]);
                    assert(events_view(out@) =~= discovered_events(sv, addr_views.take(i as int)));
                }
            }
            proof {
                assert(addr_views.take(listen_addrs@.len() as int) =~= addr_views);
            }
        }
        Ok(None) => {
            // An envelope without a recognized variant: forward compatibility,
            // dropped without an event.
            assert(events_view(out@) =~= payload_events(data@));
        }
        Err(_) => {
            // Malformed gossip from incompatible or misbehaving peers is
            // expected; it is dropped, never surfaced as an error event.
            assert(events_view(out@) =~= payload_events(data@));
        }
    }
    assert(events_view(out@) =~= payload_events(data@));
    out
}

/// One iteration of the engine loop: exactly one ready input, translated
/// into the events to forward and the actions to perform.
///
/// The loop is done exactly when the command queue's sending half was
/// dropped, and that final iteration emits nothing. Substrate events only
/// emit bridge events; commands only produce substrate actions, with
/// `now_millis` (wall-clock milliseconds since the epoch) stamped into
/// published envelopes.
pub fn engine_step(input: EngineInput, now_millis: u64) -> (r: StepOutcome)
    ensures
        r.done <==> input is CommandChannelClosed,
        input is CommandChannelClosed ==> r.events@ == Seq::<NetworkEvent>::empty()
            && r.actions@ == Seq::<SubstrateAction>::empty(),
        match input {
            EngineInput::Substrate(ev) => r.actions@ == Seq::<SubstrateAction>::empty() && match ev {
                SubstrateEvent::NewListenAddr { address } => r.events@ == seq![
                    NetworkEvent::Listening(address),
                ],
                SubstrateEvent::ConnectionEstablished { peer_id, remote_address } => r.events@
                    == match last_ip(remote_address@) {
                    Some(ip) => seq![NetworkEvent::PeerConnected(peer_id, ip)],
                    None => Seq::<NetworkEvent>::empty(),
                },
                SubstrateEvent::ConnectionClosed { peer_id } => r.events@ == seq![
                    NetworkEvent::PeerDisconnected(peer_id),
                ],
                SubstrateEvent::TopicMessage { data } => events_view(r.events@) == payload_events(
                    data@,
                ),
                SubstrateEvent::Other => r.events@ == Seq::<NetworkEvent>::empty(),
            },
            EngineInput::Command(cmd) => r.events@ == Seq::<NetworkEvent>::empty() && match cmd {
                NetworkCommand::Listen(a) => r.actions@ == seq![
                    SubstrateAction::Listen { address: a },
                ],
                NetworkCommand::Dial(a) => r.actions@ == seq![SubstrateAction::Dial { address: a }],
                NetworkCommand::ReserveRelayCircuit(a) => r.actions@.len() == 1 && (r.actions@[0]
                    matches SubstrateAction::ListenOnCircuit { address }
                    && address@ == a@ + "/p2p-circuit"@),
                NetworkCommand::PublishChat { sender_id, text } => r.actions@.len() == 1 && (
                r.actions@[0] matches SubstrateAction::Publish { data } && data@
                    == envelope::encoded(
                    MessageModel::Chat {
                        sender_id: sender_id@,
                        text: text@,
                        timestamp_millis: now_millis,
                    },
                )),
                NetworkCommand::BroadcastPresence { sender_id, listen_addrs } => r.actions@.len()
                    == 1 && (r.actions@[0] matches SubstrateAction::Publish { data } && data@
                    == envelope::encoded(
                    MessageModel::Presence {
                        sender_id: sender_id@,
                        listen_addrs: listen_addrs.deep_view(),
                        timestamp_millis: now_millis,
                    },
                )),
            },
            EngineInput::CommandChannelClosed => true,
        },
{
    let mut events: Vec<NetworkEvent> = Vec::new();
    let mut actions: Vec<SubstrateAction> = Vec::new();
    let mut done = false;
    match input {
        EngineInput::Substrate(ev) => {
            match ev {
                SubstrateEvent::NewListenAddr { address } => {
                    events.push(NetworkEvent::Listening(address));
                }
                SubstrateEvent::ConnectionEstablished { peer_id, remote_address } => {
                    match remote_ip(&remote_address) {
                        Some(ip) => {
                            events.push(NetworkEvent::PeerConnected(peer_id, ip));
                        }
                        None => {}
                    }
                }
                SubstrateEvent::ConnectionClosed { peer_id } => {
                    events.push(NetworkEvent::PeerDisconnected(peer_id));
                }
                SubstrateEvent::TopicMessage { data } => {
                    events = events_for_payload(&data);
                }
                SubstrateEvent::Other => {
                    // Deliberately ignored: unrecognized substrate events are
                    // for the log, never for the bridge.
                }
            }
        }
        EngineInput::Command(cmd) => {
            match cmd {
                NetworkCommand::Listen(a) => {
                    actions.push(SubstrateAction::Listen { address: a });
                }
                NetworkCommand::Dial(a) => {
                    actions.push(SubstrateAction::Dial { address: a });
                }
                NetworkCommand::ReserveRelayCircuit(a) => {
                    let mut address = a;
                    address.append("/p2p-circuit");
                    actions.push(SubstrateAction::ListenOnCircuit { address });
                }
                NetworkCommand::PublishChat { sender_id, text } => {
                    let data = envelope::encode(
                        &NetworkMessage::Chat { sender_id, text, timestamp_millis: now_millis },
                    );
                    actions.push(SubstrateAction::Publish { data });
                }
                NetworkCommand::BroadcastPresence { sender_id, listen_addrs } => {
                    let data = envelope::encode(
                        &NetworkMessage::Presence {
                            sender_id,
                            listen_addrs,
                            timestamp_millis: now_millis,
                        },
                    );
                    actions.push(SubstrateAction::Publish { data });
                }
            }
        }
        EngineInput::CommandChannelClosed => {
            done = true;
        }
    }
    StepOutcome { events, actions, done }
}

/// The event reported when the loop could not perform an action: listen,
/// dial and reservation failures surface as an error naming the target
/// address, while a publish failure is fire-and-forget (logged only).
pub fn failure_event(action: &SubstrateAction, err: &str) -> (r: Option<NetworkEvent>)
    ensures
        match action {
            SubstrateAction::Listen { address } => r matches Some(e) && e@ == EventModel::Error(
                "Listen error on "@ + address@ + ": "@ + err@,
            ),
            SubstrateAction::Dial { address } => r matches Some(e) && e@ == EventModel::Error(
                "Dial error for "@ + address@ + ": "@ + err@,
            ),
            SubstrateAction::ListenOnCircuit { address } => r matches Some(e) && e@
                == EventModel::Error("Relay Reservation error for "@ + address@ + ": "@ + err@),
            SubstrateAction::Publish { .. } => r is None,
        },
{
    match action {
        SubstrateAction::Listen { address } => {
            let mut m = "Listen error on ".to_owned();
            m.append(address.as_str());
            m.append(": ");
            m.append(err);
            Some(NetworkEvent::Error(m))
        }
        SubstrateAction::Dial { address } => {
            let mut m = "Dial error for ".to_owned();
            m.append(address.as_str());
            m.append(": ");
            m.append(err);
            Some(NetworkEvent::Error(m))
        }
        SubstrateAction::ListenOnCircuit { address } => {
            let mut m = "Relay Reservation error for ".to_owned();
            m.append(address.as_str());
            m.append(": ");
            m.append(err);
            Some(NetworkEvent::Error(m))
        }
        SubstrateAction::Publish { .. } => None,
    }
}

} // verus!
