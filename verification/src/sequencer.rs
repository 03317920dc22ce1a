//! Relay bootstrap sequencer.
//!
//! Reserving a circuit on a relay fails unless the identity handshake with
//! the relay has completed first. This one-shot state machine enforces the
//! ordering: make sure a local listener exists (a reservation needs a socket
//! to hole-punch back to), dial the relay, then wait a fixed grace period —
//! an empirical stand-in for an explicit handshake-complete signal — before
//! issuing the reservation. The grace period is a constructor parameter, not
//! a constant, so a caller can tune it to its substrate's handshake latency;
//! the ordering contract on [`RelaySequencer::poll`] is the guarantee.

use vstd::prelude::*;

verus! {

use crate::bridge::NetworkCommand;

/// Where the bootstrap stands.
#[derive(Debug, Clone, Copy, PartialEq, Eq)]
pub enum SequencerState {
    /// The relay address is known; nothing has been issued yet.
    Idle,
    /// An ephemeral listener was requested if none existed.
    AwaitingListener,
    /// The dial of the relay has been issued.
    Dialing,
    /// Waiting out the handshake grace period.
    AwaitingHandshake,
    /// The reservation has been issued; terminal for this sequencer.
    ReservationRequested,
}

/// The one-shot timed state machine that orders relay bootstrap.
pub struct RelaySequencer {
    state: SequencerState,
    relay_address: String,
    grace_millis: u64,
    needs_listener: bool,
    dial_issued_at: Option<u64>,
}

impl RelaySequencer {
    /// The current state.
    pub closed spec fn state(&self) -> SequencerState {
        self.state
    }

    /// The relay address every issued command targets.
    pub closed spec fn relay(&self) -> Seq<char> {
        self.relay_address@
    }

    /// The configured handshake grace period, in milliseconds.
    pub closed spec fn grace(&self) -> u64 {
        self.grace_millis
    }

    /// Whether an ephemeral listener must be requested first.
    pub closed spec fn needs_listener(&self) -> bool {
        self.needs_listener
    }

    /// When the relay dial was issued, once it has been.
    pub closed spec fn dial_time(&self) -> Option<u64> {
        self.dial_issued_at
    }

    /// The dial timestamp is recorded exactly from the dial onward.
    pub closed spec fn wf(&self) -> bool {
        self.dial_issued_at is Some <==> !(self.state is Idle
            || self.state is AwaitingListener)
    }

    /// A sequencer for the given relay; `has_local_listener` says whether a
    /// listener already exists, and `grace_millis` how long after the dial
    /// the identity handshake is given to complete.
    pub fn new(relay_address: String, grace_millis: u64, has_local_listener: bool) -> (r: Self)
        ensures
            r.wf(),
            r.state() is Idle,
            r.relay() == relay_address@,
            r.grace() == grace_millis,
            r.needs_listener() == !has_local_listener,
            r.dial_time() is None,
    {
        RelaySequencer {
            state: SequencerState::Idle,
            relay_address,
            grace_millis,
            needs_listener: !has_local_listener,
            dial_issued_at: None,
        }
    }

    /// Advances the bootstrap by at most one step and yields the command to
    /// enqueue, if this step issues one.
    ///
    /// Relay sequencing guarantee: a `ReserveRelayCircuit` command comes out
    /// only from the handshake wait, only for the configured relay, and only
    /// once `now_millis` is at least the grace period after the instant the
    /// `Dial` was issued; the dial instant is stamped when the dial comes out
    /// and never changes afterward.
    pub fn poll(&mut self, now_millis: u64) -> (cmd: Option<NetworkCommand>)
        requires
            old(self).wf(),
        ensures
            final(self).wf(),
            final(self).relay() == old(self).relay(),
            final(self).grace() == old(self).grace(),
            final(self).needs_listener() == old(self).needs_listener(),
            (cmd matches Some(NetworkCommand::ReserveRelayCircuit(a)) ==> a@ == old(self).relay()
                && old(self).state() is AwaitingHandshake
                && (old(self).dial_time() matches Some(t) && now_millis >= t + old(self).grace())),
            match old(self).state() {
                SequencerState::Idle => final(self).state() is AwaitingListener && final(self).dial_time() == old(self).dial_time() && (if old(self).needs_listener() {
                    cmd matches Some(NetworkCommand::Listen(a)) && a@ == "/ip4/0.0.0.0/tcp/0"@
                } else {
                    cmd is None
                }),
                SequencerState::AwaitingListener => final(self).state() is Dialing && final(self).dial_time() == Some(now_millis) && (cmd matches Some(NetworkCommand::Dial(a))
                    && a@ == old(self).relay()),
                SequencerState::Dialing => final(self).state() is AwaitingHandshake && final(self).dial_time() == old(self).dial_time() && cmd is None,
                SequencerState::AwaitingHandshake => final(self).dial_time() == old(self).dial_time() && (old(self).dial_time() matches Some(t) && (if now_millis >= t
                    + old(self).grace() {
                    final(self).state() is ReservationRequested && (cmd matches
                    Some(NetworkCommand::ReserveRelayCircuit(a)) && a@ == old(self).relay())
                } else {
                    final(self).state() is AwaitingHandshake && cmd is None
                })),
                SequencerState::ReservationRequested => final(self).state()
                    is ReservationRequested && final(self).dial_time() == old(self).dial_time()
                    && cmd is None,
            },
    {
        match self.state {
            SequencerState::Idle => {
                self.state = SequencerState::AwaitingListener;
                if self.needs_listener {
                    Some(NetworkCommand::Listen("/ip4/0.0.0.0/tcp/0".to_owned()))
                } else {
                    None
                }
            }
            SequencerState::AwaitingListener => {
                self.state = SequencerState::Dialing;
                self.dial_issued_at = Some(now_millis);
                Some(NetworkCommand::Dial(self.relay_address.clone()))
            }
            SequencerState::Dialing => {
                self.state = SequencerState::AwaitingHandshake;
                None
            }
            SequencerState::AwaitingHandshake => {
                let t = match self.dial_issued_at {
                    Some(t) => t,
                    None => {
                        return None;
                    },
                };
                if now_millis >= t && now_millis - t >= self.grace_millis {
                    self.state = SequencerState::ReservationRequested;
                    Some(NetworkCommand::ReserveRelayCircuit(self.relay_address.clone()))
                } else {
                    None
                }
            }
            SequencerState::ReservationRequested => None,
        }
    }
}

} // verus!
