//! Presentation-side application state.
//!
//! The known-peers set, the listen addresses and the chat history have no
//! source of truth other than the drained bridge events: only
//! [`AppState::handle_network_event`] mutates them, and the engine never
//! touches them. Key handling is the pure decision part of the input loop:
//! from one key and the current state to the next state and, on a chat
//! submit, the command to enqueue. The auto-dial policy for discovered peers
//! lives here too, next to the peer set it consults.

use vstd::prelude::*;

verus! {

use crate::bridge::{NetworkCommand, NetworkEvent};

/// Received chat lines kept, oldest dropped first.
pub const CHAT_HISTORY_LIMIT: usize = 100;

/// Longest nickname accepted at the boot prompt.
pub const NICKNAME_MAX: usize = 8;

/// One key press, reduced to what the state machine reads.
#[derive(Debug, Clone, Copy, PartialEq, Eq)]
pub enum KeyInput {
    Enter,
    Char(char),
    Backspace,
    Esc,
    Other,
}

/// The state the presentation loop owns.
pub struct AppState {
    pub should_quit: bool,
    pub local_peer_id: Option<String>,
    pub peers: Vec<String>,
    pub listen_addrs: Vec<String>,
    /// Chat lines as (sender label, text).
    pub chat_messages: Vec<(String, String)>,
    pub input_mode: bool,
    pub input_buffer: String,
    pub tick_count: u64,
    pub boot_complete: bool,
    pub nickname: Option<String>,
    pub nickname_buffer: String,
}

/// Mathematical model of the state, strings as character sequences.
pub struct AppModel {
    pub should_quit: bool,
    pub local_peer_id: Option<Seq<char>>,
    pub peers: Seq<Seq<char>>,
    pub listen_addrs: Seq<Seq<char>>,
    pub chat_messages: Seq<(Seq<char>, Seq<char>)>,
    pub input_mode: bool,
    pub input_buffer: Seq<char>,
    pub tick_count: u64,
    pub boot_complete: bool,
    pub nickname: Option<Seq<char>>,
    pub nickname_buffer: Seq<char>,
}

/// The model of an optional string.
pub open spec fn opt_str(o: Option<String>) -> Option<Seq<char>> {
    match o {
        Some(s) => Some(s@),
        None => None,
    }
}

impl View for AppState {
    type V = AppModel;

    open spec fn view(&self) -> AppModel {
        AppModel {
            should_quit: self.should_quit,
            local_peer_id: opt_str(self.local_peer_id),
            peers: self.peers.deep_view(),
            listen_addrs: self.listen_addrs.deep_view(),
            chat_messages: self.chat_messages@.map(|i: int, t: (String, String)| (t.0@, t.1@)),
            input_mode: self.input_mode,
            input_buffer: self.input_buffer@,
            tick_count: self.tick_count,
            boot_complete: self.boot_complete,
            nickname: opt_str(self.nickname),
            nickname_buffer: self.nickname_buffer@,
        }
    }
}

/// No peer identity appears twice in the known-peers set.
pub open spec fn distinct(peers: Seq<Seq<char>>) -> bool {
    forall|i: int, j: int| 0 <= i < j < peers.len() ==> peers[i] != peers[j]
}

/// `peers` with every occurrence of `p` removed, order kept.
pub open spec fn without(peers: Seq<Seq<char>>, p: Seq<char>) -> Seq<Seq<char>>
    decreases peers.len(),
{
    if peers.len() == 0 {
        Seq::empty()
    } else {
        (if peers[0] == p {
            Seq::empty()
        } else {
            seq![peers[0]]
        }) + without(peers.drop_first(), p)
    }
}

/// Everything in `without(peers, p)` came from `peers`.
proof fn lemma_without_subset(peers: Seq<Seq<char>>, p: Seq<char>, x: Seq<char>)
    requires
        without(peers, p).contains(x),
    ensures
        peers.contains(x),
    decreases peers.len(),
{
    if peers.len() > 0 {
        if peers[0] != p && x == peers[0] {
            assert(peers.contains(x)) by {
                assert(peers[0] == x);
            }
        } else {
            assert(without(peers.drop_first(), p).contains(x)) by {
                let head: Seq<Seq<char>> = if peers[0] == p {
                    Seq::empty()
                } else {
                    seq![peers[0]]
                };
                let k = choose|k: int|
                    0 <= k < without(peers, p).len() && without(peers, p)[k] == x;
                assert(without(peers, p)[k] == (head + without(peers.drop_first(), p))[k]);
            }
            lemma_without_subset(peers.drop_first(), p, x);
            let j = choose|j: int|
                0 <= j < peers.drop_first().len() && peers.drop_first()[j] == x;
            assert(peers[j + 1] == x);
        }
    }
}

/// Removing a peer keeps the set free of duplicates.
proof fn lemma_without_distinct(peers: Seq<Seq<char>>, p: Seq<char>)
    requires
        distinct(peers),
    ensures
        distinct(without(peers, p)),
    decreases peers.len(),
{
    if peers.len() > 0 {
        assert(forall|i: int|
            0 <= i < peers.drop_first().len() ==> #[trigger] peers.drop_first()[i] == peers[i + 1]);
        lemma_without_distinct(peers.drop_first(), p);
        if peers[0] != p {
            assert(!peers.drop_first().contains(peers[0])) by {
                if peers.drop_first().contains(peers[0]) {
                    let j = choose|j: int|
                        0 <= j < peers.drop_first().len() && peers.drop_first()[j] == peers[0];
                    assert(peers[j + 1] == peers[0]);
                }
            }
            if without(peers.drop_first(), p).contains(peers[0]) {
                lemma_without_subset(peers.drop_first(), p, peers[0]);
            }
            let w = without(peers, p);
            let rest = without(peers.drop_first(), p);
            assert(w == seq![peers[0]] + rest);
            assert(forall|i: int| 0 <= i < rest.len() ==> #[trigger] rest[i] == w[i + 1]);
            assert forall|i: int, j: int| 0 <= i < j < w.len() implies w[i] != w[j] by {
                if i == 0 {
                    assert(w[j] == rest[j - 1]);
                    assert(rest.contains(rest[j - 1]));
                }
            }
        }
    }
}

impl AppState {
    /// The known-peers set never holds a peer twice.
    pub open spec fn wf(&self) -> bool {
        distinct(self@.peers)
    }

    /// The label chat lines carry for this node: the nickname when one is
    /// set, else the tail of the peer identity, else a placeholder.
    pub open spec fn display_name_spec(&self) -> Seq<char> {
        match self@.nickname {
            Some(n) => n,
            None => match self@.local_peer_id {
                Some(p) => if p.len() > 8 {
                    p.subrange(p.len() - 8, p.len() as int)
                } else {
                    p
                },
                None => "Me"@,
            },
        }
    }

    /// Fresh state: nothing known, boot prompt showing.
    pub fn new() -> (r: Self)
        ensures
            r.wf(),
            r@ == (AppModel {
                should_quit: false,
                local_peer_id: None,
                peers: Seq::empty(),
                listen_addrs: Seq::empty(),
                chat_messages: Seq::empty(),
                input_mode: false,
                input_buffer: Seq::empty(),
                tick_count: 0,
                boot_complete: false,
                nickname: None,
                nickname_buffer: Seq::empty(),
            }),
    {
        let r = AppState {
            should_quit: false,
            local_peer_id: None,
            peers: Vec::new(),
            listen_addrs: Vec::new(),
            chat_messages: Vec::new(),
            input_mode: false,
            input_buffer: String::new(),
            tick_count: 0,
            boot_complete: false,
            nickname: None,
            nickname_buffer: String::new(),
        };
        proof {
            assert(r.peers.deep_view() =~= Seq::<Seq<char>>::empty());
            assert(r.listen_addrs.deep_view() =~= Seq::<Seq<char>>::empty());
            assert(r.chat_messages@.map(|i: int, t: (String, String)| (t.0@, t.1@))
                =~= Seq::<(Seq<char>, Seq<char>)>::empty());
        }
        r
    }

    /// One timer tick: the counter advances and wraps around at the top.
    pub fn tick(&mut self)
        ensures
            final(self)@ == (AppModel {
                tick_count: if old(self)@.tick_count == u64::MAX {
                    0u64
                } else {
                    (old(self)@.tick_count + 1) as u64
                },
                ..old(self)@
            }),
    {
        if self.tick_count == u64::MAX {
            self.tick_count = 0;
        } else {
            self.tick_count = self.tick_count + 1;
        }
    }

    /// Whether a peer identity is already in the known-peers set.
    pub fn knows_peer(&self, peer_id: &String) -> (r: bool)
        ensures
            r == self@.peers.contains(peer_id@),
    {
        let mut i: usize = 0;
        while i < self.peers.len()
            invariant
                i <= self.peers@.len(),
                forall|j: int| 0 <= j < i ==> self@.peers[j] != peer_id@,
            decreases self.peers@.len() - i,
        {
            let hit = self.peers[i] == *peer_id;
            assert(self@.peers[i as int] == self.peers@[i as int]@);
            if hit {
                return true;
            }
            i = i + 1;
        }
        proof {
            if self@.peers.contains(peer_id@) {
                let j = choose|j: int| 0 <= j < self@.peers.len() && self@.peers[j] == peer_id@;
            }
        }
        false
    }

    /// Folds one drained bridge event into the state: a new listen address
    /// is appended (the set only grows), a connection adds the peer unless
    /// already known, a disconnection removes it, a received message is
    /// appended to the bounded chat history, and discovery and error events
    /// leave the state untouched (they are display and policy input only).
    pub fn handle_network_event(&mut self, event: NetworkEvent)
        requires
            old(self).wf(),
        ensures
            final(self).wf(),
            match event {
                NetworkEvent::Listening(a) => final(self)@ == (AppModel {
                    listen_addrs: old(self)@.listen_addrs.push(a@),
                    ..old(self)@
                }),
                NetworkEvent::PeerConnected(p, _ip) => final(self)@ == (AppModel {
                    peers: if old(self)@.peers.contains(p@) {
                        old(self)@.peers
                    } else {
                        old(self)@.peers.push(p@)
                    },
                    ..old(self)@
                }),
                NetworkEvent::PeerDisconnected(p) => final(self)@ == (AppModel {
                    peers: without(old(self)@.peers, p@),
                    ..old(self)@
                }),
                NetworkEvent::MessageReceived { sender_id, text } => final(self)@ == (AppModel {
                    chat_messages: ({
                        let pushed = old(self)@.chat_messages.push((sender_id@, text@));
                        if pushed.len() > CHAT_HISTORY_LIMIT as int {
                            pushed.drop_first()
                        } else {
                            pushed
                        }
                    }),
                    ..old(self)@
                }),
                NetworkEvent::PeerDiscovered(_, _) => final(self)@ == old(self)@,
                NetworkEvent::Error(_) => final(self)@ == old(self)@,
            },
    {
        match event {
            NetworkEvent::Listening(a) => {
                self.listen_addrs.push(a);
                assert(self.listen_addrs.deep_view() =~= old(self)@.listen_addrs.push(
                    self.listen_addrs@.last()@,
                ));
            }
            NetworkEvent::PeerConnected(p, _ip) => {
                if !self.knows_peer(&p) {
                    let ghost pv = p@;
                    self.peers.push(p);
                    assert(self.peers.deep_view() =~= old(self)@.peers.push(pv));
                    assert(distinct(self@.peers)) by {
                        assert(forall|i: int|
                            0 <= i < old(self)@.peers.len() ==> #[trigger] old(self)@.peers[i]
                                != pv);
                    }
                }
            }
            NetworkEvent::PeerDisconnected(p) => {
                let ghost target = p@;
                let ghost prior = self@.peers;
                let mut kept: Vec<String> = Vec::new();
                let mut i: usize = 0;
                while i < self.peers.len()
                    invariant
                        i <= self.peers@.len(),
                        prior == self.peers.deep_view(),
                        target == p@,
                        kept.deep_view() == without(prior.take(i as int), target),
                    decreases self.peers@.len() - i,
                {
                    let keep = !(self.peers[i] == p);
                    assert(prior[i as int] == self.peers@[i as int]@);
                    let ghost before = kept.deep_view();
                    if keep {
                        kept.push(self.peers[i].clone());
                        assert(kept.deep_view() =~= before.push(prior[i as int]));
                    }
                    i = i + 1;
                    proof {
                        lemma_without_push(prior.take(i as int - 1), target, prior[i as int - 1]);
                        assert(prior.take(i as int)
                            =~= prior.take(i as int - 1).push(prior[i as int - 1]));
                        assert(kept.deep_view() =~= without(prior.take(i as int), target));
                    }
                }
                proof {
                    assert(prior.take(prior.len() as int) =~= prior);
                    lemma_without_distinct(prior, target);
                }
                self.peers = kept;
            }
            NetworkEvent::MessageReceived { sender_id, text } => {
                let ghost sv = sender_id@;
                let ghost tv = text@;
                let ghost prior = self@.chat_messages;
                self.chat_messages.push((sender_id, text));
                assert(self@.chat_messages =~= prior.push((sv, tv)));
                if self.chat_messages.len() > CHAT_HISTORY_LIMIT {
                    let ghost grown = self@.chat_messages;
                    let _ = self.chat_messages.remove(0);
                    assert(self@.chat_messages =~= grown.drop_first());
                }
            }
            NetworkEvent::PeerDiscovered(_, _) => {}
            NetworkEvent::Error(_) => {}
        }
    }
}

/// Whether a string parses as a peer identity; the parse is a function of
/// the characters alone.
pub uninterp spec fn peer_id_ok(s: Seq<char>) -> bool;

/// Relies on libp2p's peer identity parser (`PeerId::from_str`): whether a
/// string is a valid encoded peer identity is determined by its characters
/// alone.
#[verifier::external_body]
fn peer_id_check(s: &str) -> (r: bool)
    ensures
        r == peer_id_ok(s@),
{
    s.parse::<libp2p::PeerId>().is_ok()
}

/// What `str::trim` leaves: the characters without their leading and
/// trailing whitespace. Which characters count as whitespace is the Unicode
/// white-space property, a table too large to restate here, so the result is
/// named; it is a function of the characters alone.
pub uninterp spec fn trim_of(s: Seq<char>) -> Seq<char>;

/// Relies on `str::trim`: yields the input without leading and trailing
/// Unicode whitespace.
#[verifier::external_body]
fn trim_str<'a>(s: &'a str) -> (r: &'a str)
    ensures
        r@ == trim_of(s@),
{
    s.trim()
}

/// Relies on `String::push`: appends exactly the one character.
#[verifier::external_body]
fn push_char(s: &mut String, c: char)
    ensures
        final(s)@ == old(s)@.push(c),
{
    s.push(c);
}

/// Relies on `String::pop`: removes the last character, if there is one.
#[verifier::external_body]
fn pop_char(s: &mut String) -> (r: Option<char>)
    ensures
        old(s)@.len() == 0 ==> r is None && final(s)@ == old(s)@,
        old(s)@.len() > 0 ==> r == Some(old(s)@.last()) && final(s)@ == old(s)@.drop_last(),
{
    s.pop()
}

impl AppState {
    /// Whether a discovered peer should be dialed: a valid peer identity
    /// that is neither already known nor this node itself.
    pub open spec fn should_auto_dial(&self, sender: Seq<char>) -> bool {
        &&& peer_id_ok(sender)
        &&& !self@.peers.contains(sender)
        &&& match self@.local_peer_id {
            Some(me) => me != sender,
            None => true,
        }
    }

    /// The auto-dial policy for one discovery event: dial the announced
    /// address exactly when the announcing identity is valid, not in the
    /// known-peers set, and not this node. Duplicate dials to a peer that is
    /// connecting but not yet connected are left to the substrate to
    /// tolerate; this policy deduplicates only against the membership check.
    pub fn auto_dial(&self, sender_id: &String, address: &String) -> (r: Option<NetworkCommand>)
        ensures
            r is Some <==> self.should_auto_dial(sender_id@),
            r matches Some(c) ==> (c matches NetworkCommand::Dial(a) && a@ == address@),
    {
        if !peer_id_check(sender_id.as_str()) {
            return None;
        }
        if self.knows_peer(sender_id) {
            return None;
        }
        match &self.local_peer_id {
            Some(me) => {
                if *me == *sender_id {
                    return None;
                }
            }
            None => {}
        }
        Some(NetworkCommand::Dial(address.clone()))
    }

    /// The label this node's chat lines carry.
    pub fn display_name(&self) -> (r: String)
        ensures
            r@ == self.display_name_spec(),
    {
        match &self.nickname {
            Some(nick) => nick.clone(),
            None => match &self.local_peer_id {
                Some(p) => {
                    let n = p.as_str().unicode_len();
                    if n > 8 {
                        p.as_str().substring_char(n - 8, n).to_owned()
                    } else {
                        p.clone()
                    }
                }
                None => "Me".to_owned(),
            },
        }
    }

    /// The periodic presence announcement, when there is something to
    /// announce: this node's identity and every listen address gathered so
    /// far. Before the identity is known or an address exists, nothing is
    /// broadcast.
    pub fn presence_command(&self) -> (r: Option<NetworkCommand>)
        ensures
            r is Some <==> (self@.local_peer_id is Some && self@.listen_addrs.len() > 0),
            r matches Some(c) ==> (c matches NetworkCommand::BroadcastPresence {
                sender_id,
                listen_addrs,
            } && Some(sender_id@) == self@.local_peer_id && listen_addrs.deep_view()
                == self@.listen_addrs),
    {
        match &self.local_peer_id {
            Some(me) => {
                if self.listen_addrs.len() == 0 {
                    return None;
                }
                let mut addrs: Vec<String> = Vec::new();
                let mut i: usize = 0;
                while i < self.listen_addrs.len()
                    invariant
                        i <= self.listen_addrs@.len(),
                        addrs.deep_view() == self.listen_addrs.deep_view().take(i as int),
                    decreases self.listen_addrs@.len() - i,
                {
                    let ghost before = addrs.deep_view();
                    let ghost item = self.listen_addrs.deep_view()[i as int];
                    assert(item == self.listen_addrs@[i as int]@);
                    addrs.push(self.listen_addrs[i].clone());
                    i = i + 1;
                    proof {
                        assert(addrs.deep_view() =~= before.push(item));
                        assert(self.listen_addrs.deep_view().take(i as int)
                            =~= self.listen_addrs.deep_view().take(i as int - 1).push(item));
                    }
                }
                assert(addrs.deep_view() =~= self.listen_addrs.deep_view());
                Some(
                    NetworkCommand::BroadcastPresence {
                        sender_id: me.clone(),
                        listen_addrs: addrs,
                    },
                )
            }
            None => None,
        }
    }

    /// Folds one key press into the state and yields the command to
    /// enqueue, if this press submits a chat line.
    ///
    /// Before boot completes, keys edit the nickname prompt: printable input
    /// grows the buffer up to the limit, backspace shrinks it, and enter
    /// fixes the nickname as the trimmed buffer (left unset when nothing but
    /// whitespace was typed) and leaves the prompt. Afterwards, enter toggles into chat input; in chat input,
    /// enter submits a non-empty line (appending it locally under this
    /// node's label) and escape abandons it; outside it, `q` or escape asks
    /// to quit.
    pub fn handle_key(&mut self, key: KeyInput) -> (cmd: Option<NetworkCommand>)
        requires
            old(self).wf(),
        ensures
            final(self).wf(),
            !old(self)@.boot_complete ==> cmd is None && match key {
                KeyInput::Enter => final(self)@ == (AppModel {
                    nickname: if trim_of(old(self)@.nickname_buffer).len() == 0 {
                        None
                    } else {
                        Some(trim_of(old(self)@.nickname_buffer))
                    },
                    boot_complete: true,
                    ..old(self)@
                }),
                KeyInput::Char(c) => final(self)@ == (AppModel {
                    nickname_buffer: if old(self)@.nickname_buffer.len() < NICKNAME_MAX as int {
                        old(self)@.nickname_buffer.push(c)
                    } else {
                        old(self)@.nickname_buffer
                    },
                    ..old(self)@
                }),
                KeyInput::Backspace => final(self)@ == (AppModel {
                    nickname_buffer: if old(self)@.nickname_buffer.len() == 0 {
                        old(self)@.nickname_buffer
                    } else {
                        old(self)@.nickname_buffer.drop_last()
                    },
                    ..old(self)@
                }),
                _ => final(self)@ == old(self)@,
            },
            old(self)@.boot_complete && old(self)@.input_mode ==> match key {
                KeyInput::Enter => if old(self)@.input_buffer.len() == 0 {
                    cmd is None && final(self)@ == (AppModel {
                        input_mode: false,
                        input_buffer: Seq::empty(),
                        ..old(self)@
                    })
                } else {
                    (cmd matches Some(NetworkCommand::PublishChat { sender_id, text })
                        && sender_id@ == old(self).display_name_spec()
                        && text@ == old(self)@.input_buffer) && final(self)@ == (AppModel {
                        input_mode: false,
                        input_buffer: Seq::empty(),
                        chat_messages: old(self)@.chat_messages.push(
                            (old(self).display_name_spec(), old(self)@.input_buffer),
                        ),
                        ..old(self)@
                    })
                },
                KeyInput::Char(c) => cmd is None && final(self)@ == (AppModel {
                    input_buffer: old(self)@.input_buffer.push(c),
                    ..old(self)@
                }),
                KeyInput::Backspace => cmd is None && final(self)@ == (AppModel {
                    input_buffer: if old(self)@.input_buffer.len() == 0 {
                        old(self)@.input_buffer
                    } else {
                        old(self)@.input_buffer.drop_last()
                    },
                    ..old(self)@
                }),
                KeyInput::Esc => cmd is None && final(self)@ == (AppModel {
                    input_mode: false,
                    input_buffer: Seq::empty(),
                    ..old(self)@
                }),
                KeyInput::Other => cmd is None && final(self)@ == old(self)@,
            },
            old(self)@.boot_complete && !old(self)@.input_mode ==> cmd is None && match key {
                KeyInput::Char(c) => if c == 'q' {
                    final(self)@ == (AppModel { should_quit: true, ..old(self)@ })
                } else {
                    final(self)@ == old(self)@
                },
                KeyInput::Esc => final(self)@ == (AppModel { should_quit: true, ..old(self)@ }),
                KeyInput::Enter => final(self)@ == (AppModel { input_mode: true, ..old(self)@ }),
                _ => final(self)@ == old(self)@,
            },
    {
        if !self.boot_complete {
            match key {
                KeyInput::Enter => {
                    let t = trim_str(self.nickname_buffer.as_str());
                    if t.is_empty() {
                        self.nickname = None;
                    } else {
                        self.nickname = Some(t.to_owned());
                    }
                    self.boot_complete = true;
                }
                KeyInput::Char(c) => {
                    if self.nickname_buffer.as_str().unicode_len() < NICKNAME_MAX {
                        push_char(&mut self.nickname_buffer, c);
                    }
                }
                KeyInput::Backspace => {
                    let _ = pop_char(&mut self.nickname_buffer);
                }
                _ => {}
            }
            None
        } else if self.input_mode {
            match key {
                KeyInput::Enter => {
                    let msg = self.input_buffer.clone();
                    self.input_buffer = String::new();
                    self.input_mode = false;
                    if msg.as_str().is_empty() {
                        None
                    } else {
                        let me = self.display_name();
                        let ghost prior = self@.chat_messages;
                        self.chat_messages.push((me.clone(), msg.clone()));
                        assert(self@.chat_messages =~= prior.push((me@, msg@)));
                        Some(NetworkCommand::PublishChat { sender_id: me, text: msg })
                    }
                }
                KeyInput::Char(c) => {
                    push_char(&mut self.input_buffer, c);
                    None
                }
                KeyInput::Backspace => {
                    let _ = pop_char(&mut self.input_buffer);
                    None
                }
                KeyInput::Esc => {
                    self.input_mode = false;
                    self.input_buffer = String::new();
                    None
                }
                KeyInput::Other => None,
            }
        } else {
            match key {
                KeyInput::Char(c) => {
                    if c == 'q' {
                        self.should_quit = true;
                    }
                }
                KeyInput::Esc => {
                    self.should_quit = true;
                }
                KeyInput::Enter => {
                    self.input_mode = true;
                }
                _ => {}
            }
            None
        }
    }
}

/// Removing a peer from a longer prefix extends the kept items at the end
/// exactly when the new item is not the one removed.
proof fn lemma_without_push(peers: Seq<Seq<char>>, p: Seq<char>, x: Seq<char>)
    ensures
        without(peers.push(x), p) == without(peers, p) + (if x == p {
            Seq::<Seq<char>>::empty()
        } else {
            seq![x]
        }),
    decreases peers.len(),
{
    let tail: Seq<Seq<char>> = if x == p {
        Seq::empty()
    } else {
        seq![x]
    };
    if peers.len() == 0 {
        assert(peers.push(x)[0] == x);
        assert(peers.push(x).drop_first() =~= Seq::<Seq<char>>::empty());
        assert(without(Seq::<Seq<char>>::empty(), p) == Seq::<Seq<char>>::empty());
        assert(without(peers.push(x), p) =~= without(peers, p) + tail);
    } else {
        assert(peers.push(x)[0] == peers[0]);
        assert(peers.push(x).drop_first() =~= peers.drop_first().push(x));
        lemma_without_push(peers.drop_first(), p, x);
        assert(without(peers.push(x), p) =~= without(peers, p) + tail);
    }
}

} // verus!
