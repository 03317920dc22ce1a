//! Wire envelope for the shared pub/sub topic.
//!
//! Every payload published on the topic is one `NetworkMessage`, serialized
//! in a protocol-buffers style binary form: a message is a sequence of
//! fields, each field a varint key `field_number * 8 + wire_type` followed by
//! a varint (wire type 0) or a length-prefixed byte string (wire type 2).
//! The envelope is a tagged union: field 1 holds a chat payload, field 2 a
//! presence payload; the last recognized field wins. Unknown fields are
//! skipped, so an envelope carrying only variants from a future revision
//! decodes to a recognizable "no known variant" outcome instead of an error.

use vstd::prelude::*;

verus! {

use vstd::utf8::{encode_utf8, decode_utf8, valid_utf8};

/// A decoded or to-be-encoded message on the shared topic.
#[derive(Debug, Clone, PartialEq, Eq)]
pub enum NetworkMessage {
    Chat { sender_id: String, text: String, timestamp_millis: u64 },
    Presence { sender_id: String, listen_addrs: Vec<String>, timestamp_millis: u64 },
}

/// Mathematical model of a message: strings as character sequences.
pub enum MessageModel {
    Chat { sender_id: Seq<char>, text: Seq<char>, timestamp_millis: u64 },
    Presence { sender_id: Seq<char>, listen_addrs: Seq<Seq<char>>, timestamp_millis: u64 },
}

impl View for NetworkMessage {
    type V = MessageModel;

    open spec fn view(&self) -> MessageModel {
        match self {
            NetworkMessage::Chat { sender_id, text, timestamp_millis } => MessageModel::Chat {
                sender_id: sender_id@,
                text: text@,
                timestamp_millis: *timestamp_millis,
            },
            NetworkMessage::Presence { sender_id, listen_addrs, timestamp_millis } => MessageModel::Presence {
                sender_id: sender_id@,
                listen_addrs: listen_addrs.deep_view(),
                timestamp_millis: *timestamp_millis,
            },
        }
    }
}

/// Malformed input: a truncated field, an overlong varint, a length running
/// past the end, an unsupported wire type, or an invalid UTF-8 string field.
#[derive(Debug, Clone, Copy, PartialEq, Eq)]
pub struct DecodeError;

/// Little-endian base-128 encoding: seven value bits per byte, the high bit
/// set on every byte but the last.
pub open spec fn varint(n: nat) -> Seq<u8>
    decreases n,
{
    if n < 128 {
        seq![n as u8]
    } else {
        seq![((n % 128) + 128) as u8] + varint(n / 128)
    }
}

/// Reads a varint from `bytes` inside `[pos, end)`; yields the (unbounded)
/// value and the position after it.
pub open spec fn parse_varint_at(bytes: Seq<u8>, pos: int, end: int) -> Option<(nat, int)>
    decreases end - pos,
{
    if pos < 0 || pos >= end || end > bytes.len() {
        None
    } else {
        let b = bytes[pos];
        if b < 128 {
            Some((b as nat, pos + 1))
        } else {
            match parse_varint_at(bytes, pos + 1, end) {
                Some((v, p)) => Some((((b - 128) as nat + 128 * v) as nat, p)),
                None => None,
            }
        }
    }
}

/// [`parse_varint_at`], restricted to values that fit in a `u64`; larger
/// values are a decode error.
pub open spec fn parse_varint64_at(bytes: Seq<u8>, pos: int, end: int) -> Option<(u64, int)> {
    match parse_varint_at(bytes, pos, end) {
        Some((v, p)) => if v <= u64::MAX { Some((v as u64, p)) } else { None },
        None => None,
    }
}

/// Appends `varint(n)` to `out`.
fn encode_varint(n: u64, out: &mut Vec<u8>)
    ensures
        final(out)@ == old(out)@ + varint(n as nat),
    decreases n,
{
    if n < 128 {
        out.push(n as u8);
        assert(out@ =~= old(out)@ + varint(n as nat));
    } else {
        out.push(((n % 128) + 128) as u8);
        encode_varint(n / 128, out);
        assert(out@ =~= old(out)@ + varint(n as nat));
    }
}

/// Reads a varint from `bytes` inside `[pos, end)`, rejecting values that
/// exceed `u64::MAX`.
fn parse_varint(bytes: &Vec<u8>, pos: usize, end: usize) -> (r: Result<(u64, usize), DecodeError>)
    requires
        pos <= end,
        end <= bytes@.len(),
    ensures
        match r {
            Ok((v, p)) => parse_varint64_at(bytes@, pos as int, end as int) == Some((v, p as int))
                && pos < p <= end,
            Err(_) => parse_varint64_at(bytes@, pos as int, end as int) is None,
        },
    decreases end - pos,
{
    if pos >= end {
        return Err(DecodeError);
    }
    let b = bytes[pos];
    if b < 128 {
        Ok((b as u64, pos + 1))
    } else {
        match parse_varint(bytes, pos + 1, end) {
            Ok((v, p)) => {
                match v.checked_mul(128) {
                    Some(m) => match m.checked_add((b - 128) as u64) {
                        Some(val) => Ok((val, p)),
                        None => Err(DecodeError),
                    },
                    None => Err(DecodeError),
                }
            }
            Err(e) => {
                proof {
                    // A suffix too large for u64 makes the whole value too large.
                    if let Some((v, _)) = parse_varint_at(bytes@, pos + 1, end as int) {
                        assert((b - 128) as nat + 128 * v > u64::MAX);
                    }
                }
                Err(e)
            }
        }
    }
}

/// Field key for `field` with wire type `wire`.
pub open spec fn key(field: nat, wire: nat) -> nat {
    field * 8 + wire
}

/// A length-delimited field: key, payload length, payload bytes.
pub open spec fn bytes_field(field: nat, payload: Seq<u8>) -> Seq<u8> {
    varint(key(field, 2)) + varint(payload.len()) + payload
}

/// A string field, omitted when the string is empty.
pub open spec fn str_field_opt(field: nat, s: Seq<char>) -> Seq<u8> {
    if s.len() == 0 {
        Seq::empty()
    } else {
        bytes_field(field, encode_utf8(s))
    }
}

/// A varint field, omitted when the value is zero.
pub open spec fn varint_field_opt(field: nat, v: u64) -> Seq<u8> {
    if v == 0 {
        Seq::empty()
    } else {
        varint(key(field, 0)) + varint(v as nat)
    }
}

/// The repeated listen-address field of a presence payload: one
/// length-delimited field per entry, in order, empty entries included.
pub open spec fn addr_fields(addrs: Seq<Seq<char>>) -> Seq<u8>
    decreases addrs.len(),
{
    if addrs.len() == 0 {
        Seq::empty()
    } else {
        bytes_field(2, encode_utf8(addrs[0])) + addr_fields(addrs.drop_first())
    }
}

/// Chat payload: sender (1), text (2), timestamp (3).
pub open spec fn chat_payload(sender: Seq<char>, text: Seq<char>, ts: u64) -> Seq<u8> {
    str_field_opt(1, sender) + str_field_opt(2, text) + varint_field_opt(3, ts)
}

/// Presence payload: sender (1), listen addresses (2, repeated), timestamp (3).
pub open spec fn presence_payload(sender: Seq<char>, addrs: Seq<Seq<char>>, ts: u64) -> Seq<u8> {
    str_field_opt(1, sender) + addr_fields(addrs) + varint_field_opt(3, ts)
}

/// The full envelope: one length-delimited field holding the payload,
/// field 1 for chat, field 2 for presence.
pub open spec fn encoded(m: MessageModel) -> Seq<u8> {
    match m {
        MessageModel::Chat { sender_id, text, timestamp_millis } => bytes_field(
            1,
            chat_payload(sender_id, text, timestamp_millis),
        ),
        MessageModel::Presence { sender_id, listen_addrs, timestamp_millis } => bytes_field(
            2,
            presence_payload(sender_id, listen_addrs, timestamp_millis),
        ),
    }
}

/// Position after a field of wire type `wire` starting (after its key) at
/// `pos`; `None` when the field is truncated or the wire type unsupported.
pub open spec fn skip_field_at(bytes: Seq<u8>, pos: int, end: int, wire: nat) -> Option<int> {
    if wire == 0 {
        match parse_varint64_at(bytes, pos, end) {
            Some((_, p)) => Some(p),
            None => None,
        }
    } else if wire == 1 {
        if pos + 8 <= end {
            Some(pos + 8)
        } else {
            None
        }
    } else if wire == 2 {
        match parse_len_at(bytes, pos, end) {
            Some((_, stop)) => Some(stop),
            None => None,
        }
    } else if wire == 5 {
        if pos + 4 <= end {
            Some(pos + 4)
        } else {
            None
        }
    } else {
        None
    }
}

/// Bounds of a length-delimited payload whose length varint starts at `pos`:
/// `Some((start, stop))` when the payload lies inside `[pos, end)`.
pub open spec fn parse_len_at(bytes: Seq<u8>, pos: int, end: int) -> Option<(int, int)> {
    match parse_varint64_at(bytes, pos, end) {
        Some((l, p)) => if p + l <= end {
            Some((p, p + l))
        } else {
            None
        },
        None => None,
    }
}

/// Reads the fields of a chat payload in `[pos, end)` over accumulated
/// values; a later occurrence of a field replaces an earlier one.
pub open spec fn parse_chat_at(
    bytes: Seq<u8>,
    pos: int,
    end: int,
    sender: Seq<char>,
    text: Seq<char>,
    ts: u64,
) -> Option<(Seq<char>, Seq<char>, u64)>
    decreases end - pos,
{
    if pos == end {
        Some((sender, text, ts))
    } else if pos > end {
        None
    } else {
        match parse_varint64_at(bytes, pos, end) {
            None => None,
            Some((k, p)) => {
                let field = k as nat / 8;
                let wire = k as nat % 8;
                if field == 1 || field == 2 {
                    if wire != 2 {
                        None
                    } else {
                        match parse_len_at(bytes, p, end) {
                            None => None,
                            Some((start, stop)) => {
                                let sub = bytes.subrange(start, stop);
                                if valid_utf8(sub) && stop > pos {
                                    if field == 1 {
                                        parse_chat_at(bytes, stop, end, decode_utf8(sub), text, ts)
                                    } else {
                                        parse_chat_at(bytes, stop, end, sender, decode_utf8(sub), ts)
                                    }
                                } else {
                                    None
                                }
                            },
                        }
                    }
                } else if field == 3 {
                    if wire != 0 {
                        None
                    } else {
                        match parse_varint64_at(bytes, p, end) {
                            None => None,
                            Some((v, q)) => if q > pos && q <= end {
                                parse_chat_at(bytes, q, end, sender, text, v)
                            } else {
                                None
                            },
                        }
                    }
                } else if field == 0 {
                    None
                } else {
                    match skip_field_at(bytes, p, end, wire) {
                        None => None,
                        Some(q) => if q > pos && q <= end {
                            parse_chat_at(bytes, q, end, sender, text, ts)
                        } else {
                            None
                        },
                    }
                }
            },
        }
    }
}

/// Reads the fields of a presence payload in `[pos, end)`; each occurrence
/// of the repeated address field appends one entry.
pub open spec fn parse_presence_at(
    bytes: Seq<u8>,
    pos: int,
    end: int,
    sender: Seq<char>,
    addrs: Seq<Seq<char>>,
    ts: u64,
) -> Option<(Seq<char>, Seq<Seq<char>>, u64)>
    decreases end - pos,
{
    if pos == end {
        Some((sender, addrs, ts))
    } else if pos > end {
        None
    } else {
        match parse_varint64_at(bytes, pos, end) {
            None => None,
            Some((k, p)) => {
                let field = k as nat / 8;
                let wire = k as nat % 8;
                if field == 1 || field == 2 {
                    if wire != 2 {
                        None
                    } else {
                        match parse_len_at(bytes, p, end) {
                            None => None,
                            Some((start, stop)) => {
                                let sub = bytes.subrange(start, stop);
                                if valid_utf8(sub) && stop > pos {
                                    if field == 1 {
                                        parse_presence_at(bytes, stop, end, decode_utf8(sub), addrs, ts)
                                    } else {
                                        parse_presence_at(
                                            bytes,
                                            stop,
                                            end,
                                            sender,
                                            addrs.push(decode_utf8(sub)),
                                            ts,
                                        )
                                    }
                                } else {
                                    None
                                }
                            },
                        }
                    }
                } else if field == 3 {
                    if wire != 0 {
                        None
                    } else {
                        match parse_varint64_at(bytes, p, end) {
                            None => None,
                            Some((v, q)) => if q > pos && q <= end {
                                parse_presence_at(bytes, q, end, sender, addrs, v)
                            } else {
                                None
                            },
                        }
                    }
                } else if field == 0 {
                    None
                } else {
                    match skip_field_at(bytes, p, end, wire) {
                        None => None,
                        Some(q) => if q > pos && q <= end {
                            parse_presence_at(bytes, q, end, sender, addrs, ts)
                        } else {
                            None
                        },
                    }
                }
            },
        }
    }
}

/// Reads the envelope fields in `[pos, end)`; the last recognized variant
/// field wins, and `Some(None)` means the envelope held no recognized
/// variant.
pub open spec fn parse_message_at(
    bytes: Seq<u8>,
    pos: int,
    end: int,
    cur: Option<MessageModel>,
) -> Option<Option<MessageModel>>
    decreases end - pos,
{
    if pos == end {
        Some(cur)
    } else if pos > end {
        None
    } else {
        match parse_varint64_at(bytes, pos, end) {
            None => None,
            Some((k, p)) => {
                let field = k as nat / 8;
                let wire = k as nat % 8;
                if field == 1 || field == 2 {
                    if wire != 2 {
                        None
                    } else {
                        match parse_len_at(bytes, p, end) {
                            None => None,
                            Some((start, stop)) => if stop > pos {
                                if field == 1 {
                                    match parse_chat_at(bytes, start, stop, Seq::empty(), Seq::empty(), 0) {
                                        None => None,
                                        Some((s, t, v)) => parse_message_at(
                                            bytes,
                                            stop,
                                            end,
                                            Some(
                                                MessageModel::Chat {
                                                    sender_id: s,
                                                    text: t,
                                                    timestamp_millis: v,
                                                },
                                            ),
                                        ),
                                    }
                                } else {
                                    match parse_presence_at(bytes, start, stop, Seq::empty(), Seq::empty(), 0) {
                                        None => None,
                                        Some((s, a, v)) => parse_message_at(
                                            bytes,
                                            stop,
                                            end,
                                            Some(
                                                MessageModel::Presence {
                                                    sender_id: s,
                                                    listen_addrs: a,
                                                    timestamp_millis: v,
                                                },
                                            ),
                                        ),
                                    }
                                }
                            } else {
                                None
                            },
                        }
                    }
                } else if field == 0 {
                    None
                } else {
                    match skip_field_at(bytes, p, end, wire) {
                        None => None,
                        Some(q) => if q > pos && q <= end {
                            parse_message_at(bytes, q, end, cur)
                        } else {
                            None
                        },
                    }
                }
            },
        }
    }
}

/// What [`decode`] yields on `bytes`: `None` for malformed input,
/// `Some(None)` for an envelope without a recognized variant, and
/// `Some(Some(m))` for a recognized message.
pub open spec fn decoded(bytes: Seq<u8>) -> Option<Option<MessageModel>> {
    parse_message_at(bytes, 0, bytes.len() as int, None)
}

/// The model of an optional exec message.
pub open spec fn opt_model(m: Option<NetworkMessage>) -> Option<MessageModel> {
    match m {
        Some(msg) => Some(msg@),
        None => None,
    }
}

/// Relies on `String::from_utf8`: it succeeds exactly on valid UTF-8 input
/// and yields the string whose UTF-8 encoding is that input.
#[verifier::external_body]
fn string_from_utf8(bytes: Vec<u8>) -> (r: Option<String>)
    ensures
        r matches Some(s) ==> valid_utf8(bytes@) && s@ == decode_utf8(bytes@),
        valid_utf8(bytes@) ==> r is Some,
{
    match String::from_utf8(bytes) {
        Ok(s) => Some(s),
        Err(_) => None,
    }
}

/// Copies `bytes[start..stop]` into a fresh vector.
fn copy_range(bytes: &Vec<u8>, start: usize, stop: usize) -> (r: Vec<u8>)
    requires
        start <= stop,
        stop <= bytes@.len(),
    ensures
        r@ == bytes@.subrange(start as int, stop as int),
{
    let mut out: Vec<u8> = Vec::new();
    let mut i: usize = start;
    while i < stop
        invariant
            start <= i <= stop,
            stop <= bytes@.len(),
            out@ == bytes@.subrange(start as int, i as int),
        decreases stop - i,
    {
        out.push(bytes[i]);
        i = i + 1;
        assert(out@ =~= bytes@.subrange(start as int, i as int));
    }
    out
}

/// Reads the string payload in `bytes[start..stop]`; fails on invalid UTF-8.
fn read_string(bytes: &Vec<u8>, start: usize, stop: usize) -> (r: Result<String, DecodeError>)
    requires
        start <= stop,
        stop <= bytes@.len(),
    ensures
        ({
            let sub = bytes@.subrange(start as int, stop as int);
            match r {
                Ok(s) => valid_utf8(sub) && s@ == decode_utf8(sub),
                Err(_) => !valid_utf8(sub),
            }
        }),
{
    let sub = copy_range(bytes, start, stop);
    match string_from_utf8(sub) {
        Some(s) => Ok(s),
        None => Err(DecodeError),
    }
}

/// Position after a field of wire type `wire` whose body starts at `pos`.
fn skip_field(bytes: &Vec<u8>, pos: usize, end: usize, wire: u64) -> (r: Result<usize, DecodeError>)
    requires
        pos <= end,
        end <= bytes@.len(),
    ensures
        match r {
            Ok(q) => skip_field_at(bytes@, pos as int, end as int, wire as nat) == Some(q as int)
                && pos <= q <= end,
            Err(_) => skip_field_at(bytes@, pos as int, end as int, wire as nat) is None,
        },
{
    if wire == 0 {
        match parse_varint(bytes, pos, end) {
            Ok((_, q)) => Ok(q),
            Err(e) => Err(e),
        }
    } else if wire == 1 {
        if end - pos >= 8 {
            Ok(pos + 8)
        } else {
            Err(DecodeError)
        }
    } else if wire == 2 {
        match parse_len(bytes, pos, end) {
            Ok((_, stop)) => Ok(stop),
            Err(e) => Err(e),
        }
    } else if wire == 5 {
        if end - pos >= 4 {
            Ok(pos + 4)
        } else {
            Err(DecodeError)
        }
    } else {
        Err(DecodeError)
    }
}

/// Bounds of a length-delimited payload whose length varint starts at `pos`.
fn parse_len(bytes: &Vec<u8>, pos: usize, end: usize) -> (r: Result<(usize, usize), DecodeError>)
    requires
        pos <= end,
        end <= bytes@.len(),
    ensures
        match r {
            Ok((start, stop)) => parse_len_at(bytes@, pos as int, end as int)
                == Some((start as int, stop as int)) && pos < start <= stop <= end,
            Err(_) => parse_len_at(bytes@, pos as int, end as int) is None,
        },
{
    match parse_varint(bytes, pos, end) {
        Ok((l, p)) => {
            if l <= (end - p) as u64 {
                Ok((p, p + (l as usize)))
            } else {
                Err(DecodeError)
            }
        }
        Err(e) => Err(e),
    }
}

/// Reads the fields of a chat payload in `[pos, end)` over accumulators.
fn parse_chat(
    bytes: &Vec<u8>,
    pos: usize,
    end: usize,
    sender: String,
    text: String,
    ts: u64,
) -> (r: Result<(String, String, u64), DecodeError>)
    requires
        pos <= end,
        end <= bytes@.len(),
    ensures
        match r {
            Ok((s, t, v)) => parse_chat_at(bytes@, pos as int, end as int, sender@, text@, ts)
                == Some((s@, t@, v)),
            Err(_) => parse_chat_at(bytes@, pos as int, end as int, sender@, text@, ts) is None,
        },
    decreases end - pos,
{
    if pos == end {
        return Ok((sender, text, ts));
    }
    let (k, p) = match parse_varint(bytes, pos, end) {
        Ok(kp) => kp,
        Err(e) => {
            return Err(e);
        },
    };
    let field = k / 8;
    let wire = k % 8;
    if field == 1 || field == 2 {
        if wire != 2 {
            return Err(DecodeError);
        }
        let (start, stop) = match parse_len(bytes, p, end) {
            Ok(ss) => ss,
            Err(e) => {
                return Err(e);
            },
        };
        let s = match read_string(bytes, start, stop) {
            Ok(s) => s,
            Err(e) => {
                return Err(e);
            },
        };
        if field == 1 {
            parse_chat(bytes, stop, end, s, text, ts)
        } else {
            parse_chat(bytes, stop, end, sender, s, ts)
        }
    } else if field == 3 {
        if wire != 0 {
            return Err(DecodeError);
        }
        match parse_varint(bytes, p, end) {
            Ok((v, q)) => parse_chat(bytes, q, end, sender, text, v),
            Err(e) => Err(e),
        }
    } else if field == 0 {
        Err(DecodeError)
    } else {
        match skip_field(bytes, p, end, wire) {
            Ok(q) => {
                if q > pos {
                    parse_chat(bytes, q, end, sender, text, ts)
                } else {
                    Err(DecodeError)
                }
            }
            Err(e) => Err(e),
        }
    }
}

/// Reads the fields of a presence payload in `[pos, end)` over accumulators.
fn parse_presence(
    bytes: &Vec<u8>,
    pos: usize,
    end: usize,
    sender: String,
    addrs: Vec<String>,
    ts: u64,
) -> (r: Result<(String, Vec<String>, u64), DecodeError>)
    requires
        pos <= end,
        end <= bytes@.len(),
    ensures
        match r {
            Ok((s, a, v)) => parse_presence_at(
                bytes@,
                pos as int,
                end as int,
                sender@,
                addrs.deep_view(),
                ts,
            ) == Some((s@, a.deep_view(), v)),
            Err(_) => parse_presence_at(
                bytes@,
                pos as int,
                end as int,
                sender@,
                addrs.deep_view(),
                ts,
            ) is None,
        },
    decreases end - pos,
{
    if pos == end {
        return Ok((sender, addrs, ts));
    }
    let (k, p) = match parse_varint(bytes, pos, end) {
        Ok(kp) => kp,
        Err(e) => {
            return Err(e);
        },
    };
    let field = k / 8;
    let wire = k % 8;
    if field == 1 || field == 2 {
        if wire != 2 {
            return Err(DecodeError);
        }
        let (start, stop) = match parse_len(bytes, p, end) {
            Ok(ss) => ss,
            Err(e) => {
                return Err(e);
            },
        };
        let s = match read_string(bytes, start, stop) {
            Ok(s) => s,
            Err(e) => {
                return Err(e);
            },
        };
        if field == 1 {
            parse_presence(bytes, stop, end, s, addrs, ts)
        } else {
            let ghost prior = addrs.deep_view();
            let ghost sv = s@;
            let mut addrs = addrs;
            addrs.push(s);
            assert(addrs.deep_view() =~= prior.push(sv));
            parse_presence(bytes, stop, end, sender, addrs, ts)
        }
    } else if field == 3 {
        if wire != 0 {
            return Err(DecodeError);
        }
        match parse_varint(bytes, p, end) {
            Ok((v, q)) => parse_presence(bytes, q, end, sender, addrs, v),
            Err(e) => Err(e),
        }
    } else if field == 0 {
        Err(DecodeError)
    } else {
        match skip_field(bytes, p, end, wire) {
            Ok(q) => {
                if q > pos {
                    parse_presence(bytes, q, end, sender, addrs, ts)
                } else {
                    Err(DecodeError)
                }
            }
            Err(e) => Err(e),
        }
    }
}

/// Reads the envelope fields in `[pos, end)`; the last recognized variant
/// wins.
fn parse_message(
    bytes: &Vec<u8>,
    pos: usize,
    end: usize,
    cur: Option<NetworkMessage>,
) -> (r: Result<Option<NetworkMessage>, DecodeError>)
    requires
        pos <= end,
        end <= bytes@.len(),
    ensures
        match r {
            Ok(m) => parse_message_at(bytes@, pos as int, end as int, opt_model(cur))
                == Some(opt_model(m)),
            Err(_) => parse_message_at(bytes@, pos as int, end as int, opt_model(cur)) is None,
        },
    decreases end - pos,
{
    if pos == end {
        return Ok(cur);
    }
    let (k, p) = match parse_varint(bytes, pos, end) {
        Ok(kp) => kp,
        Err(e) => {
            return Err(e);
        },
    };
    let field = k / 8;
    let wire = k % 8;
    if field == 1 || field == 2 {
        if wire != 2 {
            return Err(DecodeError);
        }
        let (start, stop) = match parse_len(bytes, p, end) {
            Ok(ss) => ss,
            Err(e) => {
                return Err(e);
            },
        };
        if field == 1 {
            match parse_chat(bytes, start, stop, String::new(), String::new(), 0) {
                Ok((s, t, v)) => parse_message(
                    bytes,
                    stop,
                    end,
                    Some(NetworkMessage::Chat { sender_id: s, text: t, timestamp_millis: v }),
                ),
                Err(e) => Err(e),
            }
        } else {
            let no_addrs: Vec<String> = Vec::new();
            assert(no_addrs.deep_view() =~= Seq::<Seq<char>>::empty());
            match parse_presence(bytes, start, stop, String::new(), no_addrs, 0) {
                Ok((s, a, v)) => parse_message(
                    bytes,
                    stop,
                    end,
                    Some(
                        NetworkMessage::Presence {
                            sender_id: s,
                            listen_addrs: a,
                            timestamp_millis: v,
                        },
                    ),
                ),
                Err(e) => Err(e),
            }
        }
    } else if field == 0 {
        Err(DecodeError)
    } else {
        match skip_field(bytes, p, end, wire) {
            Ok(q) => {
                if q > pos {
                    parse_message(bytes, q, end, cur)
                } else {
                    Err(DecodeError)
                }
            }
            Err(e) => Err(e),
        }
    }
}

/// Appends all of `data` to `out`.
fn push_bytes(out: &mut Vec<u8>, data: &Vec<u8>)
    ensures
        final(out)@ == old(out)@ + data@,
{
    let mut i: usize = 0;
    while i < data.len()
        invariant
            i <= data@.len(),
            out@ == old(out)@ + data@.subrange(0, i as int),
        decreases data@.len() - i,
    {
        out.push(data[i]);
        i = i + 1;
        assert(out@ =~= old(out)@ + data@.subrange(0, i as int));
    }
    assert(out@ =~= old(out)@ + data@);
}

/// Appends a length-delimited field holding the UTF-8 bytes of `s`.
fn push_str_entry(out: &mut Vec<u8>, field: u64, s: &String)
    requires
        1 <= field <= 7,
    ensures
        final(out)@ == old(out)@ + bytes_field(field as nat, encode_utf8(s@)),
{
    let b = s.as_str().as_bytes_vec();
    encode_varint(field * 8 + 2, out);
    encode_varint(b.len() as u64, out);
    push_bytes(out, &b);
    assert(out@ =~= old(out)@ + bytes_field(field as nat, encode_utf8(s@)));
}

/// Appends a string field, omitting it when the string is empty.
fn push_str_field(out: &mut Vec<u8>, field: u64, s: &String)
    requires
        1 <= field <= 7,
    ensures
        final(out)@ == old(out)@ + str_field_opt(field as nat, s@),
{
    if !s.as_str().is_empty() {
        push_str_entry(out, field, s);
    } else {
        assert(out@ =~= old(out)@ + str_field_opt(field as nat, s@));
    }
}

/// Appends a varint field, omitting it when the value is zero.
fn push_varint_field(out: &mut Vec<u8>, field: u64, v: u64)
    requires
        1 <= field <= 7,
    ensures
        final(out)@ == old(out)@ + varint_field_opt(field as nat, v),
{
    if v != 0 {
        encode_varint(field * 8, out);
        encode_varint(v, out);
        assert(out@ =~= old(out)@ + varint_field_opt(field as nat, v));
    } else {
        assert(out@ =~= old(out)@ + varint_field_opt(field as nat, v));
    }
}

/// Appending one address extends the repeated field bytes at the end.
proof fn lemma_addr_fields_push(addrs: Seq<Seq<char>>, x: Seq<char>)
    ensures
        addr_fields(addrs.push(x)) == addr_fields(addrs) + bytes_field(2, encode_utf8(x)),
    decreases addrs.len(),
{
    if addrs.len() == 0 {
        assert(addrs.push(x)[0] == x);
        assert(addrs.push(x).drop_first() =~= Seq::<Seq<char>>::empty());
        assert(addr_fields(Seq::<Seq<char>>::empty()) == Seq::<u8>::empty());
        assert(addr_fields(addrs.push(x)) == bytes_field(2, encode_utf8(x))
            + addr_fields(addrs.push(x).drop_first()));
        assert(addr_fields(addrs.push(x)) =~= addr_fields(addrs) + bytes_field(2, encode_utf8(x)));
    } else {
        assert(addrs.push(x).drop_first() =~= addrs.drop_first().push(x));
        assert(addrs.push(x)[0] == addrs[0]);
        lemma_addr_fields_push(addrs.drop_first(), x);
        assert(addr_fields(addrs.push(x)) =~= addr_fields(addrs) + bytes_field(2, encode_utf8(x)));
    }
}

/// Serializes one envelope; the result is exactly [`encoded`] of the model.
pub fn encode(m: &NetworkMessage) -> (r: Vec<u8>)
    ensures
        r@ == encoded(m@),
{
    let mut payload: Vec<u8> = Vec::new();
    let field: u64 = match m {
        NetworkMessage::Chat { sender_id, text, timestamp_millis } => {
            push_str_field(&mut payload, 1, sender_id);
            push_str_field(&mut payload, 2, text);
            push_varint_field(&mut payload, 3, *timestamp_millis);
            assert(payload@ =~= chat_payload(sender_id@, text@, *timestamp_millis));
            1
        }
        NetworkMessage::Presence { sender_id, listen_addrs, timestamp_millis } => {
            push_str_field(&mut payload, 1, sender_id);
            let ghost base = payload@;
            let ghost addr_views = listen_addrs.deep_view();
            let mut i: usize = 0;
            while i < listen_addrs.len()
                invariant
                    i <= listen_addrs@.len(),
                    addr_views == listen_addrs.deep_view(),
                    payload@ == base + addr_fields(addr_views.take(i as int)),
                decreases listen_addrs@.len() - i,
            {
                push_str_entry(&mut payload, 2, &listen_addrs[i]);
                i = i + 1;
                proof {
                    assert(addr_views.take(i as int)
                        =~= addr_views.take(i as int - 1).push(addr_views[i as int - 1]));
                    lemma_addr_fields_push(addr_views.take(i as int - 1), addr_views[i as int - 1]);
                    assert(payload@ =~= base + addr_fields(addr_views.take(i as int)));
                }
            }
            assert(addr_views.take(listen_addrs@.len() as int) =~= addr_views);
            push_varint_field(&mut payload, 3, *timestamp_millis);
            assert(payload@ =~= presence_payload(sender_id@, addr_views, *timestamp_millis));
            2
        }
    };
    let mut out: Vec<u8> = Vec::new();
    encode_varint(field * 8 + 2, &mut out);
    encode_varint(payload.len() as u64, &mut out);
    push_bytes(&mut out, &payload);
    assert(out@ =~= encoded(m@));
    out
}

/// A varint embedded at `pos` parses back to the value it encodes.
proof fn lemma_parse_varint_of(bytes: Seq<u8>, pos: int, end: int, n: nat)
    requires
        0 <= pos,
        pos + varint(n).len() <= end,
        end <= bytes.len(),
        bytes.subrange(pos, pos + varint(n).len()) == varint(n),
    ensures
        parse_varint_at(bytes, pos, end) == Some((n, pos + varint(n).len())),
    decreases n,
{
    let v = varint(n);
    assert(bytes[pos] == v[0]);
    if n < 128 {
        assert(v.len() == 1);
        assert(bytes[pos] == n as u8);
    } else {
        let rest = varint(n / 128);
        assert(v == seq![((n % 128) + 128) as u8] + rest);
        assert(bytes[pos] == ((n % 128) + 128) as u8);
        assert(bytes[pos] >= 128);
        assert(bytes.subrange(pos + 1, pos + 1 + rest.len()) =~= rest) by {
            assert(forall|i: int|
                0 <= i < rest.len() ==> #[trigger] bytes.subrange(pos + 1, pos + 1 + rest.len())[i]
                    == bytes.subrange(pos, pos + v.len())[i + 1]);
        }
        lemma_parse_varint_of(bytes, pos + 1, end, n / 128);
        assert((bytes[pos] - 128) as nat + 128 * (n / 128) == n);
    }
}

/// The `u64` view of [`lemma_parse_varint_of`].
proof fn lemma_parse_varint64_of(bytes: Seq<u8>, pos: int, end: int, n: u64)
    requires
        0 <= pos,
        pos + varint(n as nat).len() <= end,
        end <= bytes.len(),
        bytes.subrange(pos, pos + varint(n as nat).len()) == varint(n as nat),
    ensures
        parse_varint64_at(bytes, pos, end) == Some((n, pos + varint(n as nat).len())),
{
    lemma_parse_varint_of(bytes, pos, end, n as nat);
}

/// A region splits into its two subranges at any midpoint.
proof fn lemma_subrange_split(s: Seq<u8>, pos: int, mid: int, end: int)
    requires
        0 <= pos <= mid <= end <= s.len(),
    ensures
        s.subrange(pos, end) == s.subrange(pos, mid) + s.subrange(mid, end),
{
    assert(s.subrange(pos, end) =~= s.subrange(pos, mid) + s.subrange(mid, end));
}

/// Two equal concatenations with equally long heads have equal parts.
proof fn lemma_cat_split(a: Seq<u8>, b: Seq<u8>, c: Seq<u8>, d: Seq<u8>)
    requires
        a + b == c + d,
        a.len() == c.len(),
    ensures
        a == c,
        b == d,
{
    assert(forall|i: int| 0 <= i < a.len() ==> #[trigger] a[i] == (a + b)[i]);
    assert(forall|i: int| 0 <= i < c.len() ==> #[trigger] c[i] == (c + d)[i]);
    assert(forall|i: int| 0 <= i < b.len() ==> #[trigger] b[i] == (a + b)[a.len() + i]);
    assert(forall|i: int| 0 <= i < d.len() ==> #[trigger] d[i] == (c + d)[a.len() + i]);
    assert((a + b).len() == (c + d).len());
    assert(a =~= c);
    assert(a + b == a + d);
    a.lemma_concat_injective(b, d);
}

/// Every varint takes at least one byte.
proof fn lemma_varint_len(n: nat)
    ensures
        varint(n).len() >= 1,
{
}

/// A region that is a trailing timestamp field parses to that timestamp.
proof fn lemma_chat_ts(bytes: Seq<u8>, pos: int, end: int, s0: Seq<char>, t0: Seq<char>, ts: u64)
    requires
        0 <= pos <= end <= bytes.len(),
        bytes.subrange(pos, end) == varint_field_opt(3, ts),
    ensures
        parse_chat_at(bytes, pos, end, s0, t0, 0) == Some((s0, t0, ts)),
{
    if ts == 0 {
        assert(bytes.subrange(pos, end).len() == end - pos);
        assert(pos == end);
    } else {
        let kv = varint(key(3, 0));
        let tv = varint(ts as nat);
        let region = bytes.subrange(pos, end);
        lemma_varint_len(ts as nat);
        assert(key(3, 0) == 24);
        assert(kv =~= seq![24u8]);
        assert(region == kv + tv);
        assert(region.len() == end - pos);
        assert((kv + tv).len() == 1 + tv.len());
        assert(end == pos + 1 + tv.len());
        lemma_subrange_split(bytes, pos, pos + 1, end);
        lemma_cat_split(bytes.subrange(pos, pos + 1), bytes.subrange(pos + 1, end), kv, tv);
        lemma_parse_varint64_of(bytes, pos, end, 24);
        lemma_parse_varint64_of(bytes, pos + 1, end, ts);
        assert(parse_chat_at(bytes, end, end, s0, t0, ts) == Some((s0, t0, ts)));
    }
}

/// A region of text field then timestamp field parses to those values.
proof fn lemma_chat_text(bytes: Seq<u8>, pos: int, end: int, s0: Seq<char>, t: Seq<char>, ts: u64)
    requires
        0 <= pos <= end <= bytes.len(),
        bytes.subrange(pos, end) == str_field_opt(2, t) + varint_field_opt(3, ts),
        encode_utf8(t).len() <= u64::MAX,
    ensures
        parse_chat_at(bytes, pos, end, s0, Seq::empty(), 0) == Some((s0, t, ts)),
{
    vstd::utf8::encode_utf8_valid_utf8(t);
    vstd::utf8::encode_utf8_decode_utf8(t);
    if t.len() == 0 {
        assert(bytes.subrange(pos, end) =~= varint_field_opt(3, ts));
        lemma_chat_ts(bytes, pos, end, s0, Seq::empty(), ts);
        assert(t =~= Seq::<char>::empty());
    } else {
        let pl = encode_utf8(t);
        let kv = varint(key(2, 2));
        let lv = varint(pl.len());
        let tail = varint_field_opt(3, ts);
        let region = bytes.subrange(pos, end);
        assert(key(2, 2) == 18);
        assert(kv =~= seq![18u8]);
        assert(region == (kv + lv + pl) + tail);
        assert(region =~= kv + (lv + (pl + tail)));
        assert(region.len() == end - pos);
        assert((kv + (lv + (pl + tail))).len() == 1 + lv.len() + pl.len() + tail.len());
        let m2 = pos + 1 + lv.len();
        let m3 = m2 + pl.len();
        assert(end == m3 + tail.len());
        lemma_subrange_split(bytes, pos, pos + 1, end);
        lemma_cat_split(
            bytes.subrange(pos, pos + 1),
            bytes.subrange(pos + 1, end),
            kv,
            lv + (pl + tail),
        );
        lemma_subrange_split(bytes, pos + 1, m2, end);
        lemma_cat_split(bytes.subrange(pos + 1, m2), bytes.subrange(m2, end), lv, pl + tail);
        lemma_subrange_split(bytes, m2, m3, end);
        lemma_cat_split(bytes.subrange(m2, m3), bytes.subrange(m3, end), pl, tail);
        lemma_parse_varint64_of(bytes, pos, end, 18);
        lemma_parse_varint_of(bytes, pos + 1, end, pl.len());
        assert(parse_varint64_at(bytes, pos + 1, end) == Some((pl.len() as u64, m2)));
        assert(parse_len_at(bytes, pos + 1, end) == Some((m2, m3)));
        lemma_chat_ts(bytes, m3, end, s0, t, ts);
        assert(decode_utf8(bytes.subrange(m2, m3)) == t);
        assert(valid_utf8(bytes.subrange(m2, m3)));
    }
}

/// A whole chat payload region parses to its three values.
proof fn lemma_chat_payload(bytes: Seq<u8>, pos: int, end: int, s: Seq<char>, t: Seq<char>, ts: u64)
    requires
        0 <= pos <= end <= bytes.len(),
        bytes.subrange(pos, end) == chat_payload(s, t, ts),
        encode_utf8(s).len() <= u64::MAX,
        encode_utf8(t).len() <= u64::MAX,
    ensures
        parse_chat_at(bytes, pos, end, Seq::empty(), Seq::empty(), 0) == Some((s, t, ts)),
{
    vstd::utf8::encode_utf8_valid_utf8(s);
    vstd::utf8::encode_utf8_decode_utf8(s);
    if s.len() == 0 {
        assert(bytes.subrange(pos, end) =~= str_field_opt(2, t) + varint_field_opt(3, ts));
        lemma_chat_text(bytes, pos, end, Seq::empty(), t, ts);
        assert(s =~= Seq::<char>::empty());
    } else {
        let pl = encode_utf8(s);
        let kv = varint(key(1, 2));
        let lv = varint(pl.len());
        let tail = str_field_opt(2, t) + varint_field_opt(3, ts);
        let region = bytes.subrange(pos, end);
        assert(key(1, 2) == 10);
        assert(kv =~= seq![10u8]);
        assert(region == (kv + lv + pl) + tail);
        assert(region =~= kv + (lv + (pl + tail)));
        assert(region.len() == end - pos);
        assert((kv + (lv + (pl + tail))).len() == 1 + lv.len() + pl.len() + tail.len());
        let m2 = pos + 1 + lv.len();
        let m3 = m2 + pl.len();
        assert(end == m3 + tail.len());
        lemma_subrange_split(bytes, pos, pos + 1, end);
        lemma_cat_split(
            bytes.subrange(pos, pos + 1),
            bytes.subrange(pos + 1, end),
            kv,
            lv + (pl + tail),
        );
        lemma_subrange_split(bytes, pos + 1, m2, end);
        lemma_cat_split(bytes.subrange(pos + 1, m2), bytes.subrange(m2, end), lv, pl + tail);
        lemma_subrange_split(bytes, m2, m3, end);
        lemma_cat_split(bytes.subrange(m2, m3), bytes.subrange(m3, end), pl, tail);
        lemma_parse_varint64_of(bytes, pos, end, 10);
        lemma_parse_varint_of(bytes, pos + 1, end, pl.len());
        assert(parse_varint64_at(bytes, pos + 1, end) == Some((pl.len() as u64, m2)));
        assert(parse_len_at(bytes, pos + 1, end) == Some((m2, m3)));
        lemma_chat_text(bytes, m3, end, s, t, ts);
        assert(decode_utf8(bytes.subrange(m2, m3)) == s);
        assert(valid_utf8(bytes.subrange(m2, m3)));
    }
}

/// Like [`lemma_chat_ts`] for a presence payload.
proof fn lemma_presence_ts(
    bytes: Seq<u8>,
    pos: int,
    end: int,
    s0: Seq<char>,
    a0: Seq<Seq<char>>,
    ts: u64,
)
    requires
        0 <= pos <= end <= bytes.len(),
        bytes.subrange(pos, end) == varint_field_opt(3, ts),
    ensures
        parse_presence_at(bytes, pos, end, s0, a0, 0) == Some((s0, a0, ts)),
{
    if ts == 0 {
        assert(bytes.subrange(pos, end).len() == end - pos);
        assert(pos == end);
    } else {
        let kv = varint(key(3, 0));
        let tv = varint(ts as nat);
        let region = bytes.subrange(pos, end);
        lemma_varint_len(ts as nat);
        assert(key(3, 0) == 24);
        assert(kv =~= seq![24u8]);
        assert(region == kv + tv);
        assert(region.len() == end - pos);
        assert((kv + tv).len() == 1 + tv.len());
        assert(end == pos + 1 + tv.len());
        lemma_subrange_split(bytes, pos, pos + 1, end);
        lemma_cat_split(bytes.subrange(pos, pos + 1), bytes.subrange(pos + 1, end), kv, tv);
        lemma_parse_varint64_of(bytes, pos, end, 24);
        lemma_parse_varint64_of(bytes, pos + 1, end, ts);
        assert(parse_presence_at(bytes, end, end, s0, a0, ts) == Some((s0, a0, ts)));
    }
}

/// A region of repeated address fields then a timestamp field appends the
/// addresses in order.
proof fn lemma_presence_addrs(
    bytes: Seq<u8>,
    pos: int,
    end: int,
    s0: Seq<char>,
    acc: Seq<Seq<char>>,
    addrs: Seq<Seq<char>>,
    ts: u64,
)
    requires
        0 <= pos <= end <= bytes.len(),
        bytes.subrange(pos, end) == addr_fields(addrs) + varint_field_opt(3, ts),
        forall|i: int| 0 <= i < addrs.len() ==> #[trigger] encode_utf8(addrs[i]).len() <= u64::MAX,
    ensures
        parse_presence_at(bytes, pos, end, s0, acc, 0) == Some((s0, acc + addrs, ts)),
    decreases addrs.len(),
{
    if addrs.len() == 0 {
        assert(addr_fields(addrs) == Seq::<u8>::empty());
        assert(bytes.subrange(pos, end) =~= varint_field_opt(3, ts));
        lemma_presence_ts(bytes, pos, end, s0, acc, ts);
        assert(acc + addrs =~= acc);
    } else {
        let x = addrs[0];
        vstd::utf8::encode_utf8_valid_utf8(x);
        vstd::utf8::encode_utf8_decode_utf8(x);
        let pl = encode_utf8(x);
        let kv = varint(key(2, 2));
        let lv = varint(pl.len());
        let rest = addr_fields(addrs.drop_first());
        let tail = rest + varint_field_opt(3, ts);
        let region = bytes.subrange(pos, end);
        assert(key(2, 2) == 18);
        assert(kv =~= seq![18u8]);
        assert(addr_fields(addrs) == (kv + lv + pl) + rest);
        assert(region =~= kv + (lv + (pl + tail)));
        assert(region.len() == end - pos);
        assert((kv + (lv + (pl + tail))).len() == 1 + lv.len() + pl.len() + tail.len());
        let m2 = pos + 1 + lv.len();
        let m3 = m2 + pl.len();
        assert(end == m3 + tail.len());
        lemma_subrange_split(bytes, pos, pos + 1, end);
        lemma_cat_split(
            bytes.subrange(pos, pos + 1),
            bytes.subrange(pos + 1, end),
            kv,
            lv + (pl + tail),
        );
        lemma_subrange_split(bytes, pos + 1, m2, end);
        lemma_cat_split(bytes.subrange(pos + 1, m2), bytes.subrange(m2, end), lv, pl + tail);
        lemma_subrange_split(bytes, m2, m3, end);
        lemma_cat_split(bytes.subrange(m2, m3), bytes.subrange(m3, end), pl, tail);
        lemma_parse_varint64_of(bytes, pos, end, 18);
        lemma_parse_varint_of(bytes, pos + 1, end, pl.len());
        assert(parse_varint64_at(bytes, pos + 1, end) == Some((pl.len() as u64, m2)));
        assert(parse_len_at(bytes, pos + 1, end) == Some((m2, m3)));
        assert(forall|i: int|
            0 <= i < addrs.drop_first().len() ==> #[trigger] addrs.drop_first()[i] == addrs[i + 1]);
        lemma_presence_addrs(bytes, m3, end, s0, acc.push(x), addrs.drop_first(), ts);
        assert(decode_utf8(bytes.subrange(m2, m3)) == x);
        assert(valid_utf8(bytes.subrange(m2, m3)));
        assert(acc.push(x) + addrs.drop_first() =~= acc + addrs);
    }
}

/// A whole presence payload region parses to its three values.
proof fn lemma_presence_payload(
    bytes: Seq<u8>,
    pos: int,
    end: int,
    s: Seq<char>,
    addrs: Seq<Seq<char>>,
    ts: u64,
)
    requires
        0 <= pos <= end <= bytes.len(),
        bytes.subrange(pos, end) == presence_payload(s, addrs, ts),
        encode_utf8(s).len() <= u64::MAX,
        forall|i: int| 0 <= i < addrs.len() ==> #[trigger] encode_utf8(addrs[i]).len() <= u64::MAX,
    ensures
        parse_presence_at(bytes, pos, end, Seq::empty(), Seq::empty(), 0) == Some((s, addrs, ts)),
{
    vstd::utf8::encode_utf8_valid_utf8(s);
    vstd::utf8::encode_utf8_decode_utf8(s);
    if s.len() == 0 {
        assert(bytes.subrange(pos, end) =~= addr_fields(addrs) + varint_field_opt(3, ts));
        lemma_presence_addrs(bytes, pos, end, Seq::empty(), Seq::empty(), addrs, ts);
        assert(s =~= Seq::<char>::empty());
        assert(Seq::<Seq<char>>::empty() + addrs =~= addrs);
    } else {
        let pl = encode_utf8(s);
        let kv = varint(key(1, 2));
        let lv = varint(pl.len());
        let tail = addr_fields(addrs) + varint_field_opt(3, ts);
        let region = bytes.subrange(pos, end);
        assert(key(1, 2) == 10);
        assert(kv =~= seq![10u8]);
        assert(region == (kv + lv + pl) + tail);
        assert(region =~= kv + (lv + (pl + tail)));
        assert(region.len() == end - pos);
        assert((kv + (lv + (pl + tail))).len() == 1 + lv.len() + pl.len() + tail.len());
        let m2 = pos + 1 + lv.len();
        let m3 = m2 + pl.len();
        assert(end == m3 + tail.len());
        lemma_subrange_split(bytes, pos, pos + 1, end);
        lemma_cat_split(
            bytes.subrange(pos, pos + 1),
            bytes.subrange(pos + 1, end),
            kv,
            lv + (pl + tail),
        );
        lemma_subrange_split(bytes, pos + 1, m2, end);
        lemma_cat_split(bytes.subrange(pos + 1, m2), bytes.subrange(m2, end), lv, pl + tail);
        lemma_subrange_split(bytes, m2, m3, end);
        lemma_cat_split(bytes.subrange(m2, m3), bytes.subrange(m3, end), pl, tail);
        lemma_parse_varint64_of(bytes, pos, end, 10);
        lemma_parse_varint_of(bytes, pos + 1, end, pl.len());
        assert(parse_varint64_at(bytes, pos + 1, end) == Some((pl.len() as u64, m2)));
        assert(parse_len_at(bytes, pos + 1, end) == Some((m2, m3)));
        lemma_presence_addrs(bytes, m3, end, s, Seq::empty(), addrs, ts);
        assert(decode_utf8(bytes.subrange(m2, m3)) == s);
        assert(valid_utf8(bytes.subrange(m2, m3)));
        assert(Seq::<Seq<char>>::empty() + addrs =~= addrs);
    }
}

/// A message is well formed when its payload is small enough for its length
/// varints; every value built from executable strings and vectors is.
pub open spec fn model_wf(m: MessageModel) -> bool {
    match m {
        MessageModel::Chat { sender_id, text, timestamp_millis } => chat_payload(
            sender_id,
            text,
            timestamp_millis,
        ).len() <= u64::MAX,
        MessageModel::Presence { sender_id, listen_addrs, timestamp_millis } => presence_payload(
            sender_id,
            listen_addrs,
            timestamp_millis,
        ).len() <= u64::MAX,
    }
}

/// A message whose whole encoding fits the length bound is well formed: the
/// payload is never longer than the encoding that carries it. Every message
/// built from executable strings and vectors satisfies this, since its
/// encoding is an actual in-memory vector.
pub proof fn lemma_encodable_wf(m: MessageModel)
    requires
        encoded(m).len() <= u64::MAX,
    ensures
        model_wf(m),
{
    match m {
        MessageModel::Chat { sender_id, text, timestamp_millis } => {
            let pl = chat_payload(sender_id, text, timestamp_millis);
            assert(encoded(m).len() == varint(key(1, 2)).len() + varint(pl.len()).len()
                + pl.len());
        }
        MessageModel::Presence { sender_id, listen_addrs, timestamp_millis } => {
            let pl = presence_payload(sender_id, listen_addrs, timestamp_millis);
            assert(encoded(m).len() == varint(key(2, 2)).len() + varint(pl.len()).len()
                + pl.len());
        }
    }
}

/// Round-trip law: a well-formed message decodes from its own encoding.
pub proof fn lemma_round_trip(m: MessageModel)
    requires
        model_wf(m),
    ensures
        decoded(encoded(m)) == Some(Some(m)),
{
    let bytes = encoded(m);
    let end = bytes.len() as int;
    assert(bytes.subrange(0, end) =~= bytes);
    match m {
        MessageModel::Chat { sender_id, text, timestamp_millis } => {
            let pl = chat_payload(sender_id, text, timestamp_millis);
            let kv = varint(key(1, 2));
            let lv = varint(pl.len());
            assert(key(1, 2) == 10);
            assert(kv =~= seq![10u8]);
            assert(bytes == (kv + lv) + pl);
            assert(bytes =~= kv + (lv + pl));
            assert((kv + (lv + pl)).len() == 1 + lv.len() + pl.len());
            let m2: int = 1 + lv.len() as int;
            let m3: int = m2 + pl.len() as int;
            assert(end == m3);
            lemma_subrange_split(bytes, 0, 1, end);
            lemma_cat_split(bytes.subrange(0, 1), bytes.subrange(1, end), kv, lv + pl);
            lemma_subrange_split(bytes, 1, m2, end);
            lemma_cat_split(bytes.subrange(1, m2), bytes.subrange(m2, end), lv, pl);
            lemma_parse_varint64_of(bytes, 0, end, 10);
            lemma_parse_varint_of(bytes, 1, end, pl.len());
            assert(parse_varint64_at(bytes, 1, end) == Some((pl.len() as u64, m2)));
            assert(parse_len_at(bytes, 1, end) == Some((m2, m3)));
            assert(chat_payload(sender_id, text, timestamp_millis).len()
                == str_field_opt(1, sender_id).len() + str_field_opt(2, text).len()
                + varint_field_opt(3, timestamp_millis).len());
            assert(encode_utf8(sender_id).len() <= pl.len()) by {
                if sender_id.len() > 0 {
                    assert(str_field_opt(1, sender_id).len() == 1 + varint(
                        encode_utf8(sender_id).len(),
                    ).len() + encode_utf8(sender_id).len());
                } else {
                    vstd::utf8::encode_utf8_valid_utf8(sender_id);
                    assert(encode_utf8(sender_id) =~= Seq::<u8>::empty());
                }
            }
            assert(encode_utf8(text).len() <= pl.len()) by {
                if text.len() > 0 {
                    assert(str_field_opt(2, text).len() == 1 + varint(
                        encode_utf8(text).len(),
                    ).len() + encode_utf8(text).len());
                } else {
                    assert(encode_utf8(text) =~= Seq::<u8>::empty());
                }
            }
            lemma_chat_payload(bytes, m2, m3, sender_id, text, timestamp_millis);
            assert(parse_message_at(bytes, end, end, Some(m)) == Some(Some(m)));
        }
        MessageModel::Presence { sender_id, listen_addrs, timestamp_millis } => {
            let pl = presence_payload(sender_id, listen_addrs, timestamp_millis);
            let kv = varint(key(2, 2));
            let lv = varint(pl.len());
            assert(key(2, 2) == 18);
            assert(kv =~= seq![18u8]);
            assert(bytes == (kv + lv) + pl);
            assert(bytes =~= kv + (lv + pl));
            assert((kv + (lv + pl)).len() == 1 + lv.len() + pl.len());
            let m2: int = 1 + lv.len() as int;
            let m3: int = m2 + pl.len() as int;
            assert(end == m3);
            lemma_subrange_split(bytes, 0, 1, end);
            lemma_cat_split(bytes.subrange(0, 1), bytes.subrange(1, end), kv, lv + pl);
            lemma_subrange_split(bytes, 1, m2, end);
            lemma_cat_split(bytes.subrange(1, m2), bytes.subrange(m2, end), lv, pl);
            lemma_parse_varint64_of(bytes, 0, end, 18);
            lemma_parse_varint_of(bytes, 1, end, pl.len());
            assert(parse_varint64_at(bytes, 1, end) == Some((pl.len() as u64, m2)));
            assert(parse_len_at(bytes, 1, end) == Some((m2, m3)));
            assert(presence_payload(sender_id, listen_addrs, timestamp_millis).len()
                == str_field_opt(1, sender_id).len() + addr_fields(listen_addrs).len()
                + varint_field_opt(3, timestamp_millis).len());
            assert(encode_utf8(sender_id).len() <= pl.len()) by {
                if sender_id.len() > 0 {
                    assert(str_field_opt(1, sender_id).len() == 1 + varint(
                        encode_utf8(sender_id).len(),
                    ).len() + encode_utf8(sender_id).len());
                } else {
                    assert(encode_utf8(sender_id) =~= Seq::<u8>::empty());
                }
            }
            lemma_addr_entry_bound(listen_addrs, pl.len() as nat);
            lemma_presence_payload(bytes, m2, m3, sender_id, listen_addrs, timestamp_millis);
            assert(parse_message_at(bytes, end, end, Some(m)) == Some(Some(m)));
        }
    }
}

/// Each repeated address entry is no longer than the whole repeated field.
proof fn lemma_addr_entry_bound(addrs: Seq<Seq<char>>, bound: nat)
    requires
        addr_fields(addrs).len() <= bound,
    ensures
        forall|i: int| 0 <= i < addrs.len() ==> #[trigger] encode_utf8(addrs[i]).len() <= bound,
    decreases addrs.len(),
{
    if addrs.len() > 0 {
        let head = bytes_field(2, encode_utf8(addrs[0]));
        let rest = addr_fields(addrs.drop_first());
        assert(addr_fields(addrs) == head + rest);
        assert((head + rest).len() == head.len() + rest.len());
        assert(head.len() >= encode_utf8(addrs[0]).len());
        lemma_addr_entry_bound(addrs.drop_first(), bound);
        assert forall|i: int| 0 <= i < addrs.len() implies #[trigger] encode_utf8(addrs[i]).len()
            <= bound by {
            if i > 0 {
                assert(addrs[i] == addrs.drop_first()[i - 1]);
            }
        }
    }
}

/// Deserializes one envelope. `Ok(None)` reports an envelope that held no
/// recognized variant (a forward-compatibility outcome, not an error);
/// callers treat both `Ok(None)` and `Err` as "ignore this payload".
pub fn decode(bytes: &Vec<u8>) -> (r: Result<Option<NetworkMessage>, DecodeError>)
    ensures
        match r {
            Ok(m) => decoded(bytes@) == Some(opt_model(m)),
            Err(_) => decoded(bytes@) is None,
        },
{
    parse_message(bytes, 0, bytes.len(), None)
}

} // verus!

