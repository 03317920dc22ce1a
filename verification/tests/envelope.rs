use terra_link::envelope::{decode, encode, NetworkMessage};

fn chat(sender: &str, text: &str, ts: u64) -> NetworkMessage {
    NetworkMessage::Chat {
        sender_id: sender.to_string(),
        text: text.to_string(),
        timestamp_millis: ts,
    }
}

fn presence(sender: &str, addrs: &[&str], ts: u64) -> NetworkMessage {
    NetworkMessage::Presence {
        sender_id: sender.to_string(),
        listen_addrs: addrs.iter().map(|a| a.to_string()).collect(),
        timestamp_millis: ts,
    }
}

#[test]
fn round_trip_chat() {
    let m = chat("abc123", "hello", 1000);
    let bytes = encode(&m);
    assert_eq!(decode(&bytes), Ok(Some(m)));
}

#[test]
fn round_trip_chat_edge_values() {
    for m in [
        chat("", "", 0),
        chat("", "only text", 0),
        chat("only sender", "", u64::MAX),
        chat("Ünïcødé ✓", "émojis 🌍 and ümlauts", 1_700_000_000_000),
    ] {
        let bytes = encode(&m);
        assert_eq!(decode(&bytes), Ok(Some(m)));
    }
}

#[test]
fn round_trip_presence() {
    let m = presence(
        "xyz",
        &["/ip4/1.2.3.4/tcp/4001", "/ip6/::1/tcp/4001", ""],
        2000,
    );
    let bytes = encode(&m);
    assert_eq!(decode(&bytes), Ok(Some(m)));
}

#[test]
fn round_trip_presence_empty() {
    let m = presence("", &[], 0);
    let bytes = encode(&m);
    assert_eq!(decode(&bytes), Ok(Some(m)));
}

#[test]
fn exact_chat_encoding() {
    // Envelope: field 1, length 10; sender "a" (field 1), text "b" (field 2),
    // timestamp 1 (field 3).
    let m = chat("a", "b", 1);
    assert_eq!(
        encode(&m),
        vec![0x0A, 8, 0x0A, 1, b'a', 0x12, 1, b'b', 0x18, 1]
    );
}

#[test]
fn exact_encoding_omits_defaults() {
    // Empty strings and a zero timestamp are omitted: the payload is empty.
    let m = chat("", "", 0);
    assert_eq!(encode(&m), vec![0x0A, 0]);
}

#[test]
fn varint_boundary_timestamps() {
    for ts in [127, 128, 300, 16383, 16384, u64::MAX] {
        let m = chat("s", "t", ts);
        let bytes = encode(&m);
        assert_eq!(decode(&bytes), Ok(Some(m)));
    }
}

#[test]
fn decode_empty_input_is_unhandled() {
    // No fields at all: no recognized variant, not an error.
    assert_eq!(decode(&Vec::new()), Ok(None));
}

#[test]
fn decode_unknown_variant_is_unhandled() {
    // A well-formed envelope holding only field 4 (a future variant).
    let bytes = vec![0x22, 3, 0x0A, 1, b'x'];
    assert_eq!(decode(&bytes), Ok(None));
}

#[test]
fn decode_skips_unknown_fields_inside_chat() {
    // Chat payload with an extra varint field 5 before the known fields.
    let bytes = vec![0x0A, 7, 0x28, 9, 0x0A, 1, b'a', 0x18, 2];
    assert_eq!(decode(&bytes), Ok(Some(chat("a", "", 2))));
}

#[test]
fn decode_last_variant_wins() {
    // Two variant fields in one envelope: the later presence replaces the
    // earlier chat.
    let mut bytes = Vec::new();
    bytes.extend_from_slice(&[0x0A, 3, 0x0A, 1, b'a']);
    bytes.extend_from_slice(&[0x12, 3, 0x0A, 1, b'p']);
    assert_eq!(decode(&bytes), Ok(Some(presence("p", &[], 0))));
}

#[test]
fn decode_robustness_malformed() {
    // Arbitrary byte sequences: never a panic, always an error or an
    // unhandled marker.
    let cases: Vec<Vec<u8>> = vec![
        vec![0xFF],
        vec![0x0A],
        vec![0x0A, 200],
        vec![0x0A, 2, 0x18],
        vec![0x0A, 3, 0x0A, 1, 0xC3],
        vec![0x1B, 0, 0, 0],
        vec![0x0A, 1, 0x0A, 1, b'a'],
        vec![0x80, 0x80, 0x80, 0x80, 0x80, 0x80, 0x80, 0x80, 0x80, 0x80, 0x01],
        vec![0x00, 0x01],
        vec![0x0D, 1, 2, 3, 4],
    ];
    for bytes in cases {
        let _ = decode(&bytes);
    }
}

#[test]
fn decode_robustness_pseudorandom() {
    // A crude deterministic byte soup; decode must stay total on all of it.
    let mut state: u64 = 0x1234_5678_9abc_def0;
    for len in 0..200usize {
        let mut bytes = Vec::with_capacity(len);
        for _ in 0..len {
            state = state.wrapping_mul(6364136223846793005).wrapping_add(1442695040888963407);
            bytes.push((state >> 33) as u8);
        }
        let _ = decode(&bytes);
    }
}
