use harmony_glitch::network::app_data::{decode_app_data, encode_app_data, strip_nul, truncate_to_bytes};
use harmony_glitch::network::types::outgoing_chat;

#[test]
fn app_data_round_trip_with_street() {
    let encoded = encode_app_data("Alice", Some("meadow"));
    let (name, street) = decode_app_data(&encoded);
    assert_eq!(name, "Alice");
    assert_eq!(street.as_deref(), Some("meadow"));
}

#[test]
fn app_data_round_trip_without_street() {
    let encoded = encode_app_data("Bob", None);
    let (name, street) = decode_app_data(&encoded);
    assert_eq!(name, "Bob");
    assert!(street.is_none());
}

#[test]
fn app_data_layout() {
    assert_eq!(encode_app_data("Al", Some("m")), vec![b'A', b'l', 0, b'm']);
    assert_eq!(encode_app_data("Al", None), vec![b'A', b'l']);
    assert_eq!(encode_app_data("A\0l", Some("m\0")), vec![b'A', b'l', 0, b'm']);
}

#[test]
fn app_data_strips_nul_characters() {
    let encoded = encode_app_data("Ev\0e", Some("\0hill"));
    let (name, street) = decode_app_data(&encoded);
    assert_eq!(name, "Eve");
    assert_eq!(street.as_deref(), Some("hill"));
}

#[test]
fn app_data_round_trip_non_ascii() {
    let encoded = encode_app_data("Zo\u{eb} \u{1f600}", Some("caf\u{e9}"));
    let (name, street) = decode_app_data(&encoded);
    assert_eq!(name, "Zo\u{eb} \u{1f600}");
    assert_eq!(street.as_deref(), Some("caf\u{e9}"));
}

#[test]
fn decode_splits_at_first_zero() {
    let (name, street) = decode_app_data(&[b'a', 0, b'b', 0, b'c']);
    assert_eq!(name, "a");
    assert_eq!(street.as_deref(), Some("bc"));
    let (name, street) = decode_app_data(&[]);
    assert_eq!(name, "");
    assert!(street.is_none());
}

#[test]
fn decode_invalid_utf8_is_replaced() {
    let (name, street) = decode_app_data(&[0xff, b'x']);
    assert_eq!(name, "\u{fffd}x");
    assert!(street.is_none());
}

#[test]
fn strip_nul_removes_all() {
    assert_eq!(strip_nul("\0a\0\0b\0"), "ab");
}

#[test]
fn truncate_to_bytes_stops_on_char_boundary() {
    assert_eq!(truncate_to_bytes("hello", 3), "hel");
    assert_eq!(truncate_to_bytes("hello", 10), "hello");
    assert_eq!(truncate_to_bytes("h\u{e9}llo", 2), "h");
    assert_eq!(truncate_to_bytes("h\u{e9}llo", 3), "h\u{e9}");
    assert_eq!(truncate_to_bytes("\u{1f600}a", 3), "");
    assert_eq!(truncate_to_bytes("abc", 0), "");
}

#[test]
fn outgoing_chat_truncates_to_200_bytes() {
    let long: String = std::iter::repeat('\u{e9}').take(150).collect();
    let msg = outgoing_chat(&long, [3; 16], "Ann");
    assert_eq!(msg.text.len(), 200);
    assert_eq!(msg.text.chars().count(), 100);
    assert_eq!(msg.sender, [3; 16]);
    assert_eq!(msg.sender_name, "Ann");
    let short = outgoing_chat("hi", [1; 16], "B");
    assert_eq!(short.text, "hi");
}
