use vstd::prelude::*;

use crate::network::app_data::{truncate_to_bytes, utf8_truncated};

verus! {

/// A chat line, sent once and kept nowhere.
pub struct ChatMessage {
    /// The text, at most `MAX_CHAT_BYTES` bytes of UTF-8.
    pub text: String,
    /// The sender's address hash.
    pub sender: [u8; 16],
    /// The sender's display name when the line was sent.
    pub sender_name: String,
}

/// A player arriving on or leaving a street.
pub enum PresenceEvent {
    Joined { address_hash: [u8; 16], display_name: String },
    Left { address_hash: [u8; 16] },
}

/// A TCP connection for relaying over a wide-area network. It carries no
/// state: on a local network the UDP transport is enough.
pub struct TcpRelay {}

/// The longest chat text sent, in bytes of UTF-8.
pub const MAX_CHAT_BYTES: usize = 200;

/// The chat message sent for `text`: the text is cut to `MAX_CHAT_BYTES`
/// bytes on a character boundary, and the sender is named.
pub fn outgoing_chat(text: &str, sender: [u8; 16], sender_name: &str) -> (m: ChatMessage)
    ensures
        utf8_truncated(text@, MAX_CHAT_BYTES as nat, m.text@),
        m.sender == sender,
        m.sender_name@ == sender_name@,
{
    ChatMessage {
        text: truncate_to_bytes(text, MAX_CHAT_BYTES),
        sender,
        sender_name: crate::text::owned(sender_name),
    }
}

} // verus!
