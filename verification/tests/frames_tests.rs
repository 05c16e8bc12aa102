use harmony_glitch::social::buddy::{BuddyEntry, BuddyState};
use harmony_glitch::social::frames::{buddy_frames, party_frame};
use harmony_glitch::social::party::{PartyMember, PartyState};

#[test]
fn party_frame_without_party() {
    let state = PartyState::new();
    let f = party_frame(&state);
    assert!(!f.in_party);
    assert!(f.leader.is_none());
    assert!(f.members.is_empty());
}

#[test]
fn party_frame_marks_the_leader() {
    let mut state = PartyState::new();
    state.create_party([1; 16], "Alice".to_string(), 0);
    let party = state.party.as_mut().unwrap();
    party
        .add_member(PartyMember { address_hash: [2; 16], display_name: "Bob".to_string(), joined_at: 5 })
        .unwrap();
    let f = party_frame(&state);
    assert!(f.in_party);
    assert_eq!(f.leader, Some("01".repeat(16)));
    assert_eq!(f.members.len(), 2);
    assert_eq!(f.members[0].address_hash, "01".repeat(16));
    assert_eq!(f.members[0].display_name, "Alice");
    assert!(f.members[0].is_leader);
    assert_eq!(f.members[1].address_hash, "02".repeat(16));
    assert!(!f.members[1].is_leader);
}

#[test]
fn buddy_frames_show_every_buddy_in_order() {
    let mut state = BuddyState::new();
    state.add_buddy(BuddyEntry {
        address_hash: [0xab; 16],
        display_name: "Alice".to_string(),
        added_date: "2025-01-02".to_string(),
        co_presence_total: 1500,
        last_seen_date: Some("2025-01-03".to_string()),
    });
    state.add_buddy(BuddyEntry {
        address_hash: [0x0c; 16],
        display_name: "Bob".to_string(),
        added_date: "2025-02-01".to_string(),
        co_presence_total: 0,
        last_seen_date: None,
    });
    let f = buddy_frames(&state);
    assert_eq!(f.len(), 2);
    assert_eq!(f[0].address_hash, "ab".repeat(16));
    assert_eq!(f[0].display_name, "Alice");
    assert_eq!(f[0].added_date, "2025-01-02");
    assert_eq!(f[0].co_presence_total, 1500);
    assert_eq!(f[0].last_seen_date.as_deref(), Some("2025-01-03"));
    assert_eq!(f[1].address_hash, "0c".repeat(16));
    assert!(f[1].last_seen_date.is_none());
}
