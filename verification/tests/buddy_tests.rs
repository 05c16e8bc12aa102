use harmony_glitch::social::buddy::{BuddyEntry, BuddyState, PendingBuddyRequest};
use harmony_glitch::social::types::BuddySaveEntry;

fn make_addr(b: u8) -> [u8; 16] {
    [b; 16]
}

/// `secs` seconds, in the milliseconds the library counts in.
fn ms(secs: f64) -> u64 {
    (secs * 1000.0) as u64
}

fn make_entry(b: u8) -> BuddyEntry {
    BuddyEntry {
        address_hash: make_addr(b),
        display_name: format!("Player_{b:02x}"),
        added_date: "2026-01-01".into(),
        co_presence_total: 0,
        last_seen_date: None,
    }
}

fn make_save_entry(b: u8) -> BuddySaveEntry {
    BuddySaveEntry {
        address_hash: hex::encode(make_addr(b)),
        display_name: format!("Player_{b:02x}"),
        added_date: "2026-01-01".into(),
        co_presence_total: 0,
        last_seen_date: None,
    }
}

fn same(a: &BuddyEntry, b: &BuddyEntry) -> bool {
    a.address_hash == b.address_hash
        && a.display_name == b.display_name
        && a.added_date == b.added_date
        && a.co_presence_total == b.co_presence_total
        && a.last_seen_date == b.last_seen_date
}

// ── BuddyEntry round-trip ────────────────────────────────────────────

#[test]
fn to_save_entry_hex_encodes_address() {
    let entry = make_entry(0xAB);
    let save = entry.to_save_entry();
    assert_eq!(save.address_hash, hex::encode([0xAB; 16]));
    assert_eq!(save.address_hash.len(), 32);
}

#[test]
fn to_save_entry_lowercase_digits() {
    let mut entry = make_entry(0x00);
    entry.address_hash = [0x0f, 0xa0, 0x12, 0xff, 0, 0, 0, 0, 0, 0, 0, 0, 0, 0, 0, 0x9c];
    let save = entry.to_save_entry();
    assert_eq!(save.address_hash, "0fa012ff00000000000000000000009c");
}

#[test]
fn from_save_entry_round_trip() {
    let entry = make_entry(0x42);
    let save = entry.to_save_entry();
    let restored = BuddyEntry::from_save_entry(&save).unwrap();
    assert!(same(&entry, &restored));
}

#[test]
fn from_save_entry_accepts_upper_case() {
    let mut save = make_save_entry(0xAB);
    save.address_hash = save.address_hash.to_uppercase();
    let restored = BuddyEntry::from_save_entry(&save).unwrap();
    assert_eq!(restored.address_hash, [0xAB; 16]);
}

#[test]
fn from_save_entry_rejects_bad_hex() {
    let mut save = make_save_entry(0x01);
    save.address_hash = "not-hex!!!".into();
    assert!(BuddyEntry::from_save_entry(&save).is_none());
}

#[test]
fn from_save_entry_rejects_wrong_length() {
    let mut save = make_save_entry(0x01);
    // 8 bytes (16 hex chars) instead of 16 bytes
    save.address_hash = "0102030405060708".into();
    assert!(BuddyEntry::from_save_entry(&save).is_none());
}

// ── is_buddy / is_blocked ─────────────────────────────────────────────

#[test]
fn is_buddy_returns_true_after_add() {
    let mut state = BuddyState::new();
    state.add_buddy(make_entry(0x01));
    assert!(state.is_buddy(&make_addr(0x01)));
    assert!(!state.is_buddy(&make_addr(0x02)));
}

#[test]
fn add_buddy_ignores_duplicates() {
    let mut state = BuddyState::new();
    state.add_buddy(make_entry(0x01));
    state.add_buddy(make_entry(0x01));
    assert_eq!(state.buddies.len(), 1);
}

#[test]
fn add_buddy_ignores_blocked_and_clears_request() {
    let mut state = BuddyState::new();
    state.block_player(&make_addr(0x02));
    state.add_buddy(make_entry(0x02));
    assert!(!state.is_buddy(&make_addr(0x02)));
    state.add_pending_request(PendingBuddyRequest {
        from: make_addr(0x03),
        from_name: "C".into(),
        received_at: ms(0.0),
    });
    state.add_buddy(make_entry(0x03));
    assert!(state.is_buddy(&make_addr(0x03)));
    assert!(state.pending_requests.is_empty());
}

#[test]
fn remove_buddy_returns_true_when_found() {
    let mut state = BuddyState::new();
    state.add_buddy(make_entry(0x01));
    assert!(state.remove_buddy(&make_addr(0x01)));
    assert!(!state.is_buddy(&make_addr(0x01)));
}

#[test]
fn remove_buddy_returns_false_when_not_found() {
    let mut state = BuddyState::new();
    assert!(!state.remove_buddy(&make_addr(0x99)));
}

// ── Block list ────────────────────────────────────────────────────────

#[test]
fn block_removes_buddy_and_pending() {
    let mut state = BuddyState::new();
    state.add_buddy(make_entry(0x01));
    state.add_pending_request(PendingBuddyRequest {
        from: make_addr(0x01),
        from_name: "Foo".into(),
        received_at: ms(0.0),
    });
    state.block_player(&make_addr(0x01));
    assert!(state.is_blocked(&make_addr(0x01)));
    assert!(!state.is_buddy(&make_addr(0x01)));
    assert!(state.pending_requests.is_empty());
}

#[test]
fn block_ignores_duplicates() {
    let mut state = BuddyState::new();
    state.block_player(&make_addr(0x02));
    state.block_player(&make_addr(0x02));
    assert_eq!(state.blocked.len(), 1);
}

#[test]
fn unblock_player() {
    let mut state = BuddyState::new();
    state.block_player(&make_addr(0x03));
    assert!(state.unblock_player(&make_addr(0x03)));
    assert!(!state.is_blocked(&make_addr(0x03)));
}

#[test]
fn unblock_returns_false_when_not_blocked() {
    let mut state = BuddyState::new();
    assert!(!state.unblock_player(&make_addr(0x04)));
}

// ── Pending requests ──────────────────────────────────────────────────

#[test]
fn pending_request_ignored_if_sender_blocked() {
    let mut state = BuddyState::new();
    state.block_player(&make_addr(0x05));
    state.add_pending_request(PendingBuddyRequest {
        from: make_addr(0x05),
        from_name: "Blocked".into(),
        received_at: ms(0.0),
    });
    assert!(state.pending_requests.is_empty());
}

#[test]
fn pending_request_ignored_if_already_buddy() {
    let mut state = BuddyState::new();
    state.add_buddy(make_entry(0x06));
    state.add_pending_request(PendingBuddyRequest {
        from: make_addr(0x06),
        from_name: "Buddy".into(),
        received_at: ms(0.0),
    });
    assert!(state.pending_requests.is_empty());
}

#[test]
fn pending_request_replaces_earlier_one() {
    let mut state = BuddyState::new();
    state.add_pending_request(PendingBuddyRequest {
        from: make_addr(0x06),
        from_name: "First".into(),
        received_at: ms(0.0),
    });
    state.add_pending_request(PendingBuddyRequest {
        from: make_addr(0x06),
        from_name: "Second".into(),
        received_at: ms(10.0),
    });
    assert_eq!(state.pending_requests.len(), 1);
    assert_eq!(state.pending_requests[0].from_name, "Second");
}

#[test]
fn get_pending_request_within_timeout() {
    let mut state = BuddyState::new();
    state.add_pending_request(PendingBuddyRequest {
        from: make_addr(0x07),
        from_name: "Timely".into(),
        received_at: ms(1000.0),
    });
    assert!(state.get_pending_request(&make_addr(0x07), ms(1089.0)).is_some());
}

#[test]
fn get_pending_request_after_timeout_returns_none() {
    let mut state = BuddyState::new();
    state.add_pending_request(PendingBuddyRequest {
        from: make_addr(0x08),
        from_name: "Late".into(),
        received_at: ms(1000.0),
    });
    // 91 seconds later — expired
    assert!(state.get_pending_request(&make_addr(0x08), ms(1091.0)).is_none());
}

#[test]
fn expire_requests_removes_old() {
    let mut state = BuddyState::new();
    state.add_pending_request(PendingBuddyRequest {
        from: make_addr(0x09),
        from_name: "Old".into(),
        received_at: ms(0.0),
    });
    state.add_pending_request(PendingBuddyRequest {
        from: make_addr(0x0A),
        from_name: "Fresh".into(),
        received_at: ms(500.0),
    });
    state.expire_requests(ms(100.0)); // now=100 → first expired, second not
    assert_eq!(state.pending_requests.len(), 1);
    assert_eq!(state.pending_requests[0].from, make_addr(0x0A));
}

// ── Buddy data updates ────────────────────────────────────────────────

#[test]
fn update_buddy_name_succeeds() {
    let mut state = BuddyState::new();
    state.add_buddy(make_entry(0x0B));
    assert!(state.update_buddy_name(&make_addr(0x0B), "NewName"));
    assert_eq!(state.buddies[0].display_name, "NewName");
}

#[test]
fn update_buddy_name_returns_false_if_not_found() {
    let mut state = BuddyState::new();
    assert!(!state.update_buddy_name(&make_addr(0x0C), "Ghost"));
}

#[test]
fn record_copresence_accumulates() {
    let mut state = BuddyState::new();
    state.add_buddy(make_entry(0x0D));
    state.record_copresence(&make_addr(0x0D), ms(300.0), "2026-04-10");
    state.record_copresence(&make_addr(0x0D), ms(120.0), "2026-04-10");
    let b = &state.buddies[0];
    assert_eq!(b.co_presence_total, ms(420.0));
    assert_eq!(b.last_seen_date, Some("2026-04-10".into()));
}

#[test]
fn record_copresence_saturates() {
    let mut state = BuddyState::new();
    state.add_buddy(make_entry(0x0D));
    state.record_copresence(&make_addr(0x0D), u64::MAX - 5, "2026-04-10");
    state.record_copresence(&make_addr(0x0D), 10, "2026-04-11");
    assert_eq!(state.buddies[0].co_presence_total, u64::MAX);
    assert_eq!(state.buddies[0].last_seen_date, Some("2026-04-11".into()));
}

#[test]
fn record_copresence_returns_false_if_not_buddy() {
    let mut state = BuddyState::new();
    assert!(!state.record_copresence(&make_addr(0x0E), ms(100.0), "2026-04-10"));
}

// ── Persistence ───────────────────────────────────────────────────────

#[test]
fn restore_from_save_round_trips() {
    let mut state = BuddyState::new();
    state.add_buddy(make_entry(0x10));
    state.add_buddy(make_entry(0x11));
    state.block_player(&make_addr(0x20));

    let saves = state.to_save_entries();
    let blocked_hex = state.blocked_to_hex();

    let mut state2 = BuddyState::new();
    state2.restore_from_save(&saves, &blocked_hex);

    assert_eq!(state2.buddies.len(), 2);
    assert!(state2.is_buddy(&make_addr(0x10)));
    assert!(state2.is_buddy(&make_addr(0x11)));
    assert!(state2.is_blocked(&make_addr(0x20)));
}

#[test]
fn restore_from_save_skips_bad_entries() {
    let mut state = BuddyState::new();
    let bad = BuddySaveEntry {
        address_hash: "not-valid-hex".into(),
        display_name: "Ghost".into(),
        added_date: "2026-01-01".into(),
        co_presence_total: 0,
        last_seen_date: None,
    };
    state.restore_from_save(&[bad], &[]);
    assert!(state.buddies.is_empty());
}

#[test]
fn restore_from_save_skips_bad_blocked_and_clears_requests() {
    let mut state = BuddyState::new();
    state.add_pending_request(PendingBuddyRequest {
        from: make_addr(0x01),
        from_name: "A".into(),
        received_at: 0,
    });
    let hexes = vec!["zz".to_string(), hex::encode([7u8; 16]), "0102".to_string()];
    state.restore_from_save(&[make_save_entry(0x05)], &hexes);
    assert!(state.pending_requests.is_empty());
    assert_eq!(state.blocked, vec![[7u8; 16]]);
    assert!(state.is_buddy(&make_addr(0x05)));
}
