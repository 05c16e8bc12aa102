use harmony_glitch::social::party::{
    ActiveParty, PartyMember, PartyRole, PartyState, PendingPartyInvite, MAX_PARTY_SIZE,
};

fn addr(b: u8) -> [u8; 16] {
    [b; 16]
}

/// `secs` seconds, in the milliseconds the library counts in.
fn ms(secs: f64) -> u64 {
    (secs * 1000.0) as u64
}

fn member(b: u8, now: f64) -> PartyMember {
    PartyMember {
        address_hash: addr(b),
        display_name: format!("P{b:02x}"),
        joined_at: ms(now),
    }
}

// ── ActiveParty ────────────────────────────────────────────────────────

#[test]
fn new_party_has_one_member_who_is_leader() {
    let p = ActiveParty::new(addr(0x01), "Alice".into(), ms(0.0));
    assert_eq!(p.members.len(), 1);
    assert!(p.is_leader(&addr(0x01)));
    assert!(p.is_member(&addr(0x01)));
}

#[test]
fn add_member_succeeds() {
    let mut p = ActiveParty::new(addr(0x01), "Alice".into(), ms(0.0));
    assert!(p.add_member(member(0x02, 1.0)).is_ok());
    assert_eq!(p.members.len(), 2);
}

#[test]
fn add_member_fails_when_full() {
    let mut p = ActiveParty::new(addr(0x01), "A".into(), ms(0.0));
    for i in 2u8..=5 {
        p.add_member(member(i, i as f64)).unwrap();
    }
    assert_eq!(p.members.len(), MAX_PARTY_SIZE);
    let err = p.add_member(member(0x06, 6.0));
    assert!(err.is_err());
}

#[test]
fn add_member_rejects_duplicate() {
    let mut p = ActiveParty::new(addr(0x01), "A".into(), ms(0.0));
    assert!(p.add_member(member(0x01, 1.0)).is_err());
}

#[test]
fn add_member_error_messages() {
    let mut p = ActiveParty::new(addr(0x01), "A".into(), ms(0.0));
    assert_eq!(p.add_member(member(0x01, 1.0)), Err("already a member"));
    for i in 2u8..=5 {
        p.add_member(member(i, i as f64)).unwrap();
    }
    assert_eq!(p.add_member(member(0x06, 6.0)), Err("party is full"));
    assert_eq!(p.members.len(), 5);
}

#[test]
fn role_of_leader_and_member() {
    let mut p = ActiveParty::new(addr(0x01), "A".into(), ms(0.0));
    p.add_member(member(0x02, 1.0)).unwrap();
    assert_eq!(p.role_of(&addr(0x01)), Some(PartyRole::Leader));
    assert_eq!(p.role_of(&addr(0x02)), Some(PartyRole::Member));
    assert_eq!(p.role_of(&addr(0x99)), None);
}

#[test]
fn remove_non_leader_does_not_change_leader() {
    let mut p = ActiveParty::new(addr(0x01), "A".into(), ms(0.0));
    p.add_member(member(0x02, 1.0)).unwrap();
    let (remaining, new_leader) = p.remove_member(&addr(0x02));
    assert_eq!(remaining, 1);
    assert_eq!(new_leader, None);
    assert!(p.is_leader(&addr(0x01)));
}

#[test]
fn remove_leader_transfers_to_longest_tenured() {
    let mut p = ActiveParty::new(addr(0x01), "A".into(), ms(0.0));
    // 0x02 joined at t=1, 0x03 joined at t=2 — 0x02 has longer tenure
    p.add_member(member(0x02, 1.0)).unwrap();
    p.add_member(member(0x03, 2.0)).unwrap();
    let (remaining, new_leader) = p.remove_member(&addr(0x01));
    assert_eq!(remaining, 2);
    assert_eq!(new_leader, Some(addr(0x02)));
    assert!(p.is_leader(&addr(0x02)));
}

#[test]
fn remove_leader_tie_goes_to_first_listed() {
    let mut p = ActiveParty::new(addr(0x01), "A".into(), ms(0.0));
    p.add_member(member(0x03, 2.0)).unwrap();
    p.add_member(member(0x02, 2.0)).unwrap();
    p.add_member(member(0x04, 3.0)).unwrap();
    let (remaining, new_leader) = p.remove_member(&addr(0x01));
    assert_eq!(remaining, 3);
    assert_eq!(new_leader, Some(addr(0x03)));
}

#[test]
fn remove_all_members_returns_zero() {
    let mut p = ActiveParty::new(addr(0x01), "A".into(), ms(0.0));
    let (remaining, _) = p.remove_member(&addr(0x01));
    assert_eq!(remaining, 0);
}

#[test]
fn kick_member_succeeds() {
    let mut p = ActiveParty::new(addr(0x01), "A".into(), ms(0.0));
    p.add_member(member(0x02, 1.0)).unwrap();
    assert!(p.kick_member(&addr(0x01), &addr(0x02)).is_ok());
    assert!(!p.is_member(&addr(0x02)));
}

#[test]
fn kick_requires_leader() {
    let mut p = ActiveParty::new(addr(0x01), "A".into(), ms(0.0));
    p.add_member(member(0x02, 1.0)).unwrap();
    let err = p.kick_member(&addr(0x02), &addr(0x01));
    assert!(err.is_err());
}

#[test]
fn kick_cannot_kick_self() {
    let mut p = ActiveParty::new(addr(0x01), "A".into(), ms(0.0));
    let err = p.kick_member(&addr(0x01), &addr(0x01));
    assert!(err.is_err());
}

#[test]
fn kick_nonmember_returns_err() {
    let mut p = ActiveParty::new(addr(0x01), "A".into(), ms(0.0));
    let err = p.kick_member(&addr(0x01), &addr(0x99));
    assert!(err.is_err());
}

#[test]
fn kick_error_messages() {
    let mut p = ActiveParty::new(addr(0x01), "A".into(), ms(0.0));
    p.add_member(member(0x02, 1.0)).unwrap();
    assert_eq!(p.kick_member(&addr(0x02), &addr(0x01)), Err("only the leader can kick"));
    assert_eq!(p.kick_member(&addr(0x01), &addr(0x01)), Err("leader cannot kick themselves"));
    assert_eq!(p.kick_member(&addr(0x01), &addr(0x99)), Err("target is not a member"));
    assert_eq!(p.members.len(), 2);
}

#[test]
fn member_hashes_returns_all() {
    let mut p = ActiveParty::new(addr(0x01), "A".into(), ms(0.0));
    p.add_member(member(0x02, 1.0)).unwrap();
    let hashes = p.member_hashes();
    assert!(hashes.contains(&addr(0x01)));
    assert!(hashes.contains(&addr(0x02)));
    assert_eq!(hashes.len(), 2);
}

// ── PartyState ─────────────────────────────────────────────────────────

#[test]
fn create_party_sets_in_party() {
    let mut s = PartyState::new();
    assert!(!s.in_party());
    s.create_party(addr(0x01), "Alice".into(), ms(0.0));
    assert!(s.in_party());
}

#[test]
fn has_party_bonus_requires_two_members() {
    let mut s = PartyState::new();
    s.create_party(addr(0x01), "Alice".into(), ms(0.0));
    assert!(!s.has_party_bonus()); // only 1 member
    s.party.as_mut().unwrap().add_member(member(0x02, 1.0)).unwrap();
    assert!(s.has_party_bonus());
}

#[test]
fn accept_invite_within_timeout() {
    let mut s = PartyState::new();
    s.set_pending_invite(PendingPartyInvite {
        leader: addr(0x01),
        leader_name: "Leader".into(),
        members: vec![],
        received_at: ms(100.0),
    });
    let result = s.accept_invite(addr(0x02), "Me".into(), ms(150.0));
    assert!(result.is_ok());
    assert!(s.in_party());
    assert!(s.pending_invite.is_none());
}

#[test]
fn accept_invite_expired_returns_err() {
    let mut s = PartyState::new();
    s.set_pending_invite(PendingPartyInvite {
        leader: addr(0x01),
        leader_name: "Leader".into(),
        members: vec![],
        received_at: ms(0.0),
    });
    let result = s.accept_invite(addr(0x02), "Me".into(), ms(91.0));
    assert!(result.is_err());
    assert!(!s.in_party());
}

#[test]
fn accept_invite_at_exactly_timeout_succeeds() {
    let mut s = PartyState::new();
    s.set_pending_invite(PendingPartyInvite {
        leader: addr(0x01),
        leader_name: "Leader".into(),
        members: vec![],
        received_at: ms(10.0),
    });
    assert_eq!(s.accept_invite(addr(0x02), "Me".into(), ms(100.0)), Ok(()));
}

#[test]
fn accept_invite_no_invite_returns_err() {
    let mut s = PartyState::new();
    let result = s.accept_invite(addr(0x01), "Me".into(), ms(0.0));
    assert!(result.is_err());
}

#[test]
fn accept_invite_returns_err_when_party_full() {
    let mut s = PartyState::new();
    let existing_members: Vec<[u8; 16]> = (2u8..=5).map(|i| addr(i)).collect();
    s.set_pending_invite(PendingPartyInvite {
        leader: addr(0x01),
        leader_name: "Leader".into(),
        members: existing_members,
        received_at: ms(100.0),
    });
    // leader (0x01) + members 0x02..0x05 = 5 members, adding self (0x06) should fail
    let result = s.accept_invite(addr(0x06), "Me".into(), ms(150.0));
    assert!(result.is_err(), "should fail when party is full");
    assert!(!s.in_party(), "should not join party when add_member fails");
}

#[test]
fn accept_invite_builds_members_in_order() {
    let mut s = PartyState::new();
    s.set_pending_invite(PendingPartyInvite {
        leader: addr(0x01),
        leader_name: "Leader".into(),
        members: vec![addr(0x01), addr(0x02), addr(0x07), addr(0x02), addr(0x03)],
        received_at: ms(100.0),
    });
    assert_eq!(s.accept_invite(addr(0x07), "Me".into(), ms(120.0)), Ok(()));
    let p = s.party.as_ref().unwrap();
    assert_eq!(p.member_hashes(), vec![addr(0x01), addr(0x02), addr(0x03), addr(0x07)]);
    assert_eq!(p.members[0].display_name, "Leader");
    assert_eq!(p.members[1].display_name, "");
    assert_eq!(p.members[1].joined_at, ms(100.0));
    assert_eq!(p.members[3].display_name, "Me");
    assert_eq!(p.members[3].joined_at, ms(120.0));
    assert_eq!(p.created_at, ms(100.0));
}

#[test]
fn decline_invite_clears_it() {
    let mut s = PartyState::new();
    s.set_pending_invite(PendingPartyInvite {
        leader: addr(0x01),
        leader_name: "L".into(),
        members: vec![],
        received_at: ms(0.0),
    });
    s.decline_invite();
    assert!(s.pending_invite.is_none());
}

#[test]
fn leave_party_dissolves_at_one_member() {
    let mut s = PartyState::new();
    s.create_party(addr(0x01), "Alice".into(), ms(0.0));
    let result = s.leave_party(&addr(0x01));
    assert!(result.is_ok());
    assert!(!s.in_party());
}

#[test]
fn leave_party_does_not_dissolve_at_two_plus() {
    let mut s = PartyState::new();
    s.create_party(addr(0x01), "Alice".into(), ms(0.0));
    s.party.as_mut().unwrap().add_member(member(0x02, 1.0)).unwrap();
    s.party.as_mut().unwrap().add_member(member(0x03, 2.0)).unwrap();
    let (remaining, _) = s.leave_party(&addr(0x03)).unwrap();
    assert_eq!(remaining, 2);
    assert!(s.in_party());
}

#[test]
fn leave_party_when_leader_transfers_leadership() {
    let mut s = PartyState::new();
    s.create_party(addr(0x01), "Alice".into(), ms(0.0));
    s.party.as_mut().unwrap().add_member(member(0x02, 1.0)).unwrap();
    s.party.as_mut().unwrap().add_member(member(0x03, 2.0)).unwrap();
    let (remaining, new_leader) = s.leave_party(&addr(0x01)).unwrap();
    assert_eq!(remaining, 2);
    assert_eq!(new_leader, Some(addr(0x02)));
    assert!(s.in_party());
}

#[test]
fn leave_party_when_not_in_party_returns_err() {
    let mut s = PartyState::new();
    assert!(s.leave_party(&addr(0x01)).is_err());
}

#[test]
fn expire_invite_clears_old() {
    let mut s = PartyState::new();
    s.set_pending_invite(PendingPartyInvite {
        leader: addr(0x01),
        leader_name: "L".into(),
        members: vec![],
        received_at: ms(0.0),
    });
    s.expire_invite(ms(91.0));
    assert!(s.pending_invite.is_none());
}

#[test]
fn expire_invite_keeps_fresh() {
    let mut s = PartyState::new();
    s.set_pending_invite(PendingPartyInvite {
        leader: addr(0x01),
        leader_name: "L".into(),
        members: vec![],
        received_at: ms(0.0),
    });
    s.expire_invite(ms(50.0));
    assert!(s.pending_invite.is_some());
}

// ── Outgoing invites ──────────────────────────────────────────────────

#[test]
fn record_outgoing_invite_tracks_address() {
    let mut s = PartyState::new();
    s.record_outgoing_invite(addr(0x10), ms(100.0));
    assert!(s.has_outgoing_invite(&addr(0x10)));
    assert!(!s.has_outgoing_invite(&addr(0x11)));
}

#[test]
fn record_outgoing_invite_ignores_duplicates() {
    let mut s = PartyState::new();
    s.record_outgoing_invite(addr(0x10), ms(100.0));
    s.record_outgoing_invite(addr(0x10), ms(200.0));
    assert_eq!(s.outgoing_invite_count(), 1);
}

#[test]
fn record_outgoing_invite_refreshes_time() {
    let mut s = PartyState::new();
    s.record_outgoing_invite(addr(0x10), ms(0.0));
    s.record_outgoing_invite(addr(0x10), ms(80.0));
    s.expire_outgoing_invites(ms(100.0));
    assert!(s.has_outgoing_invite(&addr(0x10)));
}

#[test]
fn consume_outgoing_invite_returns_true_and_removes() {
    let mut s = PartyState::new();
    s.record_outgoing_invite(addr(0x10), ms(100.0));
    assert!(s.consume_outgoing_invite(&addr(0x10)));
    assert_eq!(s.outgoing_invite_count(), 0);
}

#[test]
fn consume_outgoing_invite_returns_false_if_absent() {
    let mut s = PartyState::new();
    assert!(!s.consume_outgoing_invite(&addr(0x99)));
}

#[test]
fn expire_outgoing_invites_removes_old() {
    let mut s = PartyState::new();
    s.record_outgoing_invite(addr(0x10), ms(0.0));
    s.record_outgoing_invite(addr(0x11), ms(80.0));
    s.expire_outgoing_invites(ms(100.0)); // 0x10 is 100s old (expired), 0x11 is 20s (fresh)
    assert!(!s.has_outgoing_invite(&addr(0x10)));
    assert!(s.has_outgoing_invite(&addr(0x11)));
}

#[test]
fn clear_outgoing_invites_removes_all() {
    let mut s = PartyState::new();
    s.record_outgoing_invite(addr(0x10), ms(100.0));
    s.record_outgoing_invite(addr(0x11), ms(100.0));
    s.clear_outgoing_invites();
    assert_eq!(s.outgoing_invite_count(), 0);
}

#[test]
fn confirm_join_builds_party_from_pending_join() {
    let mut s = PartyState::new();
    s.set_pending_invite(PendingPartyInvite {
        leader: addr(0x01),
        leader_name: "Leader".into(),
        members: vec![addr(0x02)],
        received_at: ms(100.0),
    });
    s.begin_join(ms(100.5)).unwrap();

    let result = s.confirm_join(addr(0x03), "Me".into(), ms(101.0));
    assert!(result.is_ok());
    assert!(s.in_party(), "should be in party after confirm");
    assert!(s.pending_join.is_none(), "pending_join should be cleared");
    let party = s.party.as_ref().unwrap();
    assert!(party.is_leader(&addr(0x01)));
    assert!(party.is_member(&addr(0x01)));
    assert!(party.is_member(&addr(0x02)));
    assert!(party.is_member(&addr(0x03)));
}

#[test]
fn confirm_join_without_pending_join_returns_err() {
    let mut s = PartyState::new();
    let result = s.confirm_join(addr(0x01), "Me".into(), ms(100.0));
    assert!(result.is_err());
}

#[test]
fn begin_join_moves_invite_to_pending_join() {
    let mut s = PartyState::new();
    s.set_pending_invite(PendingPartyInvite {
        leader: addr(0x01),
        leader_name: "Leader".into(),
        members: vec![addr(0x02)],
        received_at: ms(100.0),
    });
    let result = s.begin_join(ms(100.5));
    assert!(result.is_ok());
    assert!(s.pending_invite.is_none(), "invite should be consumed");
    assert!(s.pending_join.is_some(), "pending_join should be set");
    assert!(!s.in_party(), "should NOT be in party yet");
    let pj = s.pending_join.as_ref().unwrap();
    assert_eq!(pj.leader, addr(0x01));
    assert_eq!(pj.leader_name, "Leader");
    assert_eq!(pj.members, vec![addr(0x02)]);
}

#[test]
fn expire_pending_join_clears_old() {
    let mut s = PartyState::new();
    s.set_pending_invite(PendingPartyInvite {
        leader: addr(0x01),
        leader_name: "L".into(),
        members: vec![],
        received_at: ms(0.0),
    });
    s.begin_join(ms(0.5)).unwrap();
    s.expire_pending_join(ms(91.0));
    assert!(s.pending_join.is_none(), "stale pending_join should be cleared");
}

#[test]
fn expire_pending_join_keeps_fresh() {
    let mut s = PartyState::new();
    s.set_pending_invite(PendingPartyInvite {
        leader: addr(0x01),
        leader_name: "L".into(),
        members: vec![],
        received_at: ms(100.0),
    });
    s.begin_join(ms(100.5)).unwrap();
    s.expire_pending_join(ms(150.0));
    assert!(s.pending_join.is_some(), "fresh pending_join should survive");
}

// ── Race condition tests ───────────────────────────────────────────────

#[test]
fn pending_join_timeout_does_not_create_phantom_party() {
    let mut s = PartyState::new();
    s.set_pending_invite(PendingPartyInvite {
        leader: addr(0x01),
        leader_name: "Leader".into(),
        members: vec![],
        received_at: ms(0.0),
    });
    s.begin_join(ms(0.5)).unwrap();
    assert!(s.pending_join.is_some());
    assert!(!s.in_party());

    // Simulate 91 seconds passing with no confirmation
    s.expire_pending_join(ms(91.0));
    assert!(s.pending_join.is_none(), "pending_join should expire");
    assert!(!s.in_party(), "must NOT be in a phantom party");
}

#[test]
fn begin_join_fails_without_invite() {
    let mut s = PartyState::new();
    let result = s.begin_join(ms(0.0));
    assert!(result.is_err());
}

#[test]
fn confirm_join_after_expiry_returns_err() {
    let mut s = PartyState::new();
    s.set_pending_invite(PendingPartyInvite {
        leader: addr(0x01),
        leader_name: "L".into(),
        members: vec![],
        received_at: ms(0.0),
    });
    s.begin_join(ms(0.5)).unwrap();
    s.expire_pending_join(ms(91.0)); // expired
    let result = s.confirm_join(addr(0x02), "Me".into(), ms(92.0));
    assert!(result.is_err(), "confirm after expiry should fail");
    assert!(!s.in_party());
}

#[test]
fn begin_join_with_expired_invite_returns_err() {
    let mut s = PartyState::new();
    s.set_pending_invite(PendingPartyInvite {
        leader: addr(0x01),
        leader_name: "L".into(),
        members: vec![],
        received_at: ms(0.0),
    });
    let result = s.begin_join(ms(91.0));
    assert!(result.is_err());
    assert!(s.pending_invite.is_none(), "expired invite should be cleared");
    assert!(s.pending_join.is_none(), "should not create pending_join from expired invite");
}
