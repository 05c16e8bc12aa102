use harmony_glitch::social::buddy::{BuddyState, PendingBuddyRequest};
use harmony_glitch::social::commands::{
    accept_buddy, accept_party_invite, decline_buddy, decline_party_invite, invite_to_party,
    kick_from_party, leave_current_party, parse_peer_hash, request_buddy, unfriend,
};
use harmony_glitch::social::party::{PartyMember, PartyState, PendingPartyInvite};
use harmony_glitch::social::types::SocialMessage;

fn a(b: u8) -> [u8; 16] {
    [b; 16]
}

fn is_msg(m: &SocialMessage, expected: &str) -> bool {
    let name = match m {
        SocialMessage::BuddyRequest { .. } => "BuddyRequest",
        SocialMessage::BuddyAccept { .. } => "BuddyAccept",
        SocialMessage::BuddyDecline { .. } => "BuddyDecline",
        SocialMessage::BuddyRemove { .. } => "BuddyRemove",
        SocialMessage::PartyInvite { .. } => "PartyInvite",
        SocialMessage::PartyAccept { .. } => "PartyAccept",
        SocialMessage::PartyDecline { .. } => "PartyDecline",
        SocialMessage::PartyLeave { .. } => "PartyLeave",
        SocialMessage::PartyKick { .. } => "PartyKick",
        SocialMessage::PartyMemberJoined { .. } => "PartyMemberJoined",
        SocialMessage::PartyMemberLeft { .. } => "PartyMemberLeft",
        SocialMessage::PartyDissolved { .. } => "PartyDissolved",
        SocialMessage::PartyLeaderChanged { .. } => "PartyLeaderChanged",
    };
    name == expected
}

#[test]
fn parse_peer_hash_errors() {
    assert_eq!(parse_peer_hash("zz"), Err("Invalid peer hash".to_string()));
    assert_eq!(parse_peer_hash("abc"), Err("Invalid peer hash".to_string()));
    assert_eq!(parse_peer_hash("0102"), Err("Peer hash must be 16 bytes".to_string()));
    assert_eq!(parse_peer_hash(&hex::encode([9u8; 16])), Ok([9u8; 16]));
}

#[test]
fn request_buddy_checks_and_records() {
    let mut b = BuddyState::new();
    let m = request_buddy(&mut b, a(2), a(1), 100).unwrap();
    assert!(matches!(m, SocialMessage::BuddyRequest { from, to } if from == a(1) && to == a(2)));
    assert!(b.has_outgoing_request(&a(2)));
    assert_eq!(request_buddy(&mut b, a(2), a(1), 200).err(), Some("Buddy request already pending".to_string()));
    b.block_player(&a(3));
    assert_eq!(request_buddy(&mut b, a(3), a(1), 200).err(), Some("Player is blocked".to_string()));
}

#[test]
fn accept_buddy_needs_fresh_request() {
    let mut b = BuddyState::new();
    assert_eq!(
        accept_buddy(&mut b, a(2), a(1), 0, "2026-04-10").err(),
        Some("No pending buddy request from this player".to_string())
    );
    b.add_pending_request(PendingBuddyRequest { from: a(2), from_name: "Two".into(), received_at: 1_000 });
    assert!(accept_buddy(&mut b, a(2), a(1), 200_000, "2026-04-10").is_err());
    let m = accept_buddy(&mut b, a(2), a(1), 50_000, "2026-04-10").unwrap();
    assert!(is_msg(&m, "BuddyAccept"));
    assert_eq!(b.buddies[0].display_name, "Two");
    assert_eq!(b.buddies[0].added_date, "2026-04-10");
    assert_eq!(request_buddy(&mut b, a(2), a(1), 0).err(), Some("Already a buddy".to_string()));
    assert!(is_msg(&unfriend(&mut b, a(2), a(1)).unwrap(), "BuddyRemove"));
    assert_eq!(unfriend(&mut b, a(2), a(1)).err(), Some("Not a buddy".to_string()));
}

#[test]
fn decline_buddy_drops_request() {
    let mut b = BuddyState::new();
    b.add_pending_request(PendingBuddyRequest { from: a(2), from_name: "Two".into(), received_at: 0 });
    let m = decline_buddy(&mut b, a(2), a(1));
    assert!(is_msg(&m, "BuddyDecline"));
    assert!(b.pending_requests.is_empty());
}

#[test]
fn invite_forms_party_and_lists_members() {
    let mut p = PartyState::new();
    let b = BuddyState::new();
    let m = invite_to_party(&mut p, &b, a(2), a(1), "Me".into(), 10).unwrap();
    match m {
        SocialMessage::PartyInvite { leader, to, members } => {
            assert_eq!(leader, a(1));
            assert_eq!(to, a(2));
            assert_eq!(members, vec![a(1)]);
        }
        _ => panic!("expected an invite"),
    }
    assert!(p.in_party());
    assert!(p.has_outgoing_invite(&a(2)));
}

#[test]
fn invite_refusals() {
    let mut p = PartyState::new();
    let mut b = BuddyState::new();
    b.block_player(&a(9));
    assert_eq!(
        invite_to_party(&mut p, &b, a(9), a(1), "Me".into(), 0).err(),
        Some("Player is blocked".to_string())
    );
    assert!(!p.in_party());
    p.create_party(a(1), "Me".into(), 0);
    assert_eq!(
        invite_to_party(&mut p, &b, a(1), a(1), "Me".into(), 0).err(),
        Some("Player is already in the party".to_string())
    );
    for i in 2u8..=5 {
        p.party.as_mut().unwrap().add_member(PartyMember { address_hash: a(i), display_name: String::new(), joined_at: 0 }).unwrap();
    }
    assert_eq!(invite_to_party(&mut p, &b, a(7), a(1), "Me".into(), 0).err(), Some("Party is full".to_string()));
    let mut q = PartyState::new();
    q.create_party(a(5), "L".into(), 0);
    assert_eq!(
        invite_to_party(&mut q, &b, a(7), a(1), "Me".into(), 0).err(),
        Some("Only the party leader can invite".to_string())
    );
}

#[test]
fn accept_and_decline_party_invite() {
    let mut p = PartyState::new();
    assert_eq!(accept_party_invite(&mut p, a(1), 0).err(), Some("no pending invite".to_string()));
    assert_eq!(decline_party_invite(&mut p, a(1)).err(), Some("No pending invite".to_string()));
    p.set_pending_invite(PendingPartyInvite { leader: a(2), leader_name: "L".into(), members: vec![a(2)], received_at: 0 });
    let m = accept_party_invite(&mut p, a(1), 1_000).unwrap();
    assert!(matches!(m, SocialMessage::PartyAccept { from, to } if from == a(1) && to == a(2)));
    assert!(p.pending_join.is_some());
    p.set_pending_invite(PendingPartyInvite { leader: a(3), leader_name: "L".into(), members: vec![], received_at: 0 });
    let m = decline_party_invite(&mut p, a(1)).unwrap();
    assert!(matches!(m, SocialMessage::PartyDecline { from, to } if from == a(1) && to == a(3)));
    p.set_pending_invite(PendingPartyInvite { leader: a(3), leader_name: "L".into(), members: vec![], received_at: 0 });
    assert_eq!(accept_party_invite(&mut p, a(1), 91_000).err(), Some("invite expired".to_string()));
}

#[test]
fn leave_and_kick() {
    let mut p = PartyState::new();
    assert_eq!(leave_current_party(&mut p, a(1)).err(), Some("not in a party".to_string()));
    assert_eq!(kick_from_party(&mut p, a(1), a(2)).err(), Some("Not in a party".to_string()));
    p.create_party(a(1), "Me".into(), 0);
    p.party.as_mut().unwrap().add_member(PartyMember { address_hash: a(2), display_name: String::new(), joined_at: 1 }).unwrap();
    p.party.as_mut().unwrap().add_member(PartyMember { address_hash: a(3), display_name: String::new(), joined_at: 2 }).unwrap();
    assert_eq!(kick_from_party(&mut p, a(1), a(1)).err(), Some("leader cannot kick themselves".to_string()));
    assert!(is_msg(&kick_from_party(&mut p, a(1), a(3)).unwrap(), "PartyKick"));
    p.record_outgoing_invite(a(8), 0);
    assert!(is_msg(&leave_current_party(&mut p, a(1)).unwrap(), "PartyLeave"));
    assert!(!p.in_party());
    assert_eq!(p.outgoing_invite_count(), 0);
}
