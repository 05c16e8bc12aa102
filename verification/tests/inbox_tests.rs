use harmony_glitch::social::buddy::{BuddyEntry, BuddyState, PendingBuddyRequest};
use harmony_glitch::social::inbox::{handle_social_message, SocialEvent};
use harmony_glitch::social::party::{PartyMember, PartyState, PendingPartyInvite};
use harmony_glitch::social::types::SocialMessage;

fn a(b: u8) -> [u8; 16] {
    [b; 16]
}

const ME: u8 = 0x01;

fn handle(
    buddies: &mut BuddyState,
    party: &mut PartyState,
    sender: u8,
    msg: SocialMessage,
) -> Vec<SocialEvent> {
    handle_social_message(buddies, party, a(sender), a(ME), "Me", "Peer", 5_000, "2026-04-10", msg)
}

fn member(b: u8, at: u64) -> PartyMember {
    PartyMember { address_hash: a(b), display_name: format!("P{b}"), joined_at: at }
}

#[test]
fn spoofed_sender_is_dropped() {
    let mut b = BuddyState::new();
    let mut p = PartyState::new();
    let ev = handle(&mut b, &mut p, 0x02, SocialMessage::BuddyRequest { from: a(0x03), to: a(ME) });
    assert!(ev.is_empty());
    assert!(b.pending_requests.is_empty());
}

#[test]
fn message_for_someone_else_is_dropped() {
    let mut b = BuddyState::new();
    let mut p = PartyState::new();
    let ev = handle(&mut b, &mut p, 0x02, SocialMessage::BuddyRequest { from: a(0x02), to: a(0x09) });
    assert!(ev.is_empty());
    assert!(b.pending_requests.is_empty());
}

#[test]
fn blocked_sender_is_dropped() {
    let mut b = BuddyState::new();
    let mut p = PartyState::new();
    b.block_player(&a(0x02));
    let ev = handle(&mut b, &mut p, 0x02, SocialMessage::BuddyRequest { from: a(0x02), to: a(ME) });
    assert!(ev.is_empty());
    assert!(b.pending_requests.is_empty());
}

#[test]
fn buddy_request_is_stored_and_shown() {
    let mut b = BuddyState::new();
    let mut p = PartyState::new();
    let ev = handle(&mut b, &mut p, 0x02, SocialMessage::BuddyRequest { from: a(0x02), to: a(ME) });
    assert_eq!(b.pending_requests.len(), 1);
    assert_eq!(b.pending_requests[0].from_name, "Peer");
    assert_eq!(b.pending_requests[0].received_at, 5_000);
    assert!(matches!(&ev[..], [SocialEvent::BuddyRequestReceived { from, from_name }] if *from == a(0x02) && from_name == "Peer"));
}

#[test]
fn buddy_request_from_buddy_is_not_shown() {
    let mut b = BuddyState::new();
    let mut p = PartyState::new();
    b.add_buddy(BuddyEntry {
        address_hash: a(0x02),
        display_name: "Peer".into(),
        added_date: "2026-01-01".into(),
        co_presence_total: 0,
        last_seen_date: None,
    });
    let ev = handle(&mut b, &mut p, 0x02, SocialMessage::BuddyRequest { from: a(0x02), to: a(ME) });
    assert!(ev.is_empty());
}

#[test]
fn unsolicited_buddy_accept_is_ignored() {
    let mut b = BuddyState::new();
    let mut p = PartyState::new();
    let ev = handle(&mut b, &mut p, 0x02, SocialMessage::BuddyAccept { from: a(0x02), to: a(ME) });
    assert!(ev.is_empty());
    assert!(!b.is_buddy(&a(0x02)));
}

#[test]
fn buddy_accept_after_request_adds_buddy() {
    let mut b = BuddyState::new();
    let mut p = PartyState::new();
    b.record_outgoing_request(a(0x02), 1_000);
    b.add_pending_request(PendingBuddyRequest { from: a(0x02), from_name: "x".into(), received_at: 0 });
    let ev = handle(&mut b, &mut p, 0x02, SocialMessage::BuddyAccept { from: a(0x02), to: a(ME) });
    assert!(b.is_buddy(&a(0x02)));
    assert_eq!(b.buddies[0].added_date, "2026-04-10");
    assert_eq!(b.buddies[0].display_name, "Peer");
    assert!(b.pending_requests.is_empty());
    assert!(!b.has_outgoing_request(&a(0x02)));
    assert!(matches!(&ev[..], [SocialEvent::BuddyAccepted { from, .. }] if *from == a(0x02)));
}

#[test]
fn buddy_decline_consumes_request() {
    let mut b = BuddyState::new();
    let mut p = PartyState::new();
    b.record_outgoing_request(a(0x02), 1_000);
    let ev = handle(&mut b, &mut p, 0x02, SocialMessage::BuddyDecline { from: a(0x02), to: a(ME) });
    assert!(matches!(&ev[..], [SocialEvent::BuddyDeclined { from }] if *from == a(0x02)));
    let ev = handle(&mut b, &mut p, 0x02, SocialMessage::BuddyDecline { from: a(0x02), to: a(ME) });
    assert!(ev.is_empty());
}

#[test]
fn party_invite_is_stored() {
    let mut b = BuddyState::new();
    let mut p = PartyState::new();
    let ev = handle(
        &mut b,
        &mut p,
        0x02,
        SocialMessage::PartyInvite { leader: a(0x02), to: a(ME), members: vec![a(0x02), a(0x03)] },
    );
    let inv = p.pending_invite.as_ref().unwrap();
    assert_eq!(inv.leader, a(0x02));
    assert_eq!(inv.leader_name, "Peer");
    assert_eq!(inv.received_at, 5_000);
    assert!(matches!(&ev[..], [SocialEvent::PartyInviteReceived { member_count: 2, .. }]));
}

#[test]
fn party_accept_adds_member_and_announces() {
    let mut b = BuddyState::new();
    let mut p = PartyState::new();
    p.create_party(a(ME), "Me".into(), 0);
    p.record_outgoing_invite(a(0x02), 1_000);
    let ev = handle(&mut b, &mut p, 0x02, SocialMessage::PartyAccept { from: a(0x02), to: a(ME) });
    assert!(p.party.as_ref().unwrap().is_member(&a(0x02)));
    assert!(!p.has_outgoing_invite(&a(0x02)));
    assert_eq!(ev.len(), 2);
    assert!(matches!(&ev[1], SocialEvent::AnnounceMemberJoined { member, display_name } if *member == a(0x02) && display_name == "Peer"));
}

#[test]
fn party_accept_without_invite_is_ignored() {
    let mut b = BuddyState::new();
    let mut p = PartyState::new();
    p.create_party(a(ME), "Me".into(), 0);
    let ev = handle(&mut b, &mut p, 0x02, SocialMessage::PartyAccept { from: a(0x02), to: a(ME) });
    assert!(ev.is_empty());
    assert_eq!(p.party.as_ref().unwrap().members.len(), 1);
}

#[test]
fn party_leave_dissolves_two_member_party() {
    let mut b = BuddyState::new();
    let mut p = PartyState::new();
    p.create_party(a(ME), "Me".into(), 0);
    p.party.as_mut().unwrap().add_member(member(0x02, 10)).unwrap();
    p.record_outgoing_invite(a(0x05), 0);
    let ev = handle(&mut b, &mut p, 0x02, SocialMessage::PartyLeave { from: a(0x02) });
    assert!(!p.in_party());
    assert_eq!(p.outgoing_invite_count(), 0);
    assert!(matches!(&ev[..], [SocialEvent::PartyMemberLeft { .. }, SocialEvent::PartyDissolved]));
}

#[test]
fn leader_leaving_passes_leadership() {
    let mut b = BuddyState::new();
    let mut p = PartyState::new();
    p.create_party(a(0x02), "L".into(), 0);
    p.party.as_mut().unwrap().add_member(member(ME, 10)).unwrap();
    p.party.as_mut().unwrap().add_member(member(0x03, 20)).unwrap();
    let ev = handle(&mut b, &mut p, 0x02, SocialMessage::PartyLeave { from: a(0x02) });
    assert!(p.party.as_ref().unwrap().is_leader(&a(ME)));
    assert!(matches!(&ev[..], [SocialEvent::PartyLeaderChanged { new_leader }, SocialEvent::PartyMemberLeft { .. }] if *new_leader == a(ME)));
}

#[test]
fn kick_of_us_dissolves() {
    let mut b = BuddyState::new();
    let mut p = PartyState::new();
    p.create_party(a(0x02), "L".into(), 0);
    p.party.as_mut().unwrap().add_member(member(ME, 10)).unwrap();
    p.party.as_mut().unwrap().add_member(member(0x03, 20)).unwrap();
    let ev = handle(&mut b, &mut p, 0x02, SocialMessage::PartyKick { from: a(0x02), target: a(ME) });
    assert!(!p.in_party());
    assert!(matches!(&ev[..], [SocialEvent::PartyKick { .. }, SocialEvent::PartyDissolved]));
}

#[test]
fn kick_from_non_leader_is_ignored() {
    let mut b = BuddyState::new();
    let mut p = PartyState::new();
    p.create_party(a(0x02), "L".into(), 0);
    p.party.as_mut().unwrap().add_member(member(ME, 10)).unwrap();
    p.party.as_mut().unwrap().add_member(member(0x03, 20)).unwrap();
    let ev = handle(&mut b, &mut p, 0x03, SocialMessage::PartyKick { from: a(0x03), target: a(ME) });
    assert!(ev.is_empty());
    assert_eq!(p.party.as_ref().unwrap().members.len(), 3);
}

#[test]
fn member_joined_confirms_our_pending_join() {
    let mut b = BuddyState::new();
    let mut p = PartyState::new();
    p.set_pending_invite(PendingPartyInvite {
        leader: a(0x02),
        leader_name: "L".into(),
        members: vec![a(0x02), a(0x03)],
        received_at: 1_000,
    });
    p.begin_join(2_000).unwrap();
    let ev = handle(
        &mut b,
        &mut p,
        0x02,
        SocialMessage::PartyMemberJoined { from: a(0x02), member: a(ME), display_name: "Me".into() },
    );
    let party = p.party.as_ref().unwrap();
    assert!(party.is_leader(&a(0x02)));
    assert!(party.is_member(&a(0x03)));
    assert!(party.is_member(&a(ME)));
    assert!(p.pending_join.is_none());
    assert!(matches!(&ev[..], [SocialEvent::PartyJoined { leader }] if *leader == a(0x02)));
}

#[test]
fn member_joined_from_leader_adds_member() {
    let mut b = BuddyState::new();
    let mut p = PartyState::new();
    p.create_party(a(0x02), "L".into(), 0);
    p.party.as_mut().unwrap().add_member(member(ME, 10)).unwrap();
    let ev = handle(
        &mut b,
        &mut p,
        0x02,
        SocialMessage::PartyMemberJoined { from: a(0x02), member: a(0x04), display_name: "New".into() },
    );
    assert!(p.party.as_ref().unwrap().is_member(&a(0x04)));
    assert!(matches!(&ev[..], [SocialEvent::PartyMemberJoined { member_name, .. }] if member_name == "New"));
}

#[test]
fn dissolve_and_leader_change_need_the_leader() {
    let mut b = BuddyState::new();
    let mut p = PartyState::new();
    p.create_party(a(0x02), "L".into(), 0);
    p.party.as_mut().unwrap().add_member(member(ME, 10)).unwrap();
    p.party.as_mut().unwrap().add_member(member(0x03, 20)).unwrap();
    assert!(handle(&mut b, &mut p, 0x03, SocialMessage::PartyDissolved { from: a(0x03) }).is_empty());
    let ev = handle(&mut b, &mut p, 0x02, SocialMessage::PartyLeaderChanged { from: a(0x02), new_leader: a(0x03) });
    assert!(p.party.as_ref().unwrap().is_leader(&a(0x03)));
    assert!(matches!(&ev[..], [SocialEvent::PartyLeaderChanged { new_leader }] if *new_leader == a(0x03)));
    let ev = handle(&mut b, &mut p, 0x03, SocialMessage::PartyDissolved { from: a(0x03) });
    assert!(!p.in_party());
    assert!(matches!(&ev[..], [SocialEvent::PartyDissolved]));
}
