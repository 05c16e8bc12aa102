use vstd::prelude::*;
use vstd::utf8::encode_utf8;

use crate::hexcode::{decode_addr, hex_decoded, AddrHexError};
use crate::social::buddy::{request_matches, BuddyEntry, BuddyState, PendingBuddyRequest};
use crate::social::party::{
    pending_expired, ActiveParty, PartyState, MAX_PARTY_SIZE,
};
use crate::social::retain::{keep_test, keep_where, tag_addrs, Keep, Tagged};
use crate::social::types::{Addr, SocialMessage};
use crate::text::owned;

verus! {

/// Read a peer's address given as hexadecimal text.
pub fn parse_peer_hash(text: &str) -> (r: Result<Addr, String>)
    ensures
        hex_decoded(encode_utf8(text@)) is None ==> (r matches Err(e) && e@ == "Invalid peer hash"@),
        hex_decoded(encode_utf8(text@)) matches Some(b) && b.len() != 16 ==> (r matches Err(e) && e@
            == "Peer hash must be 16 bytes"@),
        hex_decoded(encode_utf8(text@)) matches Some(b) ==> (b.len() == 16 ==> (r matches Ok(a) && a@
            == b)),
{
    match decode_addr(text) {
        Ok(a) => Ok(a),
        Err(AddrHexError::NotHex) => Err(owned("Invalid peer hash")),
        Err(AddrHexError::WrongLength) => Err(owned("Peer hash must be 16 bytes")),
    }
}

/// Send a buddy request to `peer`: refused for a buddy, a blocked player,
/// or a player we already asked. Gives the message to send.
pub fn request_buddy(buddies: &mut BuddyState, peer: Addr, ours: Addr, now: u64) -> (r: Result<
    SocialMessage,
    String,
>)
    ensures
        old(buddies).buddy_addrs().contains(peer) ==> (r matches Err(e) && e@ == "Already a buddy"@),
        !old(buddies).buddy_addrs().contains(peer) && old(buddies).blocked@.contains(peer) ==> (r matches Err(
            e,
        ) && e@ == "Player is blocked"@),
        !old(buddies).buddy_addrs().contains(peer) && !old(buddies).blocked@.contains(peer)
            && tag_addrs(old(buddies).outgoing_requests@).contains(peer) ==> (r matches Err(e) && e@
            == "Buddy request already pending"@),
        r is Err ==> *final(buddies) == *old(buddies),
        r is Ok <==> (!old(buddies).buddy_addrs().contains(peer) && !old(buddies).blocked@.contains(peer)
            && !tag_addrs(old(buddies).outgoing_requests@).contains(peer)),
        r is Ok ==> {
            &&& r == Ok::<SocialMessage, String>(SocialMessage::BuddyRequest { from: ours, to: peer })
            &&& final(buddies).outgoing_requests@ == old(buddies).outgoing_requests@.push(
                crate::social::buddy::OutgoingBuddyRequest { to: peer, sent_at: now },
            )
            &&& final(buddies).buddies@ == old(buddies).buddies@
            &&& final(buddies).blocked@ == old(buddies).blocked@
            &&& final(buddies).pending_requests@ == old(buddies).pending_requests@
        },
        old(buddies).wf() ==> final(buddies).wf(),
{
    if buddies.is_buddy(&peer) {
        return Err(owned("Already a buddy"));
    }
    if buddies.is_blocked(&peer) {
        return Err(owned("Player is blocked"));
    }
    if buddies.has_outgoing_request(&peer) {
        return Err(owned("Buddy request already pending"));
    }
    buddies.record_outgoing_request(peer, now);
    Ok(SocialMessage::BuddyRequest { from: ours, to: peer })
}

/// Accept the pending buddy request from `peer`, if it is still answerable:
/// the sender becomes a buddy, added today. Gives the message to send.
pub fn accept_buddy(buddies: &mut BuddyState, peer: Addr, ours: Addr, now: u64, today: &str) -> (r: Result<
    SocialMessage,
    String,
>)
    ensures
        r is Ok <==> exists|i: int|
            0 <= i < old(buddies).pending_requests@.len() && request_matches(
                #[trigger] old(buddies).pending_requests@[i],
                peer,
                now,
            ),
        r matches Err(e) ==> e@ == "No pending buddy request from this player"@ && *final(buddies) == *old(
            buddies,
        ),
        r is Ok ==> {
            &&& r == Ok::<SocialMessage, String>(SocialMessage::BuddyAccept { from: ours, to: peer })
            &&& !old(buddies).blocked@.contains(peer) ==> final(buddies).buddy_addrs().contains(peer)
            &&& !old(buddies).blocked@.contains(peer) ==> final(buddies).pending_requests@ == keep_where(
                old(buddies).pending_requests@,
                keep_test::<PendingBuddyRequest>(Keep::NotAddr(peer)),
            )
            &&& !old(buddies).blocked@.contains(peer) && !old(buddies).buddy_addrs().contains(peer) ==> {
                let b = final(buddies).buddies@.last();
                &&& final(buddies).buddies@.len() == old(buddies).buddies@.len() + 1
                &&& final(buddies).buddies@.take(old(buddies).buddies@.len() as int) == old(buddies).buddies@
                &&& b.address_hash == peer
                &&& b.added_date@ == today@
                &&& b.co_presence_total == 0
                &&& b.last_seen_date is None
                &&& exists|i: int|
                    0 <= i < old(buddies).pending_requests@.len() && request_matches(
                        #[trigger] old(buddies).pending_requests@[i],
                        peer,
                        now,
                    ) && b.display_name == old(buddies).pending_requests@[i].from_name && forall|j: int|
                        0 <= j < i ==> !request_matches(#[trigger] old(buddies).pending_requests@[j], peer, now)
            }
            &&& final(buddies).blocked@ == old(buddies).blocked@
            &&& final(buddies).outgoing_requests@ == old(buddies).outgoing_requests@
        },
        old(buddies).wf() ==> final(buddies).wf(),
{
    let from_name = match buddies.get_pending_request(&peer, now) {
        Some(req) => req.from_name.clone(),
        None => {
            return Err(owned("No pending buddy request from this player"));
        },
    };
    buddies.add_buddy(
        BuddyEntry {
            address_hash: peer,
            display_name: from_name,
            added_date: owned(today),
            co_presence_total: 0,
            last_seen_date: None,
        },
    );
    proof {
        if !old(buddies).blocked@.contains(peer) {
            crate::social::retain::lemma_tag_addrs_contains(buddies.buddies@, peer);
            if !old(buddies).buddy_addrs().contains(peer) {
                assert(buddies.buddies@.take(old(buddies).buddies@.len() as int) =~= old(buddies).buddies@);
                assert(buddies.buddies@[buddies.buddies@.len() - 1].tag().0 == peer);
            }
        }
    }
    Ok(SocialMessage::BuddyAccept { from: ours, to: peer })
}

/// Decline the buddy request from `peer`: it is dropped. Gives the message
/// to send.
pub fn decline_buddy(buddies: &mut BuddyState, peer: Addr, ours: Addr) -> (m: SocialMessage)
    ensures
        m == (SocialMessage::BuddyDecline { from: ours, to: peer }),
        final(buddies).pending_requests@ == keep_where(
            old(buddies).pending_requests@,
            keep_test::<PendingBuddyRequest>(Keep::NotAddr(peer)),
        ),
        final(buddies).buddies@ == old(buddies).buddies@,
        final(buddies).blocked@ == old(buddies).blocked@,
        final(buddies).outgoing_requests@ == old(buddies).outgoing_requests@,
        old(buddies).wf() ==> final(buddies).wf(),
{
    buddies.remove_pending_request(&peer);
    SocialMessage::BuddyDecline { from: ours, to: peer }
}

/// Stop being buddies with `peer`; refused if they are no buddy. Gives the
/// message to send.
pub fn unfriend(buddies: &mut BuddyState, peer: Addr, ours: Addr) -> (r: Result<SocialMessage, String>)
    ensures
        r is Ok <==> old(buddies).buddy_addrs().contains(peer),
        r matches Err(e) ==> e@ == "Not a buddy"@,
        r is Ok ==> r == Ok::<SocialMessage, String>(SocialMessage::BuddyRemove { from: ours, to: peer }),
        final(buddies).buddies@ == keep_where(old(buddies).buddies@, keep_test::<BuddyEntry>(Keep::NotAddr(peer))),
        final(buddies).blocked@ == old(buddies).blocked@,
        final(buddies).pending_requests@ == old(buddies).pending_requests@,
        final(buddies).outgoing_requests@ == old(buddies).outgoing_requests@,
        old(buddies).wf() ==> final(buddies).wf(),
{
    if !buddies.remove_buddy(&peer) {
        return Err(owned("Not a buddy"));
    }
    Ok(SocialMessage::BuddyRemove { from: ours, to: peer })
}

/// The party the player leads for an invite: the current one, or a new one
/// formed by the player.
pub open spec fn inviting_party(op: PartyState, ours: Addr, our_name: Seq<char>, now: u64) -> (Addr, Seq<crate::social::party::MemberView>) {
    match op.party {
        Some(p) => (p.leader, p.members_view()),
        None => (ours, seq![(ours, our_name, now)]),
    }
}

/// Invite `peer` to the party, forming one led by the player if there is
/// none. Refused for a blocked player, when the player does not lead the
/// party, when it is full, and when the peer is already in it. Gives the
/// message to send, which lists the current members.
pub fn invite_to_party(
    party: &mut PartyState,
    buddies: &BuddyState,
    peer: Addr,
    ours: Addr,
    our_name: String,
    now: u64,
) -> (r: Result<SocialMessage, String>)
    ensures
        ({
            let (leader, ms) = inviting_party(*old(party), ours, our_name@, now);
            let addrs = crate::social::party::addrs_of(ms);
            &&& buddies.blocked@.contains(peer) ==> (r matches Err(e) && e@ == "Player is blocked"@
                && *final(party) == *old(party))
            &&& !buddies.blocked@.contains(peer) ==> {
                &&& final(party).party matches Some(p) && p.leader == leader && p.members_view() == ms
                &&& old(party).party matches Some(p) ==> final(party).party == old(party).party
                &&& final(party).pending_invite == old(party).pending_invite
                &&& final(party).pending_join == old(party).pending_join
                &&& leader != ours ==> (r matches Err(e) && e@ == "Only the party leader can invite"@)
                &&& leader == ours && ms.len() >= MAX_PARTY_SIZE ==> (r matches Err(e) && e@
                    == "Party is full"@)
                &&& leader == ours && ms.len() < MAX_PARTY_SIZE && addrs.contains(peer) ==> (r matches Err(
                    e,
                ) && e@ == "Player is already in the party"@)
                &&& r is Err ==> final(party).outgoing() == old(party).outgoing()
                &&& r is Ok <==> (leader == ours && ms.len() < MAX_PARTY_SIZE && !addrs.contains(peer))
                &&& r matches Ok(m) ==> (m matches SocialMessage::PartyInvite { leader: l, to, members }
                    && l == ours && to == peer && members@ == addrs)
                &&& r is Ok ==> final(party).outgoing() == crate::social::party::refresh_outgoing(
                    old(party).outgoing(),
                    peer,
                    now,
                )
            }
        }),
        old(party).wf() ==> final(party).wf(),
{
    if addrs_contain_blocked(buddies, &peer) {
        return Err(owned("Player is blocked"));
    }
    if !party.in_party() {
        party.create_party(ours, our_name, now);
    }
    let (leads, full, present, hashes) = match &party.party {
        Some(p) => (p.is_leader(&ours), p.members.len() >= MAX_PARTY_SIZE, p.is_member(&peer), p.member_hashes()),
        None => (false, false, false, Vec::new()),
    };
    proof {
        assert(party.party->0.members@.len() == party.party->0.members_view().len());
    }
    if !leads {
        return Err(owned("Only the party leader can invite"));
    }
    if full {
        return Err(owned("Party is full"));
    }
    if present {
        return Err(owned("Player is already in the party"));
    }
    party.record_outgoing_invite(peer, now);
    Ok(SocialMessage::PartyInvite { leader: ours, to: peer, members: hashes })
}

/// Whether `peer` is blocked.
fn addrs_contain_blocked(buddies: &BuddyState, peer: &Addr) -> (b: bool)
    ensures
        b == buddies.blocked@.contains(*peer),
{
    buddies.is_blocked(peer)
}

/// Accept the pending party invite: it becomes a pending join, to be
/// committed when the leader confirms. Gives the message to send to the
/// leader.
pub fn accept_party_invite(party: &mut PartyState, ours: Addr, now: u64) -> (r: Result<SocialMessage, String>)
    ensures
        old(party).pending_invite is None ==> (r matches Err(e) && e@ == "no pending invite"@),
        pending_expired(old(party).pending_invite, now) ==> (r matches Err(e) && e@ == "invite expired"@),
        old(party).pending_invite matches Some(inv) ==> (!crate::social::party::invite_expired(now, inv.received_at) ==> (
            r == Ok::<SocialMessage, String>(SocialMessage::PartyAccept { from: ours, to: inv.leader })
            && (final(party).pending_join matches Some(pj) && pj.leader == inv.leader && pj.leader_name
            == inv.leader_name && pj.members == inv.members && pj.accepted_at == now))),
        r is Err ==> final(party).pending_join == old(party).pending_join,
        final(party).pending_invite is None,
        final(party).party == old(party).party,
        final(party).outgoing() == old(party).outgoing(),
        old(party).wf() ==> final(party).wf(),
{
    match party.begin_join(now) {
        Ok(leader) => Ok(SocialMessage::PartyAccept { from: ours, to: leader }),
        Err(e) => Err(owned(e)),
    }
}

/// Decline the pending party invite. Gives the message to send to its
/// leader.
pub fn decline_party_invite(party: &mut PartyState, ours: Addr) -> (r: Result<SocialMessage, String>)
    ensures
        old(party).pending_invite is None ==> (r matches Err(e) && e@ == "No pending invite"@
            && *final(party) == *old(party)),
        old(party).pending_invite matches Some(inv) ==> r == Ok::<SocialMessage, String>(
            SocialMessage::PartyDecline { from: ours, to: inv.leader },
        ),
        final(party).pending_invite is None,
        final(party).party == old(party).party,
        final(party).pending_join == old(party).pending_join,
        final(party).outgoing() == old(party).outgoing(),
        old(party).wf() ==> final(party).wf(),
{
    let leader = match &party.pending_invite {
        Some(inv) => inv.leader,
        None => {
            return Err(owned("No pending invite"));
        },
    };
    party.decline_invite();
    Ok(SocialMessage::PartyDecline { from: ours, to: leader })
}

/// Leave the party; the invites we sent are dropped. Gives the message to
/// send.
pub fn leave_current_party(party: &mut PartyState, ours: Addr) -> (r: Result<SocialMessage, String>)
    ensures
        old(party).party is None ==> (r matches Err(e) && e@ == "not in a party"@ && *final(party) == *old(
            party,
        )),
        old(party).party matches Some(p) ==> {
            let rest = crate::social::party::without_addr(p.members_view(), ours);
            &&& r == Ok::<SocialMessage, String>(SocialMessage::PartyLeave { from: ours })
            &&& final(party).outgoing().len() == 0
            &&& rest.len() <= 1 ==> final(party).party is None
            &&& rest.len() > 1 ==> (final(party).party matches Some(q) && q.members_view() == rest
                && q.created_at == p.created_at && q.leader == (if p.leader == ours {
                crate::social::party::earliest_addr(rest)
            } else {
                p.leader
            }))
        },
        final(party).pending_invite == old(party).pending_invite,
        final(party).pending_join == old(party).pending_join,
        old(party).wf() ==> final(party).wf(),
{
    match party.leave_party(&ours) {
        Ok(_) => {
            party.clear_outgoing_invites();
            Ok(SocialMessage::PartyLeave { from: ours })
        },
        Err(e) => Err(owned(e)),
    }
}

/// Kick `peer` from the party the player leads. Gives the message to send.
pub fn kick_from_party(party: &mut PartyState, ours: Addr, peer: Addr) -> (r: Result<SocialMessage, String>)
    ensures
        old(party).party is None ==> (r matches Err(e) && e@ == "Not in a party"@),
        old(party).party matches Some(p) ==> {
            &&& p.leader != ours ==> (r matches Err(e) && e@ == "only the leader can kick"@)
            &&& p.leader == ours && ours == peer ==> (r matches Err(e) && e@ == "leader cannot kick themselves"@)
            &&& p.leader == ours && ours != peer && !p.addrs().contains(peer) ==> (r matches Err(e) && e@
                == "target is not a member"@)
            &&& r is Ok <==> (p.leader == ours && ours != peer && p.addrs().contains(peer))
            &&& r is Ok ==> r == Ok::<SocialMessage, String>(SocialMessage::PartyKick { from: ours, target: peer })
            &&& r is Ok ==> (final(party).party matches Some(q) && q.members_view() == crate::social::party::without_addr(
                p.members_view(),
                peer,
            ) && q.leader == p.leader && q.created_at == p.created_at)
        },
        r is Err ==> *final(party) == *old(party),
        final(party).pending_invite == old(party).pending_invite,
        final(party).pending_join == old(party).pending_join,
        final(party).outgoing() == old(party).outgoing(),
        old(party).wf() ==> final(party).wf(),
{
    let r = match party.party.as_mut() {
        None => Err(owned("Not in a party")),
        Some(p) => match p.kick_member(&ours, &peer) {
            Ok(()) => Ok(SocialMessage::PartyKick { from: ours, target: peer }),
            Err(e) => Err(owned(e)),
        },
    };
    r
}

} // verus!
