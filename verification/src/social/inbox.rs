use vstd::prelude::*;

use crate::social::buddy::{BuddyEntry, BuddyState, PendingBuddyRequest};
use crate::social::party::{
    addrs_of, earliest_addr, invite_base, not_sent_to, without_addr, ActiveParty, PartyMember,
    PartyState, PendingPartyInvite, MAX_PARTY_SIZE,
};
use crate::social::retain::{keep_test, keep_where, tag_addrs, Keep};
use crate::social::types::{addr_eq, Addr, SocialMessage};
use crate::text::owned;

verus! {

/// What the player is told, or what must be sent on, after a social message
/// from another player was handled.
pub enum SocialEvent {
    BuddyRequestReceived { from: Addr, from_name: String },
    BuddyAccepted { from: Addr, from_name: String },
    BuddyDeclined { from: Addr },
    BuddyRemoved { from: Addr },
    PartyInviteReceived { leader: Addr, leader_name: String, member_count: usize },
    PartyMemberJoined { member: Addr, member_name: String },
    PartyInviteDeclined { from: Addr },
    PartyLeaderChanged { new_leader: Addr },
    PartyMemberLeft { member: Addr },
    PartyDissolved,
    PartyKick { target: Addr },
    PartyJoined { leader: Addr },
    /// Tell the other members that `member` joined our party.
    AnnounceMemberJoined { member: Addr, display_name: String },
}

/// The sender a message claims to come from.
pub open spec fn claimed_sender(msg: SocialMessage) -> Addr {
    match msg {
        SocialMessage::BuddyRequest { from, .. } => from,
        SocialMessage::BuddyAccept { from, .. } => from,
        SocialMessage::BuddyDecline { from, .. } => from,
        SocialMessage::BuddyRemove { from, .. } => from,
        SocialMessage::PartyInvite { leader, .. } => leader,
        SocialMessage::PartyAccept { from, .. } => from,
        SocialMessage::PartyDecline { from, .. } => from,
        SocialMessage::PartyLeave { from } => from,
        SocialMessage::PartyKick { from, .. } => from,
        SocialMessage::PartyMemberJoined { from, .. } => from,
        SocialMessage::PartyMemberLeft { from, .. } => from,
        SocialMessage::PartyDissolved { from } => from,
        SocialMessage::PartyLeaderChanged { from, .. } => from,
    }
}

/// The recipient of a directed message; party broadcasts have none.
pub open spec fn recipient(msg: SocialMessage) -> Option<Addr> {
    match msg {
        SocialMessage::BuddyRequest { to, .. } => Some(to),
        SocialMessage::BuddyAccept { to, .. } => Some(to),
        SocialMessage::BuddyDecline { to, .. } => Some(to),
        SocialMessage::BuddyRemove { to, .. } => Some(to),
        SocialMessage::PartyInvite { to, .. } => Some(to),
        SocialMessage::PartyAccept { to, .. } => Some(to),
        SocialMessage::PartyDecline { to, .. } => Some(to),
        _ => None,
    }
}

/// A message is looked at only when it really comes from its claimed
/// sender, is addressed to us (if directed), and its sender is not blocked.
pub open spec fn admitted(msg: SocialMessage, sender: Addr, ours: Addr, blocked: Seq<Addr>) -> bool {
    &&& claimed_sender(msg) == sender
    &&& recipient(msg) matches Some(to) ==> to == ours
    &&& !blocked.contains(sender)
}

/// Only the party changed, and within it only the party itself.
pub open spec fn only_party_changed(a: PartyState, b: PartyState) -> bool {
    &&& b.pending_invite == a.pending_invite
    &&& b.pending_join == a.pending_join
    &&& b.outgoing() == a.outgoing()
}

/// The party was dissolved: none is left, nor any outgoing invite.
pub open spec fn dissolved_from(a: PartyState, b: PartyState) -> bool {
    &&& b.party is None
    &&& b.outgoing().len() == 0
    &&& b.pending_invite == a.pending_invite
    &&& b.pending_join == a.pending_join
}

/// The party state after `member` was taken out of the party `p` of `a`:
/// a party left with at most one member is dissolved; otherwise the rest
/// stay, and leadership passes on if the leader left.
pub open spec fn removed_from_party(a: PartyState, p: ActiveParty, member: Addr, b: PartyState) -> bool {
    let rest = without_addr(p.members_view(), member);
    if rest.len() <= 1 {
        dissolved_from(a, b)
    } else {
        &&& only_party_changed(a, b)
        &&& b.party matches Some(q) && q.members_view() == rest && q.created_at == p.created_at
            && q.leader == (if p.leader == member {
            earliest_addr(rest)
        } else {
            p.leader
        })
    }
}

/// What the player is told when `member` leaves the party `p`.
pub open spec fn removal_events(p: ActiveParty, member: Addr) -> Seq<SocialEvent> {
    let rest = without_addr(p.members_view(), member);
    let changed = if rest.len() > 1 && p.leader == member {
        seq![SocialEvent::PartyLeaderChanged { new_leader: earliest_addr(rest) }]
    } else {
        Seq::empty()
    };
    let tail = if rest.len() <= 1 {
        seq![SocialEvent::PartyDissolved]
    } else {
        Seq::empty()
    };
    changed + seq![SocialEvent::PartyMemberLeft { member }] + tail
}

/// Drop the party and the invites we sent for it.
fn dissolve(party: &mut PartyState)
    ensures
        dissolved_from(*old(party), *final(party)),
        old(party).wf() ==> final(party).wf(),
{
    party.party = None;
    party.clear_outgoing_invites();
}

/// Take `member` out of the current party, dissolving it when at most one
/// member is left, and tell the player.
fn leave_or_remove(party: &mut PartyState, member: &Addr, events: &mut Vec<SocialEvent>)
    requires
        old(party).party matches Some(p) && p.addrs().contains(*member),
    ensures
        removed_from_party(*old(party), old(party).party->0, *member, *final(party)),
        final(events)@ == old(events)@ + removal_events(old(party).party->0, *member),
        old(party).wf() ==> final(party).wf(),
{
    let ghost p0 = party.party->0;
    let ghost prior = *party;
    let (new_leader, dissolving) = match party.party.as_mut() {
        Some(p) => {
            let (_remaining, new_leader) = p.remove_member(member);
            (new_leader, p.members.len() <= 1)
        },
        None => (None, false),
    };
    let ghost rest = without_addr(p0.members_view(), *member);
    proof {
        assert(party.party->0.members@.len() == party.party->0.members_view().len());
        assert(rest.len() == party.party->0.members@.len());
    }
    if dissolving {
        dissolve(party);
    } else {
        match new_leader {
            Some(l) => {
                events.push(SocialEvent::PartyLeaderChanged { new_leader: l });
            },
            None => {},
        }
    }
    events.push(SocialEvent::PartyMemberLeft { member: *member });
    if dissolving {
        events.push(SocialEvent::PartyDissolved);
    }
    proof {
        let changed = if rest.len() > 1 && p0.leader == *member {
            seq![SocialEvent::PartyLeaderChanged { new_leader: earliest_addr(rest) }]
        } else {
            Seq::<SocialEvent>::empty()
        };
        let tail = if rest.len() <= 1 {
            seq![SocialEvent::PartyDissolved]
        } else {
            Seq::<SocialEvent>::empty()
        };
        assert(events@ =~= old(events)@ + (changed + seq![SocialEvent::PartyMemberLeft { member: *member }] + tail));
    }
}

// ── Outcomes, one per kind of message ───────────────────────────────────

/// The buddy lists other than the pending requests are unchanged.
pub open spec fn buddies_same_but_pending(a: BuddyState, b: BuddyState) -> bool {
    &&& b.buddies@ == a.buddies@
    &&& b.blocked@ == a.blocked@
    &&& b.outgoing_requests@ == a.outgoing_requests@
}

/// A buddy request from `from`: stored (replacing an earlier one) unless the
/// sender is blocked or already a buddy, and then shown.
pub open spec fn buddy_request_outcome(
    ob: BuddyState,
    nb: BuddyState,
    ev: Seq<SocialEvent>,
    from: Addr,
    name: Seq<char>,
    now: u64,
) -> bool {
    &&& buddies_same_but_pending(ob, nb)
    &&& if ob.blocked@.contains(from) || ob.buddy_addrs().contains(from) {
        nb.pending_requests@ == ob.pending_requests@ && ev.len() == 0
    } else {
        let kept = keep_where(ob.pending_requests@, keep_test::<PendingBuddyRequest>(Keep::NotAddr(from)));
        &&& nb.pending_requests@.len() == kept.len() + 1
        &&& nb.pending_requests@.take(kept.len() as int) == kept
        &&& nb.pending_requests@.last().from == from
        &&& nb.pending_requests@.last().from_name@ == name
        &&& nb.pending_requests@.last().received_at == now
        &&& ev.len() == 1
        &&& ev[0] matches SocialEvent::BuddyRequestReceived { from: f, from_name: n } && f == from && n@ == name
    }
}

/// A buddy accepting our request: ignored unless we sent one; otherwise the
/// request is used up, the sender becomes a buddy (unless already one) and
/// their pending request goes, and it is shown.
pub open spec fn buddy_accept_outcome(
    ob: BuddyState,
    nb: BuddyState,
    ev: Seq<SocialEvent>,
    from: Addr,
    name: Seq<char>,
    today: Seq<char>,
) -> bool {
    if !tag_addrs(ob.outgoing_requests@).contains(from) {
        &&& buddies_same_but_pending(ob, nb)
        &&& nb.pending_requests@ == ob.pending_requests@
        &&& ev.len() == 0
    } else {
        &&& nb.outgoing_requests@ == keep_where(ob.outgoing_requests@, keep_test::<crate::social::buddy::OutgoingBuddyRequest>(Keep::NotAddr(from)))
        &&& nb.blocked@ == ob.blocked@
        &&& !ob.blocked@.contains(from) ==> {
            &&& nb.pending_requests@ == keep_where(ob.pending_requests@, keep_test::<PendingBuddyRequest>(Keep::NotAddr(from)))
            &&& if ob.buddy_addrs().contains(from) {
                nb.buddies@ == ob.buddies@
            } else {
                &&& nb.buddies@.len() == ob.buddies@.len() + 1
                &&& nb.buddies@.take(ob.buddies@.len() as int) == ob.buddies@
                &&& nb.buddies@.last().address_hash == from
                &&& nb.buddies@.last().display_name@ == name
                &&& nb.buddies@.last().added_date@ == today
                &&& nb.buddies@.last().co_presence_total == 0
                &&& nb.buddies@.last().last_seen_date is None
            }
        }
        &&& ev.len() == 1
        &&& ev[0] matches SocialEvent::BuddyAccepted { from: f, from_name: n } && f == from && n@ == name
    }
}

/// An answer to a request or invite we sent: the matching entry of `sent`
/// goes, and it is shown if there was one.
pub open spec fn declined_outcome(had: bool, ev: Seq<SocialEvent>, shown: SocialEvent) -> bool {
    ev == if had {
        seq![shown]
    } else {
        Seq::<SocialEvent>::empty()
    }
}

/// A party invite: it replaces any pending invite and is shown.
pub open spec fn party_invite_outcome(
    op: PartyState,
    np: PartyState,
    ev: Seq<SocialEvent>,
    leader: Addr,
    members: Vec<Addr>,
    name: Seq<char>,
    now: u64,
) -> bool {
    &&& np.party == op.party
    &&& np.pending_join == op.pending_join
    &&& np.outgoing() == op.outgoing()
    &&& np.pending_invite matches Some(inv) && inv.leader == leader && inv.leader_name@ == name
        && inv.members == members && inv.received_at == now
    &&& ev.len() == 1
    &&& ev[0] matches SocialEvent::PartyInviteReceived { leader: l, leader_name: n, member_count: c }
        && l == leader && n@ == name && c == members@.len()
}

/// A player accepting our party invite: ignored unless we invited them and
/// lead a party with room for them; otherwise they join, the invite is used
/// up, and the other members are told.
pub open spec fn party_accept_outcome(
    op: PartyState,
    np: PartyState,
    ev: Seq<SocialEvent>,
    from: Addr,
    name: Seq<char>,
    now: u64,
) -> bool {
    match op.party {
        Some(p) => if op.outgoing_addrs().contains(from) && p.members@.len() < MAX_PARTY_SIZE
            && !p.addrs().contains(from) {
            &&& np.party matches Some(q) && q.leader == p.leader && q.created_at == p.created_at
                && q.members_view() == p.members_view().push((from, name, now))
            &&& np.outgoing() == keep_where(op.outgoing(), not_sent_to(from))
            &&& np.pending_invite == op.pending_invite
            &&& np.pending_join == op.pending_join
            &&& ev.len() == 2
            &&& ev[0] matches SocialEvent::PartyMemberJoined { member: m, member_name: n } && m == from
                && n@ == name
            &&& ev[1] matches SocialEvent::AnnounceMemberJoined { member: m, display_name: n } && m
                == from && n@ == name
        } else {
            np == op && ev.len() == 0
        },
        None => np == op && ev.len() == 0,
    }
}

/// A kick from the leader: kicking us, or leaving at most one member,
/// dissolves the party; kicking anyone else who is a member removes them.
pub open spec fn party_kick_outcome(
    op: PartyState,
    np: PartyState,
    ev: Seq<SocialEvent>,
    sender: Addr,
    target: Addr,
    ours: Addr,
) -> bool {
    match op.party {
        None => np == op && ev.len() == 0,
        Some(p) => if p.leader != sender {
            np == op && ev.len() == 0
        } else if target == ours {
            dissolved_from(op, np) && ev == seq![SocialEvent::PartyKick { target }, SocialEvent::PartyDissolved]
        } else if !p.addrs().contains(target) {
            np == op && ev.len() == 0
        } else {
            &&& removed_from_party(op, p, target, np)
            &&& ev == if without_addr(p.members_view(), target).len() <= 1 {
                seq![SocialEvent::PartyKick { target }, SocialEvent::PartyDissolved]
            } else {
                seq![SocialEvent::PartyKick { target }]
            }
        },
    }
}

/// A member leaving, or the leader saying that one left: the member is
/// taken out, which may pass on leadership or dissolve the party.
pub open spec fn member_left_outcome(
    op: PartyState,
    np: PartyState,
    ev: Seq<SocialEvent>,
    sender: Addr,
    member: Addr,
) -> bool {
    match op.party {
        None => np == op && ev.len() == 0,
        Some(p) => if (p.leader != sender && sender != member) || !p.addrs().contains(member) {
            np == op && ev.len() == 0
        } else {
            removed_from_party(op, p, member, np) && ev == removal_events(p, member)
        },
    }
}

/// The leader saying a member joined. When the member is us and we wait for
/// this leader's confirmation, our pending join is committed; otherwise the
/// member joins our party if the sender leads it and there is room.
pub open spec fn member_joined_outcome(
    op: PartyState,
    np: PartyState,
    ev: Seq<SocialEvent>,
    sender: Addr,
    member: Addr,
    display_name: Seq<char>,
    ours: Addr,
    our_name: Seq<char>,
    now: u64,
) -> bool {
    if member == ours && (op.pending_join matches Some(pj) && pj.leader == sender) {
        let pj = op.pending_join->0;
        let base = invite_base(pj.leader, pj.leader_name@, pj.members@, pj.accepted_at, ours);
        let ok = base.len() < MAX_PARTY_SIZE && !addrs_of(base).contains(ours);
        &&& np.pending_join is None
        &&& np.pending_invite == op.pending_invite
        &&& np.outgoing() == op.outgoing()
        &&& ok ==> (np.party matches Some(q) && q.leader == pj.leader && q.created_at
            == pj.accepted_at && q.members_view() == base.push((ours, our_name, now)))
        &&& !ok ==> np.party == op.party
        &&& ev == if ok {
            seq![SocialEvent::PartyJoined { leader: sender }]
        } else {
            Seq::<SocialEvent>::empty()
        }
    } else {
        match op.party {
            Some(p) => if p.leader == sender && p.members@.len() < MAX_PARTY_SIZE && !p.addrs().contains(
                member,
            ) {
                &&& only_party_changed(op, np)
                &&& np.party matches Some(q) && q.leader == p.leader && q.created_at == p.created_at
                    && q.members_view() == p.members_view().push((member, display_name, now))
                &&& ev.len() == 1
                &&& ev[0] matches SocialEvent::PartyMemberJoined { member: m, member_name: n } && m
                    == member && n@ == display_name
            } else {
                np == op && ev.len() == 0
            },
            None => np == op && ev.len() == 0,
        }
    }
}

/// The leader dissolving the party.
pub open spec fn dissolved_outcome(op: PartyState, np: PartyState, ev: Seq<SocialEvent>, sender: Addr) -> bool {
    match op.party {
        Some(p) => if p.leader == sender {
            dissolved_from(op, np) && ev == seq![SocialEvent::PartyDissolved]
        } else {
            np == op && ev.len() == 0
        },
        None => np == op && ev.len() == 0,
    }
}

/// The leader handing leadership to another member.
pub open spec fn leader_changed_outcome(
    op: PartyState,
    np: PartyState,
    ev: Seq<SocialEvent>,
    sender: Addr,
    new_leader: Addr,
) -> bool {
    match op.party {
        Some(p) => if p.leader == sender && p.addrs().contains(new_leader) {
            &&& only_party_changed(op, np)
            &&& np.party matches Some(q) && q.leader == new_leader && q.members@ == p.members@
                && q.created_at == p.created_at
            &&& ev == seq![SocialEvent::PartyLeaderChanged { new_leader }]
        } else {
            np == op && ev.len() == 0
        },
        None => np == op && ev.len() == 0,
    }
}

/// Handle a social message from another player, given who really sent it
/// (`sender`), our own address and name, the sender's display name, the time
/// and today's date. Spoofed messages, messages for someone else and
/// messages from blocked players change nothing. Gives what to show the
/// player and what to send on.
pub fn handle_social_message(
    buddies: &mut BuddyState,
    party: &mut PartyState,
    sender: Addr,
    ours: Addr,
    our_name: &str,
    sender_name: &str,
    now: u64,
    today: &str,
    msg: SocialMessage,
) -> (ev: Vec<SocialEvent>)
    ensures
        !admitted(msg, sender, ours, old(buddies).blocked@) ==> *final(buddies) == *old(buddies)
            && *final(party) == *old(party) && ev@.len() == 0,
        admitted(msg, sender, ours, old(buddies).blocked@) ==> match msg {
            SocialMessage::BuddyRequest { from, .. } => *final(party) == *old(party)
                && buddy_request_outcome(*old(buddies), *final(buddies), ev@, from, sender_name@, now),
            SocialMessage::BuddyAccept { from, .. } => *final(party) == *old(party)
                && buddy_accept_outcome(*old(buddies), *final(buddies), ev@, from, sender_name@, today@),
            SocialMessage::BuddyDecline { .. } => *final(party) == *old(party)
                && final(buddies).outgoing_requests@ == keep_where(
                old(buddies).outgoing_requests@,
                keep_test::<crate::social::buddy::OutgoingBuddyRequest>(Keep::NotAddr(sender)),
            ) && final(buddies).buddies@ == old(buddies).buddies@ && final(buddies).blocked@ == old(
                buddies,
            ).blocked@ && final(buddies).pending_requests@ == old(buddies).pending_requests@
                && declined_outcome(
                tag_addrs(old(buddies).outgoing_requests@).contains(sender),
                ev@,
                SocialEvent::BuddyDeclined { from: sender },
            ),
            SocialMessage::BuddyRemove { from, .. } => *final(party) == *old(party)
                && final(buddies).buddies@ == keep_where(
                old(buddies).buddies@,
                keep_test::<BuddyEntry>(Keep::NotAddr(from)),
            ) && final(buddies).blocked@ == old(buddies).blocked@ && final(buddies).pending_requests@
                == old(buddies).pending_requests@ && final(buddies).outgoing_requests@ == old(
                buddies,
            ).outgoing_requests@ && declined_outcome(
                old(buddies).buddy_addrs().contains(from),
                ev@,
                SocialEvent::BuddyRemoved { from: sender },
            ),
            SocialMessage::PartyInvite { leader, members, .. } => *final(buddies) == *old(buddies)
                && party_invite_outcome(*old(party), *final(party), ev@, leader, members, sender_name@, now),
            SocialMessage::PartyAccept { from, .. } => *final(buddies) == *old(buddies)
                && party_accept_outcome(*old(party), *final(party), ev@, from, sender_name@, now),
            SocialMessage::PartyDecline { .. } => *final(buddies) == *old(buddies)
                && final(party).outgoing() == keep_where(old(party).outgoing(), not_sent_to(sender))
                && final(party).party == old(party).party && final(party).pending_invite == old(
                party,
            ).pending_invite && final(party).pending_join == old(party).pending_join
                && declined_outcome(
                old(party).outgoing_addrs().contains(sender),
                ev@,
                SocialEvent::PartyInviteDeclined { from: sender },
            ),
            SocialMessage::PartyLeave { from } => *final(buddies) == *old(buddies)
                && member_left_outcome(*old(party), *final(party), ev@, sender, from),
            SocialMessage::PartyKick { target, .. } => *final(buddies) == *old(buddies)
                && party_kick_outcome(*old(party), *final(party), ev@, sender, target, ours),
            SocialMessage::PartyMemberJoined { member, display_name, .. } => *final(buddies) == *old(
                buddies,
            ) && member_joined_outcome(
                *old(party),
                *final(party),
                ev@,
                sender,
                member,
                display_name@,
                ours,
                our_name@,
                now,
            ),
            SocialMessage::PartyMemberLeft { member, .. } => *final(buddies) == *old(buddies)
                && member_left_outcome(*old(party), *final(party), ev@, sender, member),
            SocialMessage::PartyDissolved { .. } => *final(buddies) == *old(buddies)
                && dissolved_outcome(*old(party), *final(party), ev@, sender),
            SocialMessage::PartyLeaderChanged { new_leader, .. } => *final(buddies) == *old(buddies)
                && leader_changed_outcome(*old(party), *final(party), ev@, sender, new_leader),
        },
        old(buddies).wf() ==> final(buddies).wf(),
        old(party).wf() ==> final(party).wf(),
{
    let mut ev: Vec<SocialEvent> = Vec::new();
    let claimed = match &msg {
        SocialMessage::BuddyRequest { from, .. } => *from,
        SocialMessage::BuddyAccept { from, .. } => *from,
        SocialMessage::BuddyDecline { from, .. } => *from,
        SocialMessage::BuddyRemove { from, .. } => *from,
        SocialMessage::PartyInvite { leader, .. } => *leader,
        SocialMessage::PartyAccept { from, .. } => *from,
        SocialMessage::PartyDecline { from, .. } => *from,
        SocialMessage::PartyLeave { from } => *from,
        SocialMessage::PartyKick { from, .. } => *from,
        SocialMessage::PartyMemberJoined { from, .. } => *from,
        SocialMessage::PartyMemberLeft { from, .. } => *from,
        SocialMessage::PartyDissolved { from } => *from,
        SocialMessage::PartyLeaderChanged { from, .. } => *from,
    };
    if !addr_eq(&claimed, &sender) {
        return ev;
    }
    let to = match &msg {
        SocialMessage::BuddyRequest { to, .. } => Some(*to),
        SocialMessage::BuddyAccept { to, .. } => Some(*to),
        SocialMessage::BuddyDecline { to, .. } => Some(*to),
        SocialMessage::BuddyRemove { to, .. } => Some(*to),
        SocialMessage::PartyInvite { to, .. } => Some(*to),
        SocialMessage::PartyAccept { to, .. } => Some(*to),
        SocialMessage::PartyDecline { to, .. } => Some(*to),
        _ => None,
    };
    match to {
        Some(t) => {
            if !addr_eq(&t, &ours) {
                return ev;
            }
        },
        None => {},
    }
    if buddies.is_blocked(&sender) {
        return ev;
    }
    match msg {
        SocialMessage::BuddyRequest { from, .. } => {
            let stored = buddies.add_pending_request(
                PendingBuddyRequest { from, from_name: owned(sender_name), received_at: now },
            );
            if stored {
                ev.push(SocialEvent::BuddyRequestReceived { from: sender, from_name: owned(sender_name) });
            }
            proof {
                let kept = keep_where(old(buddies).pending_requests@, keep_test::<PendingBuddyRequest>(Keep::NotAddr(from)));
                if stored {
                    assert(buddies.pending_requests@.take(kept.len() as int) =~= kept);
                }
            }
        },
        SocialMessage::BuddyAccept { from, .. } => {
            proof {
                crate::social::retain::lemma_tag_addrs_contains(old(buddies).outgoing_requests@, from);
                if !tag_addrs(old(buddies).outgoing_requests@).contains(from) {
                    crate::social::retain::lemma_keep_where_all(
                        old(buddies).outgoing_requests@,
                        keep_test::<crate::social::buddy::OutgoingBuddyRequest>(Keep::NotAddr(from)),
                    );
                }
            }
            if buddies.consume_outgoing_request(&from) {
                let ghost mid = buddies.buddies@;
                buddies.add_buddy(
                    BuddyEntry {
                        address_hash: from,
                        display_name: owned(sender_name),
                        added_date: owned(today),
                        co_presence_total: 0,
                        last_seen_date: None,
                    },
                );
                ev.push(SocialEvent::BuddyAccepted { from: sender, from_name: owned(sender_name) });
                proof {
                    if !old(buddies).buddy_addrs().contains(from) {
                        assert(buddies.buddies@.take(old(buddies).buddies@.len() as int) =~= old(buddies).buddies@);
                    }
                }
            }
        },
        SocialMessage::BuddyDecline { .. } => {
            if buddies.consume_outgoing_request(&sender) {
                ev.push(SocialEvent::BuddyDeclined { from: sender });
            }
        },
        SocialMessage::BuddyRemove { from, .. } => {
            if buddies.remove_buddy(&from) {
                ev.push(SocialEvent::BuddyRemoved { from: sender });
            }
        },
        SocialMessage::PartyInvite { leader, members, .. } => {
            let count = members.len();
            party.set_pending_invite(
                PendingPartyInvite { leader, leader_name: owned(sender_name), members, received_at: now },
            );
            ev.push(
                SocialEvent::PartyInviteReceived {
                    leader: sender,
                    leader_name: owned(sender_name),
                    member_count: count,
                },
            );
        },
        SocialMessage::PartyAccept { from, .. } => {
            if party.has_outgoing_invite(&from) {
                let added = match party.party.as_mut() {
                    Some(p) => p.add_member(
                        PartyMember { address_hash: from, display_name: owned(sender_name), joined_at: now },
                    ).is_ok(),
                    None => false,
                };
                if added {
                    party.consume_outgoing_invite(&from);
                    ev.push(SocialEvent::PartyMemberJoined { member: sender, member_name: owned(sender_name) });
                    ev.push(SocialEvent::AnnounceMemberJoined { member: from, display_name: owned(sender_name) });
                }
            }
        },
        SocialMessage::PartyDecline { .. } => {
            if party.consume_outgoing_invite(&sender) {
                ev.push(SocialEvent::PartyInviteDeclined { from: sender });
            }
        },
        SocialMessage::PartyLeave { from } => {
            let present = match &party.party {
                Some(p) => p.is_member(&from),
                None => false,
            };
            if present {
                leave_or_remove(party, &from, &mut ev);
            }
        },
        SocialMessage::PartyKick { target, .. } => {
            let (leads, has_target) = match &party.party {
                Some(p) => (p.is_leader(&sender), p.is_member(&target)),
                None => (false, false),
            };
            if leads {
                if addr_eq(&target, &ours) {
                    dissolve(party);
                    ev.push(SocialEvent::PartyKick { target });
                    ev.push(SocialEvent::PartyDissolved);
                    proof {
                        assert(ev@ =~= seq![SocialEvent::PartyKick { target }, SocialEvent::PartyDissolved]);
                    }
                } else if has_target {
                    let dissolving = match party.party.as_mut() {
                        Some(p) => {
                            p.remove_member(&target);
                            p.members.len() <= 1
                        },
                        None => false,
                    };
                    proof {
                        assert(party.party->0.members@.len() == party.party->0.members_view().len());
                    }
                    if dissolving {
                        dissolve(party);
                    }
                    ev.push(SocialEvent::PartyKick { target });
                    if dissolving {
                        ev.push(SocialEvent::PartyDissolved);
                        proof {
                            assert(ev@ =~= seq![SocialEvent::PartyKick { target }, SocialEvent::PartyDissolved]);
                        }
                    } else {
                        proof {
                            assert(ev@ =~= seq![SocialEvent::PartyKick { target }]);
                        }
                    }
                }
            }
        },
        SocialMessage::PartyMemberJoined { member, display_name, .. } => {
            let our_join = addr_eq(&member, &ours) && match &party.pending_join {
                Some(pj) => addr_eq(&pj.leader, &sender),
                None => false,
            };
            if our_join {
                if party.confirm_join(ours, owned(our_name), now).is_ok() {
                    ev.push(SocialEvent::PartyJoined { leader: sender });
                }
            } else {
                let leads = match &party.party {
                    Some(p) => p.is_leader(&sender),
                    None => false,
                };
                if leads {
                    let name_copy = display_name.clone();
                    let added = match party.party.as_mut() {
                        Some(p) => p.add_member(
                            PartyMember { address_hash: member, display_name, joined_at: now },
                        ).is_ok(),
                        None => false,
                    };
                    if added {
                        ev.push(SocialEvent::PartyMemberJoined { member, member_name: name_copy });
                    }
                }
            }
        },
        SocialMessage::PartyMemberLeft { member, .. } => {
            let allowed = match &party.party {
                Some(p) => (p.is_leader(&sender) || addr_eq(&sender, &member)) && p.is_member(&member),
                None => false,
            };
            if allowed {
                leave_or_remove(party, &member, &mut ev);
            }
        },
        SocialMessage::PartyDissolved { .. } => {
            let leads = match &party.party {
                Some(p) => p.is_leader(&sender),
                None => false,
            };
            if leads {
                dissolve(party);
                ev.push(SocialEvent::PartyDissolved);
            }
        },
        SocialMessage::PartyLeaderChanged { new_leader, .. } => {
            let ok = match &party.party {
                Some(p) => p.is_leader(&sender) && p.is_member(&new_leader),
                None => false,
            };
            if ok {
                match party.party.as_mut() {
                    Some(p) => {
                        p.leader = new_leader;
                    },
                    None => {},
                }
                ev.push(SocialEvent::PartyLeaderChanged { new_leader });
            }
        },
    }
    ev
}

} // verus!
