use vstd::prelude::*;

use crate::hexcode::{addr_to_hex, hex_chars};
use crate::social::buddy::{BuddyEntry, BuddyState};
use crate::social::party::{ActiveParty, PartyState};

verus! {

/// A party member as shown: address in hex, name, and whether it leads.
pub struct PartyMemberFrame {
    pub address_hash: String,
    pub display_name: String,
    pub is_leader: bool,
}

/// The party as shown: whether there is one, its leader's address in hex,
/// and its members in order.
pub struct PartyFrame {
    pub in_party: bool,
    pub leader: Option<String>,
    pub members: Vec<PartyMemberFrame>,
}

/// A member frame as a value.
pub open spec fn member_frame_view(f: PartyMemberFrame) -> (Seq<char>, Seq<char>, bool) {
    (f.address_hash@, f.display_name@, f.is_leader)
}

/// Member frames as values.
pub open spec fn member_frames_view(s: Seq<PartyMemberFrame>) -> Seq<(Seq<char>, Seq<char>, bool)> {
    s.map_values(|m: PartyMemberFrame| member_frame_view(m))
}

/// How the members of `p` are shown, in order.
pub open spec fn members_shown(p: ActiveParty) -> Seq<(Seq<char>, Seq<char>, bool)> {
    p.members@.map_values(
        |m: crate::social::party::PartyMember| (hex_chars(m.address_hash@), m.display_name@, m.address_hash == p.leader),
    )
}

/// The party as shown: with no party, not in one, no leader and no members;
/// otherwise the leader's address in hex and every member in order, the
/// leader marked.
pub fn party_frame(state: &PartyState) -> (f: PartyFrame)
    ensures
        match state.party {
            None => !f.in_party && f.leader is None && f.members@.len() == 0,
            Some(p) => {
                &&& f.in_party
                &&& f.leader matches Some(l) && l@ == hex_chars(p.leader@)
                &&& member_frames_view(f.members@) == members_shown(p)
            },
        },
{
    match &state.party {
        None => PartyFrame { in_party: false, leader: None, members: Vec::new() },
        Some(p) => {
            let n = p.members.len();
            let mut members: Vec<PartyMemberFrame> = Vec::new();
            let mut i: usize = 0;
            while i < n
                invariant
                    n == p.members@.len(),
                    0 <= i <= n,
                    members@.len() == i,
                    member_frames_view(members@) == members_shown(*p).take(
                        i as int,
                    ),
                decreases n - i,
            {
                let m = &p.members[i];
                let ghost before = members@;
                let fr = PartyMemberFrame {
                    address_hash: addr_to_hex(&m.address_hash),
                    display_name: m.display_name.clone(),
                    is_leader: crate::social::types::addr_eq(&m.address_hash, &p.leader),
                };
                proof {
                    assert(member_frame_view(fr) == members_shown(*p)[i as int]);
                }
                members.push(fr);
                proof {
                    assert(members@ == before.push(fr));
                    assert(member_frames_view(members@) =~= members_shown(
                        *p,
                    ).take(i + 1));
                }
                i = i + 1;
            }
            proof {
                assert(members_shown(*p).take(n as int) =~= members_shown(*p));
            }
            PartyFrame { in_party: true, leader: Some(addr_to_hex(&p.leader)), members }
        },
    }
}

/// A buddy as shown: address in hex, name, when added, the time spent on
/// the same street (milliseconds) and when last seen.
pub struct BuddyFrame {
    pub address_hash: String,
    pub display_name: String,
    pub added_date: String,
    pub co_presence_total: u64,
    pub last_seen_date: Option<String>,
}

/// The view of an optional date.
pub open spec fn date_view(d: Option<String>) -> Option<Seq<char>> {
    match d {
        Some(s) => Some(s@),
        None => None,
    }
}

/// A buddy frame as a value.
pub open spec fn buddy_frame_view(f: BuddyFrame) -> (Seq<char>, Seq<char>, Seq<char>, u64, Option<Seq<char>>) {
    (f.address_hash@, f.display_name@, f.added_date@, f.co_presence_total, date_view(f.last_seen_date))
}

/// How a buddy is shown.
pub open spec fn buddy_shown(b: BuddyEntry) -> (Seq<char>, Seq<char>, Seq<char>, u64, Option<Seq<char>>) {
    (hex_chars(b.address_hash@), b.display_name@, b.added_date@, b.co_presence_total, date_view(b.last_seen_date))
}

/// Buddy frames as values.
pub open spec fn buddy_frames_view(s: Seq<BuddyFrame>) -> Seq<(Seq<char>, Seq<char>, Seq<char>, u64, Option<Seq<char>>)> {
    s.map_values(|f: BuddyFrame| buddy_frame_view(f))
}

/// How a list of buddies is shown, in order.
pub open spec fn buddies_shown(s: Seq<BuddyEntry>) -> Seq<(Seq<char>, Seq<char>, Seq<char>, u64, Option<Seq<char>>)> {
    s.map_values(|b: BuddyEntry| buddy_shown(b))
}

/// The buddy list as shown, in order.
pub fn buddy_frames(state: &BuddyState) -> (r: Vec<BuddyFrame>)
    ensures
        buddy_frames_view(r@) == buddies_shown(state.buddies@),
{
    let n = state.buddies.len();
    let mut out: Vec<BuddyFrame> = Vec::new();
    let mut i: usize = 0;
    while i < n
        invariant
            n == state.buddies@.len(),
            0 <= i <= n,
            out@.len() == i,
            buddy_frames_view(out@) == buddies_shown(state.buddies@).take(i as int),
        decreases n - i,
    {
        let b = &state.buddies[i];
        let last_seen = match &b.last_seen_date {
            Some(d) => Some(d.clone()),
            None => None,
        };
        let fr = BuddyFrame {
            address_hash: addr_to_hex(&b.address_hash),
            display_name: b.display_name.clone(),
            added_date: b.added_date.clone(),
            co_presence_total: b.co_presence_total,
            last_seen_date: last_seen,
        };
        proof {
            assert(buddy_frame_view(fr) == buddy_shown(state.buddies@[i as int]));
        }
        let ghost before = out@;
        out.push(fr);
        proof {
            assert(out@ == before.push(fr));
            assert(buddy_frames_view(out@) =~= buddies_shown(state.buddies@).take(i + 1));
        }
        i = i + 1;
    }
    proof {
        assert(buddies_shown(state.buddies@).take(n as int) =~= buddies_shown(state.buddies@));
    }
    out
}

} // verus!
