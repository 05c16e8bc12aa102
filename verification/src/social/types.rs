use vstd::prelude::*;

verus! {

/// A player's address hash.
pub type Addr = [u8; 16];

/// Whether two address hashes are equal.
pub fn addr_eq(a: &Addr, b: &Addr) -> (r: bool)
    ensures
        r == (*a == *b),
{
    let mut i: usize = 0;
    while i < 16
        invariant
            0 <= i <= 16,
            forall|j: int| 0 <= j < i ==> a[j] == b[j],
        decreases 16 - i,
    {
        if a[i] != b[i] {
            return false;
        }
        i = i + 1;
    }
    proof {
        assert(*a =~= *b);
    }
    true
}

/// Whether `a` occurs in `s`.
pub fn addrs_contain(s: &Vec<Addr>, a: &Addr) -> (r: bool)
    ensures
        r == s@.contains(*a),
{
    let n = s.len();
    let mut i: usize = 0;
    while i < n
        invariant
            n == s@.len(),
            0 <= i <= n,
            forall|j: int| 0 <= j < i ==> s@[j] != *a,
        decreases n - i,
    {
        if addr_eq(&s[i], a) {
            return true;
        }
        i = i + 1;
    }
    false
}

/// Social messages sent between players. Directed messages carry the
/// recipient in `to`; party-control messages carry their sender in `from`.
pub enum SocialMessage {
    BuddyRequest { from: Addr, to: Addr },
    BuddyAccept { from: Addr, to: Addr },
    BuddyDecline { from: Addr, to: Addr },
    BuddyRemove { from: Addr, to: Addr },
    PartyInvite { leader: Addr, to: Addr, members: Vec<Addr> },
    PartyAccept { from: Addr, to: Addr },
    PartyDecline { from: Addr, to: Addr },
    PartyLeave { from: Addr },
    PartyKick { from: Addr, target: Addr },
    PartyMemberJoined { from: Addr, member: Addr, display_name: String },
    PartyMemberLeft { from: Addr, member: Addr },
    PartyDissolved { from: Addr },
    PartyLeaderChanged { from: Addr, new_leader: Addr },
}

/// A buddy as kept in the save file: the address as hexadecimal text.
pub struct BuddySaveEntry {
    pub address_hash: String,
    pub display_name: String,
    pub added_date: String,
    /// Milliseconds spent on the same street together.
    pub co_presence_total: u64,
    pub last_seen_date: Option<String>,
}

} // verus!
