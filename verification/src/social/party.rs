use vstd::prelude::*;

use crate::social::retain::{
    keep_where, lemma_keep_where_contains, lemma_keep_where_len, lemma_keep_where_no_dups,
};
use crate::social::types::{addr_eq, Addr};

verus! {

/// Most members a party can hold, the leader included.
pub const MAX_PARTY_SIZE: usize = 5;

/// Milliseconds after which a pending party invite, a pending join or an
/// outgoing invite expires.
pub const PARTY_INVITE_TIMEOUT_MS: u64 = 90_000;

/// Milliseconds of grace after a member disconnects before they are removed.
pub const PARTY_GRACE_PERIOD_MS: u64 = 30_000;

/// Whether something stamped at `at` has expired at `now`: more than the
/// invite timeout has passed.
pub open spec fn invite_expired(now: u64, at: u64) -> bool {
    now - at > PARTY_INVITE_TIMEOUT_MS
}

/// Whether something stamped at `at` has expired at `now`.
pub fn is_invite_expired(now: u64, at: u64) -> (b: bool)
    ensures
        b == invite_expired(now, at),
{
    now > at && now - at > PARTY_INVITE_TIMEOUT_MS
}

// ── Party members ────────────────────────────────────────────────────────

/// Role of a player within a party.
#[derive(Clone, Copy, Debug, PartialEq, Eq, Structural)]
pub enum PartyRole {
    Leader,
    Member,
}

/// One member of an active party.
pub struct PartyMember {
    pub address_hash: Addr,
    pub display_name: String,
    /// Milliseconds since the app started, when this member joined.
    pub joined_at: u64,
}

/// A member as a value: address, name, time of joining.
pub type MemberView = (Addr, Seq<char>, u64);

impl View for PartyMember {
    type V = MemberView;

    open spec fn view(&self) -> MemberView {
        (self.address_hash, self.display_name@, self.joined_at)
    }
}

/// The addresses of a list of members, in order.
pub open spec fn addrs_of(ms: Seq<MemberView>) -> Seq<Addr> {
    ms.map_values(|m: MemberView| m.0)
}

/// `ms` with the member `m` added, unless the party is full or `m` is
/// already in it.
pub open spec fn try_add(ms: Seq<MemberView>, m: MemberView) -> Seq<MemberView> {
    if ms.len() >= MAX_PARTY_SIZE || addrs_of(ms).contains(m.0) {
        ms
    } else {
        ms.push(m)
    }
}

/// Whether member `i` of `ms` joined first: no member joined earlier, and
/// none before it joined at the same time.
pub open spec fn is_first_earliest(ms: Seq<MemberView>, i: int) -> bool {
    &&& 0 <= i < ms.len()
    &&& forall|j: int| 0 <= j < ms.len() ==> ms[i].2 <= #[trigger] ms[j].2
    &&& forall|j: int| 0 <= j < i ==> ms[i].2 < #[trigger] ms[j].2
}

/// The address of the member who joined first (the first of them on a tie).
pub open spec fn earliest_addr(ms: Seq<MemberView>) -> Addr {
    ms[choose|i: int| is_first_earliest(ms, i)].0
}

/// Only one member joined first.
pub proof fn lemma_first_earliest_unique(ms: Seq<MemberView>, i: int, k: int)
    requires
        is_first_earliest(ms, i),
        is_first_earliest(ms, k),
    ensures
        i == k,
{
    if i < k {
        assert(ms[k].2 < ms[i].2);
        assert(ms[i].2 <= ms[k].2);
    } else if k < i {
        assert(ms[i].2 < ms[k].2);
        assert(ms[k].2 <= ms[i].2);
    }
}

/// The member at `i`, who joined first, gives the earliest address.
pub proof fn lemma_earliest_addr(ms: Seq<MemberView>, i: int)
    requires
        is_first_earliest(ms, i),
    ensures
        earliest_addr(ms) == ms[i].0,
{
    let k = choose|k: int| is_first_earliest(ms, k);
    lemma_first_earliest_unique(ms, i, k);
}

/// The test "the address is not `a`".
pub open spec fn not_addr(a: Addr) -> spec_fn(Addr) -> bool {
    |x: Addr| x != a
}

/// The test "the member's address is not `a`".
pub open spec fn member_not_addr(a: Addr) -> spec_fn(MemberView) -> bool {
    |m: MemberView| m.0 != a
}

/// The members whose address is not `a`.
pub open spec fn without_addr(ms: Seq<MemberView>, a: Addr) -> Seq<MemberView> {
    keep_where(ms, member_not_addr(a))
}

/// Taking members out keeps the addresses of the others.
pub proof fn lemma_addrs_keep(ms: Seq<MemberView>, a: Addr)
    ensures
        addrs_of(without_addr(ms, a)) == keep_where(addrs_of(ms), not_addr(a)),
    decreases ms.len(),
{
    if ms.len() > 0 {
        let front = ms.drop_last();
        lemma_addrs_keep(front, a);
        assert(addrs_of(ms).drop_last() =~= addrs_of(front));
        let k = without_addr(front, a);
        if ms.last().0 != a {
            assert(addrs_of(k.push(ms.last())) =~= addrs_of(k).push(ms.last().0));
        }
    }
}

/// An active party session.
pub struct ActiveParty {
    /// The current leader's address.
    pub leader: Addr,
    /// All members, the leader included.
    pub members: Vec<PartyMember>,
    /// Milliseconds since the app started, when the party was formed.
    pub created_at: u64,
}

impl ActiveParty {
    /// The members as values, in order.
    pub open spec fn members_view(&self) -> Seq<MemberView> {
        self.members@.map_values(|m: PartyMember| m@)
    }

    /// The member addresses, in order.
    pub open spec fn addrs(&self) -> Seq<Addr> {
        addrs_of(self.members_view())
    }

    /// A party as the game keeps it: no address twice, the leader among the
    /// members, and no more than `MAX_PARTY_SIZE` members.
    pub open spec fn wf(&self) -> bool {
        &&& self.addrs().no_duplicates()
        &&& self.addrs().contains(self.leader)
        &&& self.members@.len() <= MAX_PARTY_SIZE
    }

    /// A single-member party led by the given player.
    pub fn new(leader_hash: Addr, leader_name: String, now: u64) -> (p: Self)
        ensures
            p.wf(),
            p.leader == leader_hash,
            p.created_at == now,
            p.members_view() == seq![(leader_hash, leader_name@, now)],
    {
        let p = ActiveParty {
            leader: leader_hash,
            members: vec![PartyMember { address_hash: leader_hash, display_name: leader_name, joined_at: now }],
            created_at: now,
        };
        proof {
            assert(p.members_view() =~= seq![(leader_hash, leader_name@, now)]);
            assert(p.addrs()[0] == leader_hash);
        }
        p
    }

    /// Whether `addr` is a member.
    pub fn is_member(&self, addr: &Addr) -> (b: bool)
        ensures
            b == self.addrs().contains(*addr),
    {
        let n = self.members.len();
        let mut i: usize = 0;
        while i < n
            invariant
                n == self.members@.len(),
                0 <= i <= n,
                forall|j: int| 0 <= j < i ==> self.addrs()[j] != *addr,
            decreases n - i,
        {
            if addr_eq(&self.members[i].address_hash, addr) {
                proof {
                    assert(self.addrs()[i as int] == *addr);
                }
                return true;
            }
            i = i + 1;
        }
        false
    }

    /// Whether `addr` is the current leader.
    pub fn is_leader(&self, addr: &Addr) -> (b: bool)
        ensures
            b == (self.leader == *addr),
    {
        addr_eq(&self.leader, addr)
    }

    /// The role of `addr`, or `None` when it is not a member.
    pub fn role_of(&self, addr: &Addr) -> (r: Option<PartyRole>)
        ensures
            !self.addrs().contains(*addr) ==> r is None,
            self.addrs().contains(*addr) && self.leader == *addr ==> r == Some(PartyRole::Leader),
            self.addrs().contains(*addr) && self.leader != *addr ==> r == Some(PartyRole::Member),
    {
        if !self.is_member(addr) {
            return None;
        }
        if self.is_leader(addr) {
            Some(PartyRole::Leader)
        } else {
            Some(PartyRole::Member)
        }
    }

    /// Add a member: refused when the party is full or the player is already
    /// in it.
    pub fn add_member(&mut self, member: PartyMember) -> (r: Result<(), &'static str>)
        ensures
            old(self).members@.len() >= MAX_PARTY_SIZE ==> (r matches Err(e) && e@
                == "party is full"@ && *final(self) == *old(self)),
            old(self).members@.len() < MAX_PARTY_SIZE && old(self).addrs().contains(
                member.address_hash,
            ) ==> (r matches Err(e) && e@ == "already a member"@ && *final(self) == *old(self)),
            r is Ok <==> (old(self).members@.len() < MAX_PARTY_SIZE && !old(self).addrs().contains(
                member.address_hash,
            )),
            r is Ok ==> final(self).members@ == old(self).members@.push(member),
            final(self).members_view() == try_add(old(self).members_view(), member@),
            final(self).leader == old(self).leader,
            final(self).created_at == old(self).created_at,
            old(self).wf() ==> final(self).wf(),
    {
        if self.members.len() >= MAX_PARTY_SIZE {
            return Err("party is full");
        }
        if self.is_member(&member.address_hash) {
            return Err("already a member");
        }
        let ghost before = self.members_view();
        self.members.push(member);
        proof {
            assert(self.members_view() =~= before.push(member@));
            assert(self.addrs() =~= addrs_of(before).push(member.address_hash));
            assert(self.addrs()[before.len() as int] == member.address_hash);
            if old(self).wf() {
                assert(addrs_of(before).contains(self.leader));
                let i = choose|i: int| 0 <= i < addrs_of(before).len() && addrs_of(before)[i] == self.leader;
                assert(self.addrs()[i] == self.leader);
                assert forall|i: int, j: int| 0 <= i < j < self.addrs().len() implies self.addrs()[i]
                    != self.addrs()[j] by {
                    if j == before.len() {
                        assert(self.addrs()[i] == addrs_of(before)[i]);
                        assert(addrs_of(before).contains(addrs_of(before)[i]));
                    }
                }
            }
        }
        Ok(())
    }

    /// Take every member with address `addr` out, in place.
    fn drop_members(&mut self, addr: &Addr)
        ensures
            final(self).members_view() == without_addr(old(self).members_view(), *addr),
            final(self).leader == old(self).leader,
            final(self).created_at == old(self).created_at,
    {
        let ghost orig = self.members_view();
        let total = self.members.len();
        let mut i: usize = 0;
        let mut j: usize = 0;
        proof {
            assert(orig.take(0) =~= Seq::<MemberView>::empty());
            assert(orig.skip(0) =~= orig);
            assert(self.members_view() =~= without_addr(orig.take(0), *addr) + orig.skip(0));
        }
        while i < self.members.len()
            invariant
                self.leader == old(self).leader,
                self.created_at == old(self).created_at,
                orig == old(self).members_view(),
                orig.len() == total,
                0 <= j <= orig.len(),
                i == without_addr(orig.take(j as int), *addr).len(),
                self.members_view() == without_addr(orig.take(j as int), *addr) + orig.skip(
                    j as int,
                ),
            decreases orig.len() - j,
        {
            let ghost k = without_addr(orig.take(j as int), *addr);
            proof {
                assert(self.members_view().len() == self.members@.len());
                assert(j < orig.len());
                assert(self.members_view()[i as int] == orig[j as int]);
                assert(orig.take(j + 1).drop_last() =~= orig.take(j as int));
                assert(orig.take(j + 1).last() == orig[j as int]);
            }
            if addr_eq(&self.members[i].address_hash, addr) {
                let ghost before = self.members_view();
                self.members.remove(i);
                proof {
                    assert(self.members_view() =~= before.remove(i as int));
                    assert(before.remove(i as int) =~= k + orig.skip(j + 1));
                }
            } else {
                proof {
                    assert(k.push(orig[j as int]) + orig.skip(j + 1) =~= k + orig.skip(j as int));
                }
                i = i + 1;
            }
            j = j + 1;
        }
        proof {
            assert(self.members_view().len() == self.members@.len());
            assert(j == orig.len());
            assert(orig.take(j as int) =~= orig);
            assert(orig.skip(j as int) =~= Seq::<MemberView>::empty());
            assert(self.members_view() =~= without_addr(orig, *addr));
        }
    }

    /// Index of the first member among those who joined earliest.
    fn earliest_index(&self) -> (i: usize)
        requires
            self.members@.len() > 0,
        ensures
            is_first_earliest(self.members_view(), i as int),
    {
        let n = self.members.len();
        let mut best: usize = 0;
        let mut k: usize = 1;
        while k < n
            invariant
                n == self.members@.len(),
                1 <= k <= n,
                0 <= best < k,
                forall|j: int| 0 <= j < k ==> self.members_view()[best as int].2 <= #[trigger] self.members_view()[j].2,
                forall|j: int| 0 <= j < best ==> self.members_view()[best as int].2 < #[trigger] self.members_view()[j].2,
            decreases n - k,
        {
            if self.members[k].joined_at < self.members[best].joined_at {
                best = k;
            }
            k = k + 1;
        }
        best
    }

    /// Remove a member. When the leader leaves and others remain, leadership
    /// passes to the member who joined earliest (the first of them on a tie).
    /// Gives the number of members left and the new leader, if it changed.
    pub fn remove_member(&mut self, addr: &Addr) -> (r: (usize, Option<Addr>))
        ensures
            final(self).members_view() == without_addr(old(self).members_view(), *addr),
            r.0 == final(self).members@.len(),
            final(self).created_at == old(self).created_at,
            r.1 == (if r.0 > 0 && old(self).leader == *addr {
                Some(earliest_addr(final(self).members_view()))
            } else {
                None
            }),
            final(self).leader == (if r.0 > 0 && old(self).leader == *addr {
                earliest_addr(final(self).members_view())
            } else {
                old(self).leader
            }),
            old(self).wf() && r.0 > 0 ==> final(self).wf(),
    {
        self.drop_members(addr);
        let remaining = self.members.len();
        proof {
            lemma_addrs_keep(old(self).members_view(), *addr);
            if old(self).wf() {
                lemma_keep_where_no_dups(old(self).addrs(), not_addr(*addr));
                lemma_keep_where_len(old(self).members_view(), member_not_addr(*addr));
                lemma_keep_where_contains(old(self).addrs(), not_addr(*addr), old(self).leader);
            }
            assert(self.members_view().len() == self.members@.len());
        }
        if remaining == 0 {
            return (0, None);
        }
        if addr_eq(&self.leader, addr) {
            let i = self.earliest_index();
            let next = self.members[i].address_hash;
            self.leader = next;
            proof {
                assert(self.members_view()[i as int].0 == next);
                assert(self.addrs()[i as int] == next);
                lemma_earliest_addr(self.members_view(), i as int);
            }
            (remaining, Some(next))
        } else {
            (remaining, None)
        }
    }

    /// Kick a member: only the leader may, never themselves, and only a
    /// member.
    pub fn kick_member(&mut self, caller: &Addr, target: &Addr) -> (r: Result<(), &'static str>)
        ensures
            old(self).leader != *caller ==> (r matches Err(e) && e@
                == "only the leader can kick"@),
            old(self).leader == *caller && *caller == *target ==> (r matches Err(e) && e@
                == "leader cannot kick themselves"@),
            old(self).leader == *caller && *caller != *target && !old(self).addrs().contains(
                *target,
            ) ==> (r matches Err(e) && e@ == "target is not a member"@),
            r is Err ==> *final(self) == *old(self),
            r is Ok <==> (old(self).leader == *caller && *caller != *target && old(
                self,
            ).addrs().contains(*target)),
            r is Ok ==> final(self).members_view() == without_addr(old(self).members_view(), *target),
            final(self).leader == old(self).leader,
            final(self).created_at == old(self).created_at,
            old(self).wf() ==> final(self).wf(),
    {
        if !self.is_leader(caller) {
            return Err("only the leader can kick");
        }
        if addr_eq(caller, target) {
            return Err("leader cannot kick themselves");
        }
        if !self.is_member(target) {
            return Err("target is not a member");
        }
        self.drop_members(target);
        proof {
            lemma_addrs_keep(old(self).members_view(), *target);
            if old(self).wf() {
                lemma_keep_where_no_dups(old(self).addrs(), not_addr(*target));
                lemma_keep_where_len(old(self).members_view(), member_not_addr(*target));
                lemma_keep_where_contains(old(self).addrs(), not_addr(*target), old(self).leader);
            }
            assert(self.members_view().len() == self.members@.len());
        }
        Ok(())
    }

    /// All member addresses, in order.
    pub fn member_hashes(&self) -> (v: Vec<Addr>)
        ensures
            v@ == self.addrs(),
    {
        let n = self.members.len();
        let mut v: Vec<Addr> = Vec::new();
        let mut i: usize = 0;
        while i < n
            invariant
                n == self.members@.len(),
                0 <= i <= n,
                v@ == self.addrs().take(i as int),
            decreases n - i,
        {
            v.push(self.members[i].address_hash);
            proof {
                assert(self.addrs().take(i + 1) =~= self.addrs().take(i as int).push(
                    self.members@[i as int].address_hash,
                ));
            }
            i = i + 1;
        }
        proof {
            assert(self.addrs().take(n as int) =~= self.addrs());
        }
        v
    }
}

// ── Invites and joins ────────────────────────────────────────────────────

/// An incoming party invite, not yet accepted or declined.
pub struct PendingPartyInvite {
    pub leader: Addr,
    pub leader_name: String,
    pub members: Vec<Addr>,
    /// Milliseconds since the app started, when the invite arrived.
    pub received_at: u64,
}

/// An invite we sent and that is not answered yet.
pub struct OutgoingPartyInvite {
    pub to: Addr,
    pub sent_at: u64,
}

/// We accepted an invite and wait for the leader to confirm the join.
pub struct PendingJoin {
    pub leader: Addr,
    pub leader_name: String,
    pub members: Vec<Addr>,
    pub accepted_at: u64,
}

/// The members known from an invite, before the joining player is added:
/// the leader first, then each other listed member that still fits, all
/// stamped with `t`.
pub open spec fn invited_members(
    base: Seq<MemberView>,
    listed: Seq<Addr>,
    leader: Addr,
    me: Addr,
    t: u64,
) -> Seq<MemberView>
    decreases listed.len(),
{
    if listed.len() == 0 {
        base
    } else {
        let prev = invited_members(base, listed.drop_last(), leader, me, t);
        let a = listed.last();
        if a != leader && a != me {
            try_add(prev, (a, Seq::<char>::empty(), t))
        } else {
            prev
        }
    }
}

/// The party an invite describes, before the joining player `me` is added.
pub open spec fn invite_base(
    leader: Addr,
    leader_name: Seq<char>,
    listed: Seq<Addr>,
    t: u64,
    me: Addr,
) -> Seq<MemberView> {
    invited_members(seq![(leader, leader_name, t)], listed, leader, me, t)
}

/// Build the party that a joining player enters: the leader and the listed
/// members (best effort), then the player, which must fit.
fn build_party(
    leader: Addr,
    leader_name: String,
    listed: &Vec<Addr>,
    created_at: u64,
    self_hash: Addr,
    self_name: String,
    now: u64,
) -> (r: Result<ActiveParty, &'static str>)
    ensures
        ({
            let base = invite_base(leader, leader_name@, listed@, created_at, self_hash);
            &&& r is Ok <==> (base.len() < MAX_PARTY_SIZE && !addrs_of(base).contains(self_hash))
            &&& r matches Ok(p) ==> {
                &&& p.wf()
                &&& p.leader == leader
                &&& p.created_at == created_at
                &&& p.members_view() == base.push((self_hash, self_name@, now))
            }
            &&& r matches Err(e) ==> (base.len() >= MAX_PARTY_SIZE ==> e@ == "party is full"@)
            &&& r matches Err(e) ==> (base.len() < MAX_PARTY_SIZE ==> e@ == "already a member"@)
        }),
{
    let ghost lname = leader_name@;
    let mut party = ActiveParty::new(leader, leader_name, created_at);
    let n = listed.len();
    let mut i: usize = 0;
    proof {
        assert(listed@.take(0) =~= Seq::<Addr>::empty());
    }
    while i < n
        invariant
            n == listed@.len(),
            0 <= i <= n,
            party.wf(),
            party.leader == leader,
            party.created_at == created_at,
            party.members_view() == invited_members(
                seq![(leader, lname, created_at)],
                listed@.take(i as int),
                leader,
                self_hash,
                created_at,
            ),
        decreases n - i,
    {
        let a = listed[i];
        proof {
            assert(listed@.take(i + 1).drop_last() =~= listed@.take(i as int));
            assert(listed@.take(i + 1).last() == a);
        }
        if !addr_eq(&a, &leader) && !addr_eq(&a, &self_hash) {
            let m = PartyMember { address_hash: a, display_name: String::new(), joined_at: created_at };
            proof {
                assert(m@ == (a, Seq::<char>::empty(), created_at));
            }
            let _ = party.add_member(m);
        }
        i = i + 1;
    }
    proof {
        assert(listed@.take(n as int) =~= listed@);
    }
    let me = PartyMember { address_hash: self_hash, display_name: self_name, joined_at: now };
    match party.add_member(me) {
        Ok(()) => Ok(party),
        Err(e) => Err(e),
    }
}

/// Whether the invite `inv` expired at `now`.
pub open spec fn pending_expired(inv: Option<PendingPartyInvite>, now: u64) -> bool {
    inv matches Some(i) && invite_expired(now, i.received_at)
}

/// Which outgoing invites to keep.
enum OutgoingFilter {
    /// Those not sent to this address.
    NotTo(Addr),
    /// Those not yet expired at this time.
    FreshAt(u64),
}

/// Whether the filter keeps an invite.
spec fn filter_keeps(f: OutgoingFilter, o: (Addr, u64)) -> bool {
    match f {
        OutgoingFilter::NotTo(a) => o.0 != a,
        OutgoingFilter::FreshAt(now) => !invite_expired(now, o.1),
    }
}

/// The filter as a test on invites.
spec fn filter_test(f: OutgoingFilter) -> spec_fn((Addr, u64)) -> bool {
    |o: (Addr, u64)| filter_keeps(f, o)
}

/// The test "the invite was not sent to `a`".
pub open spec fn not_sent_to(a: Addr) -> spec_fn((Addr, u64)) -> bool {
    |o: (Addr, u64)| o.0 != a
}

/// The test "the invite has not expired at `now`".
pub open spec fn fresh_at(now: u64) -> spec_fn((Addr, u64)) -> bool {
    |o: (Addr, u64)| !invite_expired(now, o.1)
}

/// The recipients of a list of invites.
pub open spec fn recipients(v: Seq<(Addr, u64)>) -> Seq<Addr> {
    v.map_values(|o: (Addr, u64)| o.0)
}

/// The first index at which `a` occurs in `s`.
pub open spec fn first_index(s: Seq<Addr>, a: Addr) -> int {
    choose|i: int| 0 <= i < s.len() && s[i] == a && forall|j: int| 0 <= j < i ==> s[j] != a
}

/// An index where `a` first occurs is the first index.
pub proof fn lemma_first_index(s: Seq<Addr>, a: Addr, i: int)
    requires
        0 <= i < s.len(),
        s[i] == a,
        forall|j: int| 0 <= j < i ==> s[j] != a,
    ensures
        first_index(s, a) == i,
{
    let k = first_index(s, a);
    assert(0 <= k < s.len() && s[k] == a && forall|j: int| 0 <= j < k ==> s[j] != a);
    if k < i {
        assert(s[k] != a);
    }
    if i < k {
        assert(s[i] != a);
    }
}

/// Keeping invites keeps no recipient twice, if there was none twice.
pub proof fn lemma_recipients_keep(v: Seq<(Addr, u64)>, p: spec_fn((Addr, u64)) -> bool)
    ensures
        recipients(v).no_duplicates() ==> recipients(keep_where(v, p)).no_duplicates(),
    decreases v.len(),
{
    if v.len() > 0 {
        let front = v.drop_last();
        assert(recipients(v).drop_last() =~= recipients(front));
        lemma_recipients_keep(front, p);
        let k = keep_where(front, p);
        if recipients(v).no_duplicates() && p(v.last()) {
            let rk = recipients(k);
            assert(recipients(k.push(v.last())) =~= rk.push(v.last().0));
            assert forall|x: (Addr, u64)| k.contains(x) implies front.contains(x) by {
                lemma_keep_where_contains(front, p, x);
            }
            assert forall|a: int, b: int| 0 <= a < b < rk.push(v.last().0).len() implies rk.push(
                v.last().0,
            )[a] != rk.push(v.last().0)[b] by {
                if b == rk.len() {
                    let x = k[a];
                    assert(k.contains(x));
                    assert(front.contains(x));
                    let t = choose|t: int| 0 <= t < front.len() && front[t] == x;
                    assert(recipients(v)[t] == x.0);
                    assert(recipients(v)[v.len() - 1] == v.last().0);
                }
            }
        }
    }
}

/// The outgoing invites after sending one to `a` at `now`: the invite to
/// `a` already there gets the new time, otherwise one is added.
pub open spec fn refresh_outgoing(v: Seq<(Addr, u64)>, a: Addr, now: u64) -> Seq<(Addr, u64)> {
    if recipients(v).contains(a) {
        v.update(first_index(recipients(v), a), (a, now))
    } else {
        v.push((a, now))
    }
}

/// Runtime party state of one player.
pub struct PartyState {
    pub party: Option<ActiveParty>,
    pub pending_invite: Option<PendingPartyInvite>,
    pub pending_join: Option<PendingJoin>,
    /// Invites we sent that are not answered yet.
    pub outgoing_invites: Vec<OutgoingPartyInvite>,
}

impl PartyState {
    /// The outgoing invites, as (recipient, time sent).
    pub open spec fn outgoing(&self) -> Seq<(Addr, u64)> {
        self.outgoing_invites@.map_values(|o: OutgoingPartyInvite| (o.to, o.sent_at))
    }

    /// The recipients of the outgoing invites.
    pub open spec fn outgoing_addrs(&self) -> Seq<Addr> {
        recipients(self.outgoing())
    }

    /// No player has two outgoing invites.
    pub open spec fn outgoing_wf(&self) -> bool {
        self.outgoing_addrs().no_duplicates()
    }

    /// The state as the game keeps it: a party, when there is one, is
    /// well-formed, and no player has two outgoing invites.
    pub open spec fn wf(&self) -> bool {
        &&& self.party matches Some(p) ==> p.wf()
        &&& self.outgoing_wf()
    }

    /// No party, no invite, no pending join.
    pub fn new() -> (s: Self)
        ensures
            s.wf(),
            s.party is None,
            s.pending_invite is None,
            s.pending_join is None,
            s.outgoing() == Seq::<(Addr, u64)>::empty(),
    {
        let s = PartyState { party: None, pending_invite: None, pending_join: None, outgoing_invites: Vec::new() };
        proof {
            assert(s.outgoing() =~= Seq::<(Addr, u64)>::empty());
            assert(s.outgoing_addrs() =~= Seq::<Addr>::empty());
        }
        s
    }

    /// Whether the player is in a party.
    pub fn in_party(&self) -> (b: bool)
        ensures
            b == self.party is Some,
    {
        self.party.is_some()
    }

    /// Whether the party has at least two members (which slows mood decay).
    pub fn has_party_bonus(&self) -> (b: bool)
        ensures
            b == (self.party matches Some(p) && p.members@.len() >= 2),
    {
        match &self.party {
            Some(p) => p.members.len() >= 2,
            None => false,
        }
    }

    /// Form a new single-member party led by the player, replacing any party.
    pub fn create_party(&mut self, leader_hash: Addr, leader_name: String, now: u64)
        ensures
            final(self).party matches Some(p) && p.leader == leader_hash && p.created_at == now
                && p.members_view() == seq![(leader_hash, leader_name@, now)],
            final(self).pending_invite == old(self).pending_invite,
            final(self).pending_join == old(self).pending_join,
            final(self).outgoing() == old(self).outgoing(),
            old(self).wf() ==> final(self).wf(),
    {
        self.party = Some(ActiveParty::new(leader_hash, leader_name, now));
    }

    /// Accept the pending invite, if it arrived no more than the timeout ago.
    /// The invite is used up either way; an expired one is refused. The
    /// player joins the party the invite describes, unless it is full or
    /// already holds the player.
    pub fn accept_invite(&mut self, self_hash: Addr, self_name: String, now: u64) -> (r: Result<
        (),
        &'static str,
    >)
        ensures
            old(self).pending_invite is None ==> (r matches Err(e) && e@ == "no pending invite"@),
            pending_expired(old(self).pending_invite, now) ==> (r matches Err(e) && e@
                == "invite expired"@),
            final(self).pending_invite is None,
            final(self).pending_join == old(self).pending_join,
            final(self).outgoing() == old(self).outgoing(),
            r is Err ==> final(self).party == old(self).party,
            old(self).pending_invite matches Some(inv) ==> (!invite_expired(now, inv.received_at)
                ==> {
                let base = invite_base(
                    inv.leader,
                    inv.leader_name@,
                    inv.members@,
                    inv.received_at,
                    self_hash,
                );
                &&& r is Ok <==> (base.len() < MAX_PARTY_SIZE && !addrs_of(base).contains(
                    self_hash,
                ))
                &&& r matches Err(e) ==> (base.len() >= MAX_PARTY_SIZE ==> e@ == "party is full"@)
                &&& r matches Err(e) ==> (base.len() < MAX_PARTY_SIZE ==> e@
                    == "already a member"@)
                &&& r is Ok ==> (final(self).party matches Some(p) && p.leader == inv.leader
                    && p.created_at == inv.received_at && p.members_view() == base.push(
                    (self_hash, self_name@, now),
                ))
            }),
            old(self).wf() ==> final(self).wf(),
    {
        let inv = match self.pending_invite.take() {
            None => {
                return Err("no pending invite");
            },
            Some(inv) => inv,
        };
        if is_invite_expired(now, inv.received_at) {
            return Err("invite expired");
        }
        match build_party(
            inv.leader,
            inv.leader_name,
            &inv.members,
            inv.received_at,
            self_hash,
            self_name,
            now,
        ) {
            Ok(p) => {
                self.party = Some(p);
                Ok(())
            },
            Err(e) => Err(e),
        }
    }

    /// Decline the pending invite and forget it.
    pub fn decline_invite(&mut self)
        ensures
            final(self).pending_invite is None,
            final(self).party == old(self).party,
            final(self).pending_join == old(self).pending_join,
            final(self).outgoing() == old(self).outgoing(),
    {
        self.pending_invite = None;
    }

    /// Turn the pending invite into a pending join, to be committed when the
    /// leader confirms. The invite is used up either way; an expired one is
    /// refused. Gives the leader's address.
    pub fn begin_join(&mut self, now: u64) -> (r: Result<Addr, &'static str>)
        ensures
            old(self).pending_invite is None ==> (r matches Err(e) && e@ == "no pending invite"@
                && final(self).pending_join == old(self).pending_join),
            pending_expired(old(self).pending_invite, now) ==> (r matches Err(e) && e@
                == "invite expired"@ && final(self).pending_join == old(self).pending_join),
            old(self).pending_invite matches Some(inv) ==> (!invite_expired(now, inv.received_at)
                ==> (r == Ok::<Addr, &'static str>(inv.leader) && final(self).pending_join
                == Some(
                PendingJoin {
                    leader: inv.leader,
                    leader_name: inv.leader_name,
                    members: inv.members,
                    accepted_at: now,
                },
            ))),
            final(self).pending_invite is None,
            final(self).party == old(self).party,
            final(self).outgoing() == old(self).outgoing(),
            old(self).wf() ==> final(self).wf(),
    {
        let inv = match self.pending_invite.take() {
            None => {
                return Err("no pending invite");
            },
            Some(inv) => inv,
        };
        if is_invite_expired(now, inv.received_at) {
            return Err("invite expired");
        }
        let leader = inv.leader;
        self.pending_join = Some(
            PendingJoin {
                leader,
                leader_name: inv.leader_name,
                members: inv.members,
                accepted_at: now,
            },
        );
        Ok(leader)
    }

    /// Commit the pending join once the leader confirmed it: the party is
    /// built from the saved invite, as `accept_invite` builds it.
    pub fn confirm_join(&mut self, self_hash: Addr, self_name: String, now: u64) -> (r: Result<
        (),
        &'static str,
    >)
        ensures
            old(self).pending_join is None ==> (r matches Err(e) && e@ == "no pending join"@),
            final(self).pending_join is None,
            final(self).pending_invite == old(self).pending_invite,
            final(self).outgoing() == old(self).outgoing(),
            r is Err ==> final(self).party == old(self).party,
            old(self).pending_join matches Some(pj) ==> ({
                let base = invite_base(
                    pj.leader,
                    pj.leader_name@,
                    pj.members@,
                    pj.accepted_at,
                    self_hash,
                );
                &&& r is Ok <==> (base.len() < MAX_PARTY_SIZE && !addrs_of(base).contains(
                    self_hash,
                ))
                &&& r matches Err(e) ==> (base.len() >= MAX_PARTY_SIZE ==> e@ == "party is full"@)
                &&& r matches Err(e) ==> (base.len() < MAX_PARTY_SIZE ==> e@
                    == "already a member"@)
                &&& r is Ok ==> (final(self).party matches Some(p) && p.leader == pj.leader
                    && p.created_at == pj.accepted_at && p.members_view() == base.push(
                    (self_hash, self_name@, now),
                ))
            }),
            old(self).wf() ==> final(self).wf(),
    {
        let pj = match self.pending_join.take() {
            None => {
                return Err("no pending join");
            },
            Some(pj) => pj,
        };
        match build_party(
            pj.leader,
            pj.leader_name,
            &pj.members,
            pj.accepted_at,
            self_hash,
            self_name,
            now,
        ) {
            Ok(p) => {
                self.party = Some(p);
                Ok(())
            },
            Err(e) => Err(e),
        }
    }

    /// Leave the party. A party left with at most one member is dissolved.
    /// Gives the number of members left and the new leader, if it changed.
    pub fn leave_party(&mut self, self_hash: &Addr) -> (r: Result<(usize, Option<Addr>), &'static str>)
        ensures
            old(self).party is None ==> (r matches Err(e) && e@ == "not in a party"@
                && *final(self) == *old(self)),
            old(self).party matches Some(p) ==> ({
                let rest = without_addr(p.members_view(), *self_hash);
                let moved = rest.len() > 0 && p.leader == *self_hash;
                &&& r matches Ok((n, nl)) && n == rest.len() && nl == (if moved {
                    Some(earliest_addr(rest))
                } else {
                    None
                })
                &&& rest.len() <= 1 ==> final(self).party is None
                &&& rest.len() > 1 ==> (final(self).party matches Some(q) && q.members_view()
                    == rest && q.created_at == p.created_at && q.leader == (if moved {
                    earliest_addr(rest)
                } else {
                    p.leader
                }))
            }),
            final(self).pending_invite == old(self).pending_invite,
            final(self).pending_join == old(self).pending_join,
            final(self).outgoing() == old(self).outgoing(),
            old(self).wf() ==> final(self).wf(),
    {
        match self.party.as_mut() {
            None => Err("not in a party"),
            Some(party) => {
                let (remaining, new_leader) = party.remove_member(self_hash);
                if remaining <= 1 {
                    self.party = None;
                }
                Ok((remaining, new_leader))
            },
        }
    }

    /// Store an incoming invite, replacing any other.
    pub fn set_pending_invite(&mut self, invite: PendingPartyInvite)
        ensures
            final(self).pending_invite == Some(invite),
            final(self).party == old(self).party,
            final(self).pending_join == old(self).pending_join,
            final(self).outgoing() == old(self).outgoing(),
            old(self).wf() ==> final(self).wf(),
    {
        self.pending_invite = Some(invite);
    }

    /// Forget the pending invite if it has expired.
    pub fn expire_invite(&mut self, now: u64)
        ensures
            final(self).pending_invite == (if pending_expired(old(self).pending_invite, now) {
                None
            } else {
                old(self).pending_invite
            }),
            final(self).party == old(self).party,
            final(self).pending_join == old(self).pending_join,
            final(self).outgoing() == old(self).outgoing(),
            old(self).wf() ==> final(self).wf(),
    {
        let expired = match &self.pending_invite {
            Some(inv) => is_invite_expired(now, inv.received_at),
            None => false,
        };
        if expired {
            self.pending_invite = None;
        }
    }

    /// Forget the pending join if the leader has not confirmed it in time.
    pub fn expire_pending_join(&mut self, now: u64)
        ensures
            final(self).pending_join == (if old(self).pending_join matches Some(pj)
                && invite_expired(now, pj.accepted_at) {
                None
            } else {
                old(self).pending_join
            }),
            final(self).party == old(self).party,
            final(self).pending_invite == old(self).pending_invite,
            final(self).outgoing() == old(self).outgoing(),
            old(self).wf() ==> final(self).wf(),
    {
        let expired = match &self.pending_join {
            Some(pj) => is_invite_expired(now, pj.accepted_at),
            None => false,
        };
        if expired {
            self.pending_join = None;
        }
    }

    /// Keep the outgoing invites that the filter keeps, in place.
    fn retain_outgoing(&mut self, f: OutgoingFilter)
        ensures
            final(self).outgoing() == keep_where(old(self).outgoing(), filter_test(f)),
            final(self).party == old(self).party,
            final(self).pending_invite == old(self).pending_invite,
            final(self).pending_join == old(self).pending_join,
    {
        let ghost orig = self.outgoing();
        let total = self.outgoing_invites.len();
        let mut i: usize = 0;
        let mut j: usize = 0;
        proof {
            assert(orig.take(0) =~= Seq::<(Addr, u64)>::empty());
            assert(orig.skip(0) =~= orig);
            assert(self.outgoing() =~= keep_where(orig.take(0), filter_test(f)) + orig.skip(0));
        }
        while i < self.outgoing_invites.len()
            invariant
                self.party == old(self).party,
                self.pending_invite == old(self).pending_invite,
                self.pending_join == old(self).pending_join,
                orig == old(self).outgoing(),
                orig.len() == total,
                0 <= j <= orig.len(),
                i == keep_where(orig.take(j as int), filter_test(f)).len(),
                self.outgoing() == keep_where(orig.take(j as int), filter_test(f)) + orig.skip(
                    j as int,
                ),
            decreases orig.len() - j,
        {
            let ghost k = keep_where(orig.take(j as int), filter_test(f));
            proof {
                assert(self.outgoing().len() == self.outgoing_invites@.len());
                assert(j < orig.len());
                assert(self.outgoing()[i as int] == orig[j as int]);
                assert(orig.take(j + 1).drop_last() =~= orig.take(j as int));
                assert(orig.take(j + 1).last() == orig[j as int]);
            }
            let keep = match f {
                OutgoingFilter::NotTo(a) => !addr_eq(&self.outgoing_invites[i].to, &a),
                OutgoingFilter::FreshAt(now) => !is_invite_expired(
                    now,
                    self.outgoing_invites[i].sent_at,
                ),
            };
            if keep {
                proof {
                    assert(k.push(orig[j as int]) + orig.skip(j + 1) =~= k + orig.skip(j as int));
                }
                i = i + 1;
            } else {
                let ghost before = self.outgoing();
                self.outgoing_invites.remove(i);
                proof {
                    assert(self.outgoing() =~= before.remove(i as int));
                    assert(before.remove(i as int) =~= k + orig.skip(j + 1));
                }
            }
            j = j + 1;
        }
        proof {
            assert(self.outgoing().len() == self.outgoing_invites@.len());
            assert(j == orig.len());
            assert(orig.take(j as int) =~= orig);
            assert(orig.skip(j as int) =~= Seq::<(Addr, u64)>::empty());
            assert(self.outgoing() =~= keep_where(orig, filter_test(f)));
        }
    }

    /// Whether we have an unanswered invite out to `addr`.
    pub fn has_outgoing_invite(&self, addr: &Addr) -> (b: bool)
        ensures
            b == self.outgoing_addrs().contains(*addr),
    {
        let n = self.outgoing_invites.len();
        let mut i: usize = 0;
        while i < n
            invariant
                n == self.outgoing_invites@.len(),
                0 <= i <= n,
                forall|j: int| 0 <= j < i ==> self.outgoing_addrs()[j] != *addr,
            decreases n - i,
        {
            if addr_eq(&self.outgoing_invites[i].to, addr) {
                proof {
                    assert(self.outgoing_addrs()[i as int] == *addr);
                }
                return true;
            }
            i = i + 1;
        }
        false
    }

    /// Record an invite sent to `addr` at `now`; an invite already out to
    /// `addr` gets the new time instead.
    pub fn record_outgoing_invite(&mut self, addr: Addr, now: u64)
        ensures
            final(self).outgoing() == refresh_outgoing(old(self).outgoing(), addr, now),
            final(self).party == old(self).party,
            final(self).pending_invite == old(self).pending_invite,
            final(self).pending_join == old(self).pending_join,
            old(self).wf() ==> final(self).wf(),
    {
        let n = self.outgoing_invites.len();
        let mut i: usize = 0;
        while i < n
            invariant
                n == self.outgoing_invites@.len(),
                self == old(self),
                0 <= i <= n,
                forall|j: int| 0 <= j < i ==> self.outgoing_addrs()[j] != addr,
            decreases n - i,
        {
            if addr_eq(&self.outgoing_invites[i].to, &addr) {
                proof {
                    assert(self.outgoing_addrs()[i as int] == addr);
                    lemma_first_index(self.outgoing_addrs(), addr, i as int);
                    assert(self.outgoing_addrs().contains(addr));
                }
                let ghost before = self.outgoing();
                self.outgoing_invites.set(i, OutgoingPartyInvite { to: addr, sent_at: now });
                proof {
                    assert(self.outgoing() =~= before.update(i as int, (addr, now)));
                    assert(self.outgoing_addrs() =~= recipients(before));
                }
                return;
            }
            i = i + 1;
        }
        let ghost before = self.outgoing();
        proof {
            assert(recipients(before).len() == n);
            assert forall|t: int| 0 <= t < recipients(before).len() implies recipients(before)[t]
                != addr by {
                assert(recipients(before)[t] == self.outgoing_addrs()[t]);
            }
            assert(!recipients(before).contains(addr));
        }
        self.outgoing_invites.push(OutgoingPartyInvite { to: addr, sent_at: now });
        proof {
            assert(self.outgoing() =~= before.push((addr, now)));
            assert(self.outgoing_addrs() =~= recipients(before).push(addr));
            if old(self).wf() {
                assert forall|a: int, b: int| 0 <= a < b < self.outgoing_addrs().len() implies self.outgoing_addrs()[a]
                    != self.outgoing_addrs()[b] by {
                    if b == before.len() {
                        assert(self.outgoing_addrs()[a] == recipients(before)[a]);
                    }
                }
            }
        }
    }

    /// Withdraw the invite to `addr`; tells whether there was one.
    pub fn consume_outgoing_invite(&mut self, addr: &Addr) -> (had: bool)
        ensures
            had == old(self).outgoing_addrs().contains(*addr),
            final(self).outgoing() == keep_where(old(self).outgoing(), not_sent_to(*addr)),
            final(self).party == old(self).party,
            final(self).pending_invite == old(self).pending_invite,
            final(self).pending_join == old(self).pending_join,
            old(self).wf() ==> final(self).wf(),
    {
        let had = self.has_outgoing_invite(addr);
        self.retain_outgoing(OutgoingFilter::NotTo(*addr));
        proof {
            assert(filter_test(OutgoingFilter::NotTo(*addr)) =~= not_sent_to(*addr));
            lemma_recipients_keep(old(self).outgoing(), not_sent_to(*addr));
        }
        had
    }

    /// Drop the outgoing invites that have expired at `now`.
    pub fn expire_outgoing_invites(&mut self, now: u64)
        ensures
            final(self).outgoing() == keep_where(old(self).outgoing(), fresh_at(now)),
            final(self).party == old(self).party,
            final(self).pending_invite == old(self).pending_invite,
            final(self).pending_join == old(self).pending_join,
            old(self).wf() ==> final(self).wf(),
    {
        self.retain_outgoing(OutgoingFilter::FreshAt(now));
        proof {
            assert(filter_test(OutgoingFilter::FreshAt(now)) =~= fresh_at(now));
            lemma_recipients_keep(old(self).outgoing(), fresh_at(now));
        }
    }

    /// Drop every outgoing invite.
    pub fn clear_outgoing_invites(&mut self)
        ensures
            final(self).outgoing() == Seq::<(Addr, u64)>::empty(),
            final(self).party == old(self).party,
            final(self).pending_invite == old(self).pending_invite,
            final(self).pending_join == old(self).pending_join,
            old(self).wf() ==> final(self).wf(),
    {
        self.outgoing_invites.clear();
        proof {
            assert(self.outgoing() =~= Seq::<(Addr, u64)>::empty());
            assert(self.outgoing_addrs() =~= Seq::<Addr>::empty());
        }
    }

    /// The number of outgoing invites.
    pub fn outgoing_invite_count(&self) -> (n: usize)
        ensures
            n == self.outgoing().len(),
    {
        self.outgoing_invites.len()
    }
}

} // verus!
