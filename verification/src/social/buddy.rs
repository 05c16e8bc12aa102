use vstd::prelude::*;

use crate::hexcode::{addr_from_hex, addr_from_hex_spec, addr_to_hex, hex_chars, lemma_addr_hex_round_trip};
use crate::social::retain::{
    keep_test, keep_where, lemma_keep_where_all, lemma_keep_where_shorter, lemma_tag_addrs_contains,
    lemma_tag_addrs_no_dups, lemma_tag_addrs_subset, retain_tagged, tag_addrs, Keep, Tagged,
};
use crate::social::types::{addr_eq, addrs_contain, Addr, BuddySaveEntry};
use crate::text::owned;

verus! {

/// Milliseconds after which a pending buddy request expires.
pub const PENDING_TIMEOUT_MS: u64 = 90_000;

/// A confirmed buddy.
pub struct BuddyEntry {
    pub address_hash: Addr,
    pub display_name: String,
    pub added_date: String,
    /// Milliseconds spent on the same street together.
    pub co_presence_total: u64,
    pub last_seen_date: Option<String>,
}

/// An incoming buddy request, not yet accepted or declined.
pub struct PendingBuddyRequest {
    pub from: Addr,
    pub from_name: String,
    /// Milliseconds since the app started, when the request arrived.
    pub received_at: u64,
}

/// A buddy request we sent and that is not answered yet.
pub struct OutgoingBuddyRequest {
    pub to: Addr,
    /// Milliseconds since the app started, when the request was sent.
    pub sent_at: u64,
}

impl Tagged for OutgoingBuddyRequest {
    open spec fn tag(&self) -> (Addr, u64) {
        (self.to, self.sent_at)
    }

    fn tag_exec(&self) -> (r: (Addr, u64)) {
        (self.to, self.sent_at)
    }
}

impl Tagged for BuddyEntry {
    open spec fn tag(&self) -> (Addr, u64) {
        (self.address_hash, 0)
    }

    fn tag_exec(&self) -> (r: (Addr, u64)) {
        (self.address_hash, 0)
    }
}

impl Tagged for PendingBuddyRequest {
    open spec fn tag(&self) -> (Addr, u64) {
        (self.from, self.received_at)
    }

    fn tag_exec(&self) -> (r: (Addr, u64)) {
        (self.from, self.received_at)
    }
}

impl Tagged for Addr {
    open spec fn tag(&self) -> (Addr, u64) {
        (*self, 0)
    }

    fn tag_exec(&self) -> (r: (Addr, u64)) {
        (*self, 0)
    }
}

/// A copy of an optional string.
fn copy_opt(o: &Option<String>) -> (r: Option<String>)
    ensures
        r == *o,
{
    match o {
        Some(s) => Some(s.clone()),
        None => None,
    }
}

/// `s` is the save-file form of `e`.
pub open spec fn is_save_of(s: BuddySaveEntry, e: BuddyEntry) -> bool {
    &&& s.address_hash@ == hex_chars(e.address_hash@)
    &&& s.display_name == e.display_name
    &&& s.added_date == e.added_date
    &&& s.co_presence_total == e.co_presence_total
    &&& s.last_seen_date == e.last_seen_date
}

/// The address of a save entry decodes.
pub open spec fn save_decodes(s: BuddySaveEntry) -> bool {
    addr_from_hex_spec(s.address_hash@) is Some
}

/// `e` is the buddy read back from the save entry `s`.
pub open spec fn is_restored_from(e: BuddyEntry, s: BuddySaveEntry) -> bool {
    &&& addr_from_hex_spec(s.address_hash@) == Some(e.address_hash@)
    &&& e.display_name == s.display_name
    &&& e.added_date == s.added_date
    &&& e.co_presence_total == s.co_presence_total
    &&& e.last_seen_date == s.last_seen_date
}

/// The test "the save entry decodes".
pub open spec fn decodes_test() -> spec_fn(BuddySaveEntry) -> bool {
    |s: BuddySaveEntry| save_decodes(s)
}

/// The addresses that the hexadecimal texts stand for, skipping texts that
/// are no address.
pub open spec fn decoded_addrs(hexes: Seq<String>) -> Seq<Seq<u8>> {
    hexes.filter_map(|h: String| addr_from_hex_spec(h@))
}

impl BuddyEntry {
    /// The save-file form of this buddy: the address as hexadecimal text.
    pub fn to_save_entry(&self) -> (s: BuddySaveEntry)
        ensures
            is_save_of(s, *self),
    {
        BuddySaveEntry {
            address_hash: addr_to_hex(&self.address_hash),
            display_name: self.display_name.clone(),
            added_date: self.added_date.clone(),
            co_presence_total: self.co_presence_total,
            last_seen_date: copy_opt(&self.last_seen_date),
        }
    }

    /// The buddy a save entry stands for, if its address is sixteen bytes of
    /// hexadecimal text.
    pub fn from_save_entry(save: &BuddySaveEntry) -> (r: Option<Self>)
        ensures
            r is Some <==> save_decodes(*save),
            r matches Some(e) ==> is_restored_from(e, *save),
    {
        let address_hash = match addr_from_hex(save.address_hash.as_str()) {
            Some(a) => a,
            None => {
                return None;
            },
        };
        Some(
            BuddyEntry {
                address_hash,
                display_name: save.display_name.clone(),
                added_date: save.added_date.clone(),
                co_presence_total: save.co_presence_total,
                last_seen_date: copy_opt(&save.last_seen_date),
            },
        )
    }
}

/// Reading back the save-file form of a buddy gives that buddy.
pub proof fn lemma_save_entry_round_trip(e: BuddyEntry, s: BuddySaveEntry, back: BuddyEntry)
    requires
        is_save_of(s, e),
        is_restored_from(back, s),
    ensures
        save_decodes(s),
        back == e,
{
    lemma_addr_hex_round_trip(e.address_hash);
    assert(back.address_hash@ == e.address_hash@);
    assert(back.address_hash =~= e.address_hash);
}

/// Whether a request comes from `a` and is still answerable at `now`.
pub open spec fn request_matches(r: PendingBuddyRequest, a: Addr, now: u64) -> bool {
    r.from == a && now - r.received_at <= PENDING_TIMEOUT_MS
}

/// Runtime buddy state of one player.
pub struct BuddyState {
    pub buddies: Vec<BuddyEntry>,
    pub blocked: Vec<Addr>,
    pub pending_requests: Vec<PendingBuddyRequest>,
    /// Buddy requests we sent that are not answered yet.
    pub outgoing_requests: Vec<OutgoingBuddyRequest>,
}

/// Appending a value appends its address.
pub proof fn lemma_tag_addrs_push<T: Tagged>(s: Seq<T>, x: T)
    ensures
        tag_addrs(s.push(x)) == tag_addrs(s).push(x.tag().0),
        forall|a: Addr| #[trigger] tag_addrs(s.push(x)).contains(a) <==> (tag_addrs(s).contains(a)
            || a == x.tag().0),
{
    assert(tag_addrs(s.push(x)) =~= tag_addrs(s).push(x.tag().0));
    assert forall|a: Addr| #[trigger] tag_addrs(s.push(x)).contains(a) <==> (tag_addrs(s).contains(a)
        || a == x.tag().0) by {
        let t = tag_addrs(s).push(x.tag().0);
        if t.contains(a) {
            let i = choose|i: int| 0 <= i < t.len() && t[i] == a;
            if i < tag_addrs(s).len() {
                assert(tag_addrs(s)[i] == a);
            }
        }
        if tag_addrs(s).contains(a) {
            let i = choose|i: int| 0 <= i < tag_addrs(s).len() && tag_addrs(s)[i] == a;
            assert(t[i] == a);
        }
        assert(t[tag_addrs(s).len() as int] == x.tag().0);
    }
}

/// Appending an address not yet present keeps the addresses distinct.
pub proof fn lemma_push_distinct(s: Seq<Addr>, a: Addr)
    requires
        s.no_duplicates(),
        !s.contains(a),
    ensures
        s.push(a).no_duplicates(),
{
    assert forall|i: int, j: int| 0 <= i < j < s.push(a).len() implies s.push(a)[i] != s.push(a)[j] by {
        assert(s.push(a)[i] == s[i]);
        if j == s.len() {
            assert(s.contains(s[i]));
        } else {
            assert(s.push(a)[j] == s[j]);
        }
    }
}

/// Dropping the values tagged with `x` leaves exactly the other addresses.
pub proof fn lemma_drop_addr<T: Tagged>(s: Seq<T>, x: Addr)
    ensures
        forall|a: Addr| #[trigger] tag_addrs(keep_where(s, keep_test::<T>(Keep::NotAddr(x)))).contains(a)
            <==> (tag_addrs(s).contains(a) && a != x),
        tag_addrs(s).no_duplicates() ==> tag_addrs(keep_where(s, keep_test::<T>(Keep::NotAddr(x)))).no_duplicates(),
{
    let p = keep_test::<T>(Keep::NotAddr(x));
    assert forall|a: Addr| #[trigger] tag_addrs(keep_where(s, p)).contains(a) <==> (tag_addrs(s).contains(a) && a != x) by {
        lemma_tag_addrs_subset(s, p, a);
        let k = keep_where(s, p);
        lemma_tag_addrs_contains(k, a);
        if tag_addrs(k).contains(a) {
            let i = choose|i: int| 0 <= i < k.len() && (#[trigger] k[i].tag()).0 == a;
            assert(k.contains(k[i]));
            crate::social::retain::lemma_keep_where_contains(s, p, k[i]);
        }
    }
    if tag_addrs(s).no_duplicates() {
        lemma_tag_addrs_no_dups(s, p);
    }
}

/// Addresses are their own tags.
pub proof fn lemma_addr_tags(s: Seq<Addr>)
    ensures
        tag_addrs(s) == s,
{
    assert(tag_addrs(s) =~= s);
}

impl BuddyState {
    /// The buddies' addresses, in order.
    pub open spec fn buddy_addrs(&self) -> Seq<Addr> {
        tag_addrs(self.buddies@)
    }

    /// The senders of the pending requests, in order.
    pub open spec fn pending_addrs(&self) -> Seq<Addr> {
        tag_addrs(self.pending_requests@)
    }

    /// The state as the game keeps it: nobody is listed twice in a list, no
    /// buddy and no sender of a pending request is blocked, and nobody with
    /// a pending request is already a buddy.
    pub open spec fn wf(&self) -> bool {
        &&& self.buddy_addrs().no_duplicates()
        &&& self.blocked@.no_duplicates()
        &&& self.pending_addrs().no_duplicates()
        &&& forall|a: Addr| #[trigger] self.blocked@.contains(a) ==> !self.buddy_addrs().contains(a)
        &&& forall|a: Addr| #[trigger] self.blocked@.contains(a) ==> !self.pending_addrs().contains(a)
        &&& forall|a: Addr| #[trigger] self.pending_addrs().contains(a) ==> !self.buddy_addrs().contains(a)
        &&& tag_addrs(self.outgoing_requests@).no_duplicates()
    }

    /// No buddy, nobody blocked, no request.
    pub fn new() -> (s: Self)
        ensures
            s.wf(),
            s.buddies@.len() == 0,
            s.blocked@.len() == 0,
            s.pending_requests@.len() == 0,
            s.outgoing_requests@.len() == 0,
    {
        let s = BuddyState {
            buddies: Vec::new(),
            blocked: Vec::new(),
            pending_requests: Vec::new(),
            outgoing_requests: Vec::new(),
        };
        proof {
            assert(s.buddy_addrs() =~= Seq::<Addr>::empty());
            assert(s.pending_addrs() =~= Seq::<Addr>::empty());
            assert(tag_addrs(s.outgoing_requests@) =~= Seq::<Addr>::empty());
        }
        s
    }

    /// Whether `addr` is a buddy.
    pub fn is_buddy(&self, addr: &Addr) -> (b: bool)
        ensures
            b == self.buddy_addrs().contains(*addr),
    {
        let n = self.buddies.len();
        let mut i: usize = 0;
        while i < n
            invariant
                n == self.buddies@.len(),
                0 <= i <= n,
                forall|j: int| 0 <= j < i ==> self.buddy_addrs()[j] != *addr,
            decreases n - i,
        {
            if addr_eq(&self.buddies[i].address_hash, addr) {
                proof {
                    assert(self.buddy_addrs()[i as int] == *addr);
                }
                return true;
            }
            i = i + 1;
        }
        false
    }

    /// Whether `addr` is blocked.
    pub fn is_blocked(&self, addr: &Addr) -> (b: bool)
        ensures
            b == self.blocked@.contains(*addr),
    {
        addrs_contain(&self.blocked, addr)
    }

    /// Add a buddy, unless blocked; a pending request from them is dropped,
    /// and a buddy already listed is not added twice.
    pub fn add_buddy(&mut self, entry: BuddyEntry)
        ensures
            old(self).blocked@.contains(entry.address_hash) ==> *final(self) == *old(self),
            !old(self).blocked@.contains(entry.address_hash) ==> {
                &&& final(self).pending_requests@ == keep_where(
                    old(self).pending_requests@,
                    keep_test::<PendingBuddyRequest>(Keep::NotAddr(entry.address_hash)),
                )
                &&& final(self).buddies@ == if old(self).buddy_addrs().contains(entry.address_hash) {
                    old(self).buddies@
                } else {
                    old(self).buddies@.push(entry)
                }
                &&& final(self).blocked@ == old(self).blocked@
            },
            final(self).outgoing_requests@ == old(self).outgoing_requests@,
            old(self).wf() ==> final(self).wf(),
    {
        if self.is_blocked(&entry.address_hash) {
            return;
        }
        let a = entry.address_hash;
        retain_tagged(&mut self.pending_requests, Keep::NotAddr(a));
        proof {
            lemma_drop_addr(old(self).pending_requests@, a);
        }
        if !self.is_buddy(&a) {
            let ghost before = self.buddies@;
            self.buddies.push(entry);
            proof {
                lemma_tag_addrs_push(before, entry);
                if old(self).wf() {
                    lemma_push_distinct(tag_addrs(before), a);
                }
            }
        }
    }

    /// Remove a buddy; tells whether there was one with that address.
    pub fn remove_buddy(&mut self, addr: &Addr) -> (removed: bool)
        ensures
            removed == old(self).buddy_addrs().contains(*addr),
            final(self).buddies@ == keep_where(old(self).buddies@, keep_test::<BuddyEntry>(Keep::NotAddr(*addr))),
            final(self).blocked@ == old(self).blocked@,
            final(self).pending_requests@ == old(self).pending_requests@,
            final(self).outgoing_requests@ == old(self).outgoing_requests@,
            old(self).wf() ==> final(self).wf(),
    {
        let before = self.buddies.len();
        retain_tagged(&mut self.buddies, Keep::NotAddr(*addr));
        proof {
            let p = keep_test::<BuddyEntry>(Keep::NotAddr(*addr));
            lemma_keep_where_shorter(old(self).buddies@, p);
            lemma_tag_addrs_contains(old(self).buddies@, *addr);
            lemma_drop_addr(old(self).buddies@, *addr);
        }
        self.buddies.len() < before
    }

    /// Block a player: they stop being a buddy, their pending request goes,
    /// and they are listed as blocked once.
    pub fn block_player(&mut self, addr: &Addr)
        ensures
            final(self).buddies@ == keep_where(old(self).buddies@, keep_test::<BuddyEntry>(Keep::NotAddr(*addr))),
            final(self).pending_requests@ == keep_where(
                old(self).pending_requests@,
                keep_test::<PendingBuddyRequest>(Keep::NotAddr(*addr)),
            ),
            final(self).blocked@ == if old(self).blocked@.contains(*addr) {
                old(self).blocked@
            } else {
                old(self).blocked@.push(*addr)
            },
            final(self).outgoing_requests@ == old(self).outgoing_requests@,
            old(self).wf() ==> final(self).wf(),
    {
        self.remove_buddy(addr);
        retain_tagged(&mut self.pending_requests, Keep::NotAddr(*addr));
        proof {
            lemma_drop_addr(old(self).pending_requests@, *addr);
            lemma_drop_addr(old(self).buddies@, *addr);
        }
        if !self.is_blocked(addr) {
            self.blocked.push(*addr);
            proof {
                if old(self).wf() {
                    lemma_push_distinct(old(self).blocked@, *addr);
                }
                assert forall|a: Addr| #[trigger] self.blocked@.contains(a) implies a == *addr || old(
                    self,
                ).blocked@.contains(a) by {
                    let i = choose|i: int| 0 <= i < self.blocked@.len() && self.blocked@[i] == a;
                    if i < old(self).blocked@.len() {
                        assert(old(self).blocked@[i] == a);
                    }
                }
            }
        }
    }

    /// Take a player off the block list; tells whether they were on it.
    pub fn unblock_player(&mut self, addr: &Addr) -> (was: bool)
        ensures
            was == old(self).blocked@.contains(*addr),
            final(self).blocked@ == keep_where(old(self).blocked@, keep_test::<Addr>(Keep::NotAddr(*addr))),
            final(self).buddies@ == old(self).buddies@,
            final(self).pending_requests@ == old(self).pending_requests@,
            final(self).outgoing_requests@ == old(self).outgoing_requests@,
            old(self).wf() ==> final(self).wf(),
    {
        let before = self.blocked.len();
        retain_tagged(&mut self.blocked, Keep::NotAddr(*addr));
        proof {
            let p = keep_test::<Addr>(Keep::NotAddr(*addr));
            lemma_keep_where_shorter(old(self).blocked@, p);
            lemma_addr_tags(old(self).blocked@);
            lemma_addr_tags(self.blocked@);
            lemma_tag_addrs_contains(old(self).blocked@, *addr);
            lemma_drop_addr(old(self).blocked@, *addr);
        }
        self.blocked.len() < before
    }

    /// Queue an incoming buddy request, replacing an earlier one from the
    /// same sender; ignored when the sender is blocked or already a buddy.
    /// Tells whether the request was stored.
    pub fn add_pending_request(&mut self, request: PendingBuddyRequest) -> (stored: bool)
        ensures
            stored == !(old(self).blocked@.contains(request.from) || old(self).buddy_addrs().contains(
                request.from,
            )),
            (old(self).blocked@.contains(request.from) || old(self).buddy_addrs().contains(request.from))
                ==> *final(self) == *old(self),
            !(old(self).blocked@.contains(request.from) || old(self).buddy_addrs().contains(request.from))
                ==> final(self).pending_requests@ == keep_where(
                old(self).pending_requests@,
                keep_test::<PendingBuddyRequest>(Keep::NotAddr(request.from)),
            ).push(request),
            final(self).buddies@ == old(self).buddies@,
            final(self).blocked@ == old(self).blocked@,
            final(self).outgoing_requests@ == old(self).outgoing_requests@,
            old(self).wf() ==> final(self).wf(),
    {
        if self.is_blocked(&request.from) || self.is_buddy(&request.from) {
            return false;
        }
        let a = request.from;
        retain_tagged(&mut self.pending_requests, Keep::NotAddr(a));
        let ghost kept = self.pending_requests@;
        self.pending_requests.push(request);
        proof {
            lemma_drop_addr(old(self).pending_requests@, a);
            lemma_tag_addrs_push(kept, request);
            if old(self).wf() {
                lemma_push_distinct(tag_addrs(kept), a);
            }
        }
        true
    }

    /// Drop the pending request from `addr`, if any.
    pub fn remove_pending_request(&mut self, addr: &Addr)
        ensures
            final(self).pending_requests@ == keep_where(
                old(self).pending_requests@,
                keep_test::<PendingBuddyRequest>(Keep::NotAddr(*addr)),
            ),
            final(self).buddies@ == old(self).buddies@,
            final(self).blocked@ == old(self).blocked@,
            final(self).outgoing_requests@ == old(self).outgoing_requests@,
            old(self).wf() ==> final(self).wf(),
    {
        retain_tagged(&mut self.pending_requests, Keep::NotAddr(*addr));
        proof {
            lemma_drop_addr(old(self).pending_requests@, *addr);
        }
    }

    /// The request from `addr`, if one arrived no more than the timeout
    /// before `now` (the first such one).
    pub fn get_pending_request(&self, addr: &Addr, now: u64) -> (r: Option<&PendingBuddyRequest>)
        ensures
            r is None <==> !exists|i: int| 0 <= i < self.pending_requests@.len() && request_matches(
                #[trigger] self.pending_requests@[i],
                *addr,
                now,
            ),
            r matches Some(q) ==> exists|i: int|
                0 <= i < self.pending_requests@.len() && *q == self.pending_requests@[i]
                    && request_matches(self.pending_requests@[i], *addr, now) && forall|j: int|
                    0 <= j < i ==> !request_matches(#[trigger] self.pending_requests@[j], *addr, now),
    {
        let n = self.pending_requests.len();
        let mut i: usize = 0;
        while i < n
            invariant
                n == self.pending_requests@.len(),
                0 <= i <= n,
                forall|j: int| 0 <= j < i ==> !request_matches(#[trigger] self.pending_requests@[j], *addr, now),
            decreases n - i,
        {
            let q = &self.pending_requests[i];
            if addr_eq(&q.from, addr) && !(now > q.received_at && now - q.received_at > PENDING_TIMEOUT_MS) {
                return Some(q);
            }
            i = i + 1;
        }
        None
    }

    /// Drop the pending requests older than the timeout at `now`.
    pub fn expire_requests(&mut self, now: u64)
        ensures
            final(self).pending_requests@ == keep_where(
                old(self).pending_requests@,
                keep_test::<PendingBuddyRequest>(Keep::Fresh { now, limit: PENDING_TIMEOUT_MS }),
            ),
            final(self).buddies@ == old(self).buddies@,
            final(self).blocked@ == old(self).blocked@,
            final(self).outgoing_requests@ == old(self).outgoing_requests@,
            old(self).wf() ==> final(self).wf(),
    {
        retain_tagged(&mut self.pending_requests, Keep::Fresh { now, limit: PENDING_TIMEOUT_MS });
        proof {
            let p = keep_test::<PendingBuddyRequest>(Keep::Fresh { now, limit: PENDING_TIMEOUT_MS });
            if old(self).wf() {
                lemma_tag_addrs_no_dups(old(self).pending_requests@, p);
            }
            assert forall|a: Addr| #[trigger] self.pending_addrs().contains(a) implies old(self).pending_addrs().contains(a) by {
                lemma_tag_addrs_subset(old(self).pending_requests@, p, a);
            }
        }
    }

    /// Index of the first buddy with address `addr`, if any.
    fn find_buddy(&self, addr: &Addr) -> (r: Option<usize>)
        ensures
            r is None <==> !self.buddy_addrs().contains(*addr),
            r matches Some(i) ==> i < self.buddies@.len() && self.buddy_addrs()[i as int] == *addr,
    {
        let n = self.buddies.len();
        let mut i: usize = 0;
        while i < n
            invariant
                n == self.buddies@.len(),
                0 <= i <= n,
                forall|j: int| 0 <= j < i ==> self.buddy_addrs()[j] != *addr,
            decreases n - i,
        {
            if addr_eq(&self.buddies[i].address_hash, addr) {
                proof {
                    assert(self.buddy_addrs()[i as int] == *addr);
                }
                return Some(i);
            }
            i = i + 1;
        }
        None
    }

    /// Rename a buddy; tells whether `addr` is a buddy.
    pub fn update_buddy_name(&mut self, addr: &Addr, new_name: &str) -> (found: bool)
        ensures
            found == old(self).buddy_addrs().contains(*addr),
            !found ==> *final(self) == *old(self),
            found ==> exists|i: int|
                0 <= i < old(self).buddies@.len() && old(self).buddy_addrs()[i] == *addr && {
                    let b = final(self).buddies@[i];
                    let o = old(self).buddies@[i];
                    &&& final(self).buddies@.len() == old(self).buddies@.len()
                    &&& forall|j: int| 0 <= j < old(self).buddies@.len() && j != i ==> final(self).buddies@[j]
                        == old(self).buddies@[j]
                    &&& b.display_name@ == new_name@
                    &&& b.address_hash == o.address_hash && b.added_date == o.added_date
                    &&& b.co_presence_total == o.co_presence_total && b.last_seen_date == o.last_seen_date
                },
            final(self).blocked@ == old(self).blocked@,
            final(self).pending_requests@ == old(self).pending_requests@,
            final(self).outgoing_requests@ == old(self).outgoing_requests@,
            old(self).wf() ==> final(self).wf(),
    {
        match self.find_buddy(addr) {
            None => false,
            Some(i) => {
                let ghost before = self.buddies@;
                let mut b = self.buddies.remove(i);
                b.display_name = owned(new_name);
                self.buddies.insert(i, b);
                proof {
                    assert(self.buddy_addrs() =~= tag_addrs(before));
                    assert forall|j: int| 0 <= j < before.len() && j != i implies self.buddies@[j] == before[j] by {
                        if j < i {
                            assert(self.buddies@[j] == before.remove(i as int)[j]);
                        } else {
                            assert(self.buddies@[j] == before.remove(i as int)[j - 1]);
                        }
                    }
                }
                true
            },
        }
    }

    /// Add `ms` milliseconds spent together with a buddy (saturating) and
    /// note `date` as the day last seen; tells whether `addr` is a buddy.
    pub fn record_copresence(&mut self, addr: &Addr, ms: u64, date: &str) -> (found: bool)
        ensures
            found == old(self).buddy_addrs().contains(*addr),
            !found ==> *final(self) == *old(self),
            found ==> exists|i: int|
                0 <= i < old(self).buddies@.len() && old(self).buddy_addrs()[i] == *addr && {
                    let b = final(self).buddies@[i];
                    let o = old(self).buddies@[i];
                    &&& final(self).buddies@.len() == old(self).buddies@.len()
                    &&& forall|j: int| 0 <= j < old(self).buddies@.len() && j != i ==> final(self).buddies@[j]
                        == old(self).buddies@[j]
                    &&& b.co_presence_total == if o.co_presence_total + ms > u64::MAX {
                        u64::MAX
                    } else {
                        (o.co_presence_total + ms) as u64
                    }
                    &&& b.last_seen_date matches Some(d) && d@ == date@
                    &&& b.address_hash == o.address_hash && b.display_name == o.display_name
                    &&& b.added_date == o.added_date
                },
            final(self).blocked@ == old(self).blocked@,
            final(self).pending_requests@ == old(self).pending_requests@,
            final(self).outgoing_requests@ == old(self).outgoing_requests@,
            old(self).wf() ==> final(self).wf(),
    {
        match self.find_buddy(addr) {
            None => false,
            Some(i) => {
                let ghost before = self.buddies@;
                let mut b = self.buddies.remove(i);
                b.co_presence_total = b.co_presence_total.saturating_add(ms);
                b.last_seen_date = Some(owned(date));
                self.buddies.insert(i, b);
                proof {
                    assert(self.buddy_addrs() =~= tag_addrs(before));
                    assert forall|j: int| 0 <= j < before.len() && j != i implies self.buddies@[j] == before[j] by {
                        if j < i {
                            assert(self.buddies@[j] == before.remove(i as int)[j]);
                        } else {
                            assert(self.buddies@[j] == before.remove(i as int)[j - 1]);
                        }
                    }
                }
                true
            },
        }
    }

    /// Whether we have an unanswered buddy request out to `addr`.
    pub fn has_outgoing_request(&self, addr: &Addr) -> (b: bool)
        ensures
            b == tag_addrs(self.outgoing_requests@).contains(*addr),
    {
        let n = self.outgoing_requests.len();
        let mut i: usize = 0;
        while i < n
            invariant
                n == self.outgoing_requests@.len(),
                0 <= i <= n,
                forall|j: int| 0 <= j < i ==> tag_addrs(self.outgoing_requests@)[j] != *addr,
            decreases n - i,
        {
            if addr_eq(&self.outgoing_requests[i].to, addr) {
                proof {
                    assert(tag_addrs(self.outgoing_requests@)[i as int] == *addr);
                }
                return true;
            }
            i = i + 1;
        }
        false
    }

    /// Record a buddy request sent to `addr` at `now`; a request already
    /// out to `addr` gets the new time instead.
    pub fn record_outgoing_request(&mut self, addr: Addr, now: u64)
        ensures
            tag_addrs(old(self).outgoing_requests@).contains(addr) ==> exists|i: int|
                0 <= i < old(self).outgoing_requests@.len() && (#[trigger] old(self).outgoing_requests@[i]).to == addr
                    && (forall|j: int| 0 <= j < i ==> (#[trigger] old(self).outgoing_requests@[j]).to != addr)
                    && final(self).outgoing_requests@ == old(self).outgoing_requests@.update(
                    i,
                    OutgoingBuddyRequest { to: addr, sent_at: now },
                ),
            !tag_addrs(old(self).outgoing_requests@).contains(addr) ==> final(self).outgoing_requests@
                == old(self).outgoing_requests@.push(OutgoingBuddyRequest { to: addr, sent_at: now }),
            final(self).buddies@ == old(self).buddies@,
            final(self).blocked@ == old(self).blocked@,
            final(self).pending_requests@ == old(self).pending_requests@,
            old(self).wf() ==> final(self).wf(),
    {
        let n = self.outgoing_requests.len();
        let mut i: usize = 0;
        while i < n
            invariant
                n == self.outgoing_requests@.len(),
                self == old(self),
                0 <= i <= n,
                forall|j: int| 0 <= j < i ==> (#[trigger] self.outgoing_requests@[j]).to != addr,
            decreases n - i,
        {
            if addr_eq(&self.outgoing_requests[i].to, &addr) {
                let ghost before = self.outgoing_requests@;
                proof {
                    lemma_tag_addrs_contains(before, addr);
                    assert(before[i as int].tag().0 == addr);
                }
                self.outgoing_requests.set(i, OutgoingBuddyRequest { to: addr, sent_at: now });
                proof {
                    assert(tag_addrs(self.outgoing_requests@) =~= tag_addrs(before));
                }
                return;
            }
            i = i + 1;
        }
        let ghost before = self.outgoing_requests@;
        proof {
            lemma_tag_addrs_contains(before, addr);
        }
        let req = OutgoingBuddyRequest { to: addr, sent_at: now };
        self.outgoing_requests.push(req);
        proof {
            lemma_tag_addrs_push(before, req);
            if old(self).wf() {
                lemma_push_distinct(tag_addrs(before), addr);
            }
        }
    }

    /// Withdraw the buddy request sent to `addr`; tells whether there was one.
    pub fn consume_outgoing_request(&mut self, addr: &Addr) -> (had: bool)
        ensures
            had == tag_addrs(old(self).outgoing_requests@).contains(*addr),
            final(self).outgoing_requests@ == keep_where(
                old(self).outgoing_requests@,
                keep_test::<OutgoingBuddyRequest>(Keep::NotAddr(*addr)),
            ),
            final(self).buddies@ == old(self).buddies@,
            final(self).blocked@ == old(self).blocked@,
            final(self).pending_requests@ == old(self).pending_requests@,
            old(self).wf() ==> final(self).wf(),
    {
        let had = self.has_outgoing_request(addr);
        retain_tagged(&mut self.outgoing_requests, Keep::NotAddr(*addr));
        proof {
            lemma_drop_addr(old(self).outgoing_requests@, *addr);
        }
        had
    }

    /// Drop the outgoing buddy requests older than the timeout at `now`.
    pub fn expire_outgoing_requests(&mut self, now: u64)
        ensures
            final(self).outgoing_requests@ == keep_where(
                old(self).outgoing_requests@,
                keep_test::<OutgoingBuddyRequest>(Keep::Fresh { now, limit: PENDING_TIMEOUT_MS }),
            ),
            final(self).buddies@ == old(self).buddies@,
            final(self).blocked@ == old(self).blocked@,
            final(self).pending_requests@ == old(self).pending_requests@,
            old(self).wf() ==> final(self).wf(),
    {
        retain_tagged(&mut self.outgoing_requests, Keep::Fresh { now, limit: PENDING_TIMEOUT_MS });
        proof {
            if old(self).wf() {
                lemma_tag_addrs_no_dups(
                    old(self).outgoing_requests@,
                    keep_test::<OutgoingBuddyRequest>(Keep::Fresh { now, limit: PENDING_TIMEOUT_MS }),
                );
            }
        }
    }

    /// Every buddy in save-file form, in order.
    pub fn to_save_entries(&self) -> (v: Vec<BuddySaveEntry>)
        ensures
            v@.len() == self.buddies@.len(),
            forall|i: int| 0 <= i < v@.len() ==> is_save_of(#[trigger] v@[i], self.buddies@[i]),
    {
        let n = self.buddies.len();
        let mut v: Vec<BuddySaveEntry> = Vec::new();
        let mut i: usize = 0;
        while i < n
            invariant
                n == self.buddies@.len(),
                0 <= i <= n,
                v@.len() == i,
                forall|j: int| 0 <= j < i ==> is_save_of(#[trigger] v@[j], self.buddies@[j]),
            decreases n - i,
        {
            v.push(self.buddies[i].to_save_entry());
            i = i + 1;
        }
        v
    }

    /// The blocked addresses as hexadecimal text, in order.
    pub fn blocked_to_hex(&self) -> (v: Vec<String>)
        ensures
            v@.len() == self.blocked@.len(),
            forall|i: int| 0 <= i < v@.len() ==> (#[trigger] v@[i])@ == hex_chars(self.blocked@[i]@),
    {
        let n = self.blocked.len();
        let mut v: Vec<String> = Vec::new();
        let mut i: usize = 0;
        while i < n
            invariant
                n == self.blocked@.len(),
                0 <= i <= n,
                v@.len() == i,
                forall|j: int| 0 <= j < i ==> (#[trigger] v@[j])@ == hex_chars(self.blocked@[j]@),
            decreases n - i,
        {
            v.push(addr_to_hex(&self.blocked[i]));
            i = i + 1;
        }
        v
    }

    /// Replace the buddies and the block list by those saved, skipping
    /// entries whose address does not decode; pending requests are dropped.
    pub fn restore_from_save(&mut self, entries: &[BuddySaveEntry], blocked_hex: &[String])
        ensures
            final(self).pending_requests@.len() == 0,
            final(self).buddies@.len() == keep_where(entries@, decodes_test()).len(),
            forall|i: int| 0 <= i < final(self).buddies@.len() ==> is_restored_from(
                #[trigger] final(self).buddies@[i],
                keep_where(entries@, decodes_test())[i],
            ),
            final(self).blocked@.map_values(|a: Addr| a@) == decoded_addrs(blocked_hex@),
            final(self).outgoing_requests@ == old(self).outgoing_requests@,
    {
        self.buddies.clear();
        self.blocked.clear();
        self.pending_requests.clear();
        let n = entries.len();
        let mut i: usize = 0;
        proof {
            assert(entries@.take(0) =~= Seq::<BuddySaveEntry>::empty());
        }
        while i < n
            invariant
                n == entries@.len(),
                0 <= i <= n,
                self.pending_requests@.len() == 0,
                self.blocked@.len() == 0,
                self.outgoing_requests@ == old(self).outgoing_requests@,
                self.buddies@.len() == keep_where(entries@.take(i as int), decodes_test()).len(),
                forall|j: int| 0 <= j < self.buddies@.len() ==> is_restored_from(
                    #[trigger] self.buddies@[j],
                    keep_where(entries@.take(i as int), decodes_test())[j],
                ),
            decreases n - i,
        {
            proof {
                assert(entries@.take(i + 1).drop_last() =~= entries@.take(i as int));
                assert(entries@.take(i + 1).last() == entries@[i as int]);
            }
            match BuddyEntry::from_save_entry(&entries[i]) {
                Some(b) => {
                    self.buddies.push(b);
                },
                None => {},
            }
            i = i + 1;
        }
        proof {
            assert(entries@.take(n as int) =~= entries@);
        }
        let ghost restored = self.buddies@;
        let m = blocked_hex.len();
        let mut k: usize = 0;
        proof {
            assert(blocked_hex@.take(0) =~= Seq::<String>::empty());
            assert(self.blocked@.map_values(|a: Addr| a@) =~= Seq::<Seq<u8>>::empty());
        }
        while k < m
            invariant
                m == blocked_hex@.len(),
                0 <= k <= m,
                self.pending_requests@.len() == 0,
                self.buddies@ == restored,
                self.outgoing_requests@ == old(self).outgoing_requests@,
                self.blocked@.map_values(|a: Addr| a@) == decoded_addrs(blocked_hex@.take(k as int)),
            decreases m - k,
        {
            proof {
                assert(blocked_hex@.take(k + 1).drop_last() =~= blocked_hex@.take(k as int));
                assert(blocked_hex@.take(k + 1).last() == blocked_hex@[k as int]);
            }
            let ghost before = self.blocked@;
            match addr_from_hex(blocked_hex[k].as_str()) {
                Some(a) => {
                    self.blocked.push(a);
                    proof {
                        assert(self.blocked@.map_values(|a: Addr| a@) =~= before.map_values(|a: Addr| a@).push(a@));
                    }
                },
                None => {},
            }
            k = k + 1;
        }
        proof {
            assert(blocked_hex@.take(m as int) =~= blocked_hex@);
        }
    }
}

/// Restoring what was saved gives back the buddies, in order, and the
/// blocked addresses.
pub proof fn lemma_restore_round_trip(
    buddies: Seq<BuddyEntry>,
    saves: Seq<BuddySaveEntry>,
    restored: Seq<BuddyEntry>,
    blocked: Seq<Addr>,
    hexes: Seq<String>,
)
    requires
        saves.len() == buddies.len(),
        forall|i: int| 0 <= i < saves.len() ==> is_save_of(#[trigger] saves[i], buddies[i]),
        restored.len() == keep_where(saves, decodes_test()).len(),
        forall|i: int| 0 <= i < restored.len() ==> is_restored_from(
            #[trigger] restored[i],
            keep_where(saves, decodes_test())[i],
        ),
        hexes.len() == blocked.len(),
        forall|i: int| 0 <= i < hexes.len() ==> (#[trigger] hexes[i])@ == hex_chars(blocked[i]@),
    ensures
        restored == buddies,
        decoded_addrs(hexes) == blocked.map_values(|a: Addr| a@),
    decreases hexes.len(),
{
    assert forall|i: int| 0 <= i < saves.len() implies (#[trigger] decodes_test()(saves[i])) by {
        lemma_addr_hex_round_trip(buddies[i].address_hash);
    }
    lemma_keep_where_all(saves, decodes_test());
    assert forall|i: int| 0 <= i < restored.len() implies restored[i] == buddies[i] by {
        lemma_save_entry_round_trip(buddies[i], saves[i], restored[i]);
    }
    assert(restored =~= buddies);
    lemma_decoded_hexes(blocked, hexes);
}

/// Decoding the hexadecimal texts of addresses gives those addresses.
pub proof fn lemma_decoded_hexes(blocked: Seq<Addr>, hexes: Seq<String>)
    requires
        hexes.len() == blocked.len(),
        forall|i: int| 0 <= i < hexes.len() ==> (#[trigger] hexes[i])@ == hex_chars(blocked[i]@),
    ensures
        decoded_addrs(hexes) == blocked.map_values(|a: Addr| a@),
    decreases hexes.len(),
{
    if hexes.len() > 0 {
        let hf = hexes.drop_last();
        let bf = blocked.drop_last();
        assert forall|i: int| 0 <= i < hf.len() implies (#[trigger] hf[i])@ == hex_chars(bf[i]@) by {
            assert(hf[i] == hexes[i]);
            assert(bf[i] == blocked[i]);
        }
        lemma_decoded_hexes(bf, hf);
        lemma_addr_hex_round_trip(blocked.last());
        assert(hexes.last()@ == hex_chars(blocked.last()@));
        assert(blocked.map_values(|a: Addr| a@) =~= bf.map_values(|a: Addr| a@).push(blocked.last()@));
    } else {
        assert(blocked.map_values(|a: Addr| a@) =~= Seq::<Seq<u8>>::empty());
    }
}

} // verus!
