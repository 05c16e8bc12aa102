use vstd::prelude::*;

use crate::hexcode::{addr_to_hex, hex_chars};
use crate::network::types::PresenceEvent;
use crate::social::retain::{keep_test, keep_where, lemma_tag_addrs_no_dups, retain_tagged, tag_addrs, Keep, Tagged};
use crate::social::types::{addr_eq, Addr};
use crate::sorting::{sort_by_key, sorted_by_key, Keyed};

verus! {

/// Players not heard from for this many milliseconds are removed.
pub const STALE_TIMEOUT_MS: u64 = 10_000;

/// What the registry knows of one remote player: its address, its display
/// name, the last state it sent (none yet after joining) and when it was last
/// heard from (milliseconds of a monotonic clock).
pub struct RemotePlayer<S> {
    pub address_hash: Addr,
    pub display_name: String,
    pub state: Option<S>,
    pub last_update: u64,
}

/// One remote player as a mathematical value.
pub type PlayerView<S> = (Addr, Seq<char>, Option<S>, u64);

/// The view of one record.
pub open spec fn player_view<S>(p: RemotePlayer<S>) -> PlayerView<S> {
    (p.address_hash, p.display_name@, p.state, p.last_update)
}

impl<S> Tagged for RemotePlayer<S> {
    open spec fn tag(&self) -> (Addr, u64) {
        (self.address_hash, self.last_update)
    }

    fn tag_exec(&self) -> (r: (Addr, u64)) {
        (self.address_hash, self.last_update)
    }
}

/// `s` with `f` applied to the record of address `a`, wherever it is.
pub open spec fn replace_at<S>(s: Seq<PlayerView<S>>, a: Addr, f: spec_fn(PlayerView<S>) -> PlayerView<S>) -> Seq<
    PlayerView<S>,
> {
    s.map_values(|r: PlayerView<S>| if r.0 == a { f(r) } else { r })
}

/// The addresses of a list of records, in order.
pub open spec fn view_addrs<S>(s: Seq<PlayerView<S>>) -> Seq<Addr> {
    s.map_values(|r: PlayerView<S>| r.0)
}

/// Whether a record last heard from at `last` is still fresh at `now`:
/// less than the timeout has passed (a time stamp after `now` is fresh).
pub open spec fn is_fresh(now: u64, last: u64) -> bool {
    now - last < STALE_TIMEOUT_MS
}

/// Tracks the remote players on the current street by address: who joined,
/// their names and last states, and when each was last heard from.
pub struct RemotePlayerRegistry<S> {
    players: Vec<RemotePlayer<S>>,
}

impl<S> View for RemotePlayerRegistry<S> {
    type V = Seq<PlayerView<S>>;

    closed spec fn view(&self) -> Seq<PlayerView<S>> {
        self.players@.map_values(|p: RemotePlayer<S>| player_view(p))
    }
}

impl<S> RemotePlayerRegistry<S> {
    /// No address occurs twice.
    pub closed spec fn wf(&self) -> bool {
        tag_addrs(self.players@).no_duplicates()
    }

    proof fn lemma_addrs(&self)
        ensures
            view_addrs(self@) == tag_addrs(self.players@),
    {
        assert(view_addrs(self@) =~= tag_addrs(self.players@));
    }

    /// No player.
    pub fn new() -> (r: Self)
        ensures
            r.wf(),
            r@ == Seq::<PlayerView<S>>::empty(),
    {
        let r = RemotePlayerRegistry { players: Vec::new() };
        proof {
            assert(r@ =~= Seq::<PlayerView<S>>::empty());
            assert(tag_addrs(r.players@) =~= Seq::<Addr>::empty());
        }
        r
    }

    /// Position of the record of `a`, if there is one.
    fn find(&self, a: &Addr) -> (r: Option<usize>)
        requires
            self.wf(),
        ensures
            match r {
                Some(i) => i < self.players@.len() && self.players@[i as int].address_hash == *a,
                None => !view_addrs(self@).contains(*a),
            },
    {
        let n = self.players.len();
        let mut i: usize = 0;
        while i < n
            invariant
                n == self.players@.len(),
                0 <= i <= n,
                forall|j: int| 0 <= j < i ==> #[trigger] self.players@[j].address_hash != *a,
            decreases n - i,
        {
            if addr_eq(&self.players[i].address_hash, a) {
                return Some(i);
            }
            i = i + 1;
        }
        proof {
            if view_addrs(self@).contains(*a) {
                let j = choose|j: int| 0 <= j < view_addrs(self@).len() && view_addrs(self@)[j] == *a;
                assert(self.players@[j].address_hash == *a);
            }
        }
        None
    }

    /// With distinct addresses, only position `i` holds address `a`.
    proof fn lemma_only_at(&self, i: int, a: Addr)
        requires
            self.wf(),
            0 <= i < self.players@.len(),
            self.players@[i].address_hash == a,
        ensures
            forall|j: int| 0 <= j < self.players@.len() && j != i ==> #[trigger] self.players@[j].address_hash != a,
    {
        assert forall|j: int| 0 <= j < self.players@.len() && j != i implies #[trigger] self.players@[j].address_hash
            != a by {
            assert(tag_addrs(self.players@)[j] == self.players@[j].address_hash);
            assert(tag_addrs(self.players@)[i] == self.players@[i].address_hash);
        }
    }

    /// A player arrives or leaves. On arrival the record is made anew (any
    /// earlier one is replaced, in its place) with no state and heard from
    /// at `now`; on leaving its record is dropped.
    pub fn handle_presence(&mut self, event: &PresenceEvent, now: u64)
        requires
            old(self).wf(),
        ensures
            final(self).wf(),
            match event {
                PresenceEvent::Joined { address_hash, display_name } => {
                    let rec = (*address_hash, display_name@, None::<S>, now);
                    final(self)@ == if view_addrs(old(self)@).contains(*address_hash) {
                        replace_at(old(self)@, *address_hash, |r: PlayerView<S>| rec)
                    } else {
                        old(self)@.push(rec)
                    }
                },
                PresenceEvent::Left { address_hash } => final(self)@ == old(self)@.filter(
                    |r: PlayerView<S>| r.0 != *address_hash,
                ),
            },
    {
        match event {
            PresenceEvent::Joined { address_hash, display_name } => {
                let rec = RemotePlayer {
                    address_hash: *address_hash,
                    display_name: display_name.clone(),
                    state: None,
                    last_update: now,
                };
                let ghost recv = (*address_hash, display_name@, None::<S>, now);
                let ghost before = self.players@;
                proof {
                    self.lemma_addrs();
                }
                match self.find(address_hash) {
                    Some(i) => {
                        proof {
                            self.lemma_only_at(i as int, *address_hash);
                        }
                        self.players.set(i, rec);
                        proof {
                            assert(self@ =~= replace_at(old(self)@, *address_hash, |r: PlayerView<S>| recv));
                            assert(tag_addrs(self.players@) =~= tag_addrs(before));
                            assert(view_addrs(old(self)@)[i as int] == *address_hash);
                        }
                    },
                    None => {
                        self.players.push(rec);
                        proof {
                            assert(self@ =~= old(self)@.push(recv));
                            assert(tag_addrs(self.players@) =~= tag_addrs(before).push(*address_hash));
                            assert forall|x: int, y: int|
                                0 <= x < y < tag_addrs(self.players@).len() implies tag_addrs(self.players@)[x]
                                != tag_addrs(self.players@)[y] by {
                                if y == before.len() {
                                    assert(view_addrs(old(self)@)[x] == tag_addrs(before)[x]);
                                }
                            }
                        }
                    },
                }
            },
            PresenceEvent::Left { address_hash } => {
                let ghost before = self.players@;
                retain_tagged(&mut self.players, Keep::NotAddr(*address_hash));
                proof {
                    lemma_tag_addrs_no_dups(before, keep_test::<RemotePlayer<S>>(Keep::NotAddr(*address_hash)));
                    lemma_keep_view(before, *address_hash);
                }
            },
        }
    }

    /// Give a known player a new display name; others are left alone.
    pub fn update_display_name(&mut self, address_hash: &Addr, name: String)
        requires
            old(self).wf(),
        ensures
            final(self).wf(),
            final(self)@ == replace_at(old(self)@, *address_hash, |r: PlayerView<S>| (r.0, name@, r.2, r.3)),
    {
        let ghost namev = name@;
        match self.find(address_hash) {
            Some(i) => {
                proof {
                    self.lemma_only_at(i as int, *address_hash);
                }
                let ghost before = self.players@;
                self.players[i].display_name = name;
                proof {
                    assert(tag_addrs(self.players@) =~= tag_addrs(before));
                }
            },
            None => {
                proof {
                    assert forall|j: int| 0 <= j < self@.len() implies #[trigger] self@[j].0 != *address_hash by {
                        assert(view_addrs(self@)[j] == self@[j].0);
                    }
                }
            },
        }
        proof {
            assert(self@ =~= replace_at(old(self)@, *address_hash, |r: PlayerView<S>| (r.0, namev, r.2, r.3)));
        }
    }

    /// A known player was heard from at `now`; others are left alone.
    pub fn refresh_liveness(&mut self, address_hash: &Addr, now: u64)
        requires
            old(self).wf(),
        ensures
            final(self).wf(),
            final(self)@ == replace_at(old(self)@, *address_hash, |r: PlayerView<S>| (r.0, r.1, r.2, now)),
    {
        match self.find(address_hash) {
            Some(i) => {
                proof {
                    self.lemma_only_at(i as int, *address_hash);
                }
                let ghost before = self.players@;
                self.players[i].last_update = now;
                proof {
                    assert(tag_addrs(self.players@) =~= tag_addrs(before));
                }
            },
            None => {
                proof {
                    assert forall|j: int| 0 <= j < self@.len() implies #[trigger] self@[j].0 != *address_hash by {
                        assert(view_addrs(self@)[j] == self@[j].0);
                    }
                }
            },
        }
        proof {
            assert(self@ =~= replace_at(old(self)@, *address_hash, |r: PlayerView<S>| (r.0, r.1, r.2, now)));
        }
    }

    /// A known player sent a new state at `now`; updates for unknown
    /// players are ignored.
    pub fn update_state(&mut self, address_hash: &Addr, state: S, now: u64)
        requires
            old(self).wf(),
        ensures
            final(self).wf(),
            final(self)@ == replace_at(old(self)@, *address_hash, |r: PlayerView<S>| (r.0, r.1, Some(state), now)),
    {
        let ghost st = state;
        match self.find(address_hash) {
            Some(i) => {
                proof {
                    self.lemma_only_at(i as int, *address_hash);
                }
                let ghost before = self.players@;
                self.players[i].state = Some(state);
                self.players[i].last_update = now;
                proof {
                    assert(tag_addrs(self.players@) =~= tag_addrs(before));
                }
            },
            None => {
                proof {
                    assert forall|j: int| 0 <= j < self@.len() implies #[trigger] self@[j].0 != *address_hash by {
                        assert(view_addrs(self@)[j] == self@[j].0);
                    }
                }
            },
        }
        proof {
            assert(self@ =~= replace_at(old(self)@, *address_hash, |r: PlayerView<S>| (r.0, r.1, Some(st), now)));
        }
    }

    /// Drop the players not heard from for the timeout or longer.
    pub fn purge_stale(&mut self, now: u64)
        requires
            old(self).wf(),
        ensures
            final(self).wf(),
            final(self)@ == old(self)@.filter(|r: PlayerView<S>| is_fresh(now, r.3)),
    {
        let ghost before = self.players@;
        let k = Keep::Fresh { now, limit: STALE_TIMEOUT_MS - 1 };
        retain_tagged(&mut self.players, k);
        proof {
            lemma_tag_addrs_no_dups(before, keep_test::<RemotePlayer<S>>(k));
            lemma_fresh_view(before, now);
        }
    }

    /// Drop every player.
    pub fn clear(&mut self)
        ensures
            final(self).wf(),
            final(self)@ == Seq::<PlayerView<S>>::empty(),
    {
        self.players = Vec::new();
        proof {
            assert(self@ =~= Seq::<PlayerView<S>>::empty());
            assert(tag_addrs(self.players@) =~= Seq::<Addr>::empty());
        }
    }

    /// How many players are tracked.
    pub fn count(&self) -> (n: usize)
        ensures
            n == self@.len(),
    {
        self.players.len()
    }
}

/// A remote player as shown: its address in hex, its name and its last
/// state.
pub struct RemoteFrame<S> {
    pub address_hash: String,
    pub display_name: String,
    pub state: Option<S>,
}

impl<S> Keyed for RemoteFrame<S> {
    open spec fn key(&self) -> Seq<char> {
        self.address_hash@
    }

    fn key_str(&self) -> (r: &str) {
        self.address_hash.as_str()
    }
}

/// Whether frame `f` shows one of the records `pv`.
pub open spec fn shows_some<S>(pv: Seq<PlayerView<S>>, f: RemoteFrame<S>) -> bool {
    exists|i: int| 0 <= i < pv.len() && frame_view(f) == frame_of(#[trigger] pv[i])
}

/// Whether one of the frames `rs` shows record `r`.
pub open spec fn shown<S>(rs: Seq<RemoteFrame<S>>, r: PlayerView<S>) -> bool {
    exists|j: int| 0 <= j < rs.len() && frame_view(#[trigger] rs[j]) == frame_of(r)
}

/// How a record is shown.
pub open spec fn frame_of<S>(r: PlayerView<S>) -> (Seq<char>, Seq<char>, Option<S>) {
    (hex_chars(r.0@), r.1, r.2)
}

/// A shown player as a mathematical value.
pub open spec fn frame_view<S>(f: RemoteFrame<S>) -> (Seq<char>, Seq<char>, Option<S>) {
    (f.address_hash@, f.display_name@, f.state)
}

impl<S: Copy> RemotePlayerRegistry<S> {
    /// One frame per tracked player, ordered by hex address so that the
    /// order does not depend on how the players were stored.
    pub fn frames(&self) -> (r: Vec<RemoteFrame<S>>)
        ensures
            sorted_by_key(r@),
            r@.len() == self@.len(),
            forall|j: int| 0 <= j < r@.len() ==> #[trigger] shows_some(self@, r@[j]),
            forall|i: int| 0 <= i < self@.len() ==> #[trigger] shown(r@, self@[i]),
    {
        let n = self.players.len();
        let mut v: Vec<RemoteFrame<S>> = Vec::new();
        let mut i: usize = 0;
        while i < n
            invariant
                n == self.players@.len(),
                0 <= i <= n,
                v@.len() == i,
                forall|k: int| 0 <= k < i ==> #[trigger] frame_view(v@[k]) == frame_of(self@[k]),
            decreases n - i,
        {
            let p = &self.players[i];
            let f = RemoteFrame { address_hash: addr_to_hex(&p.address_hash), display_name: p.display_name.clone(), state: p.state };
            v.push(f);
            i = i + 1;
        }
        let ghost vs = v@;
        let r = sort_by_key(v);
        proof {
            lemma_same_frames(vs, r@, self@);
        }
        r
    }
}

/// Frames with the same multiset as frames made position by position from
/// `pv` show exactly the records of `pv`.
proof fn lemma_same_frames<S>(vs: Seq<RemoteFrame<S>>, rs: Seq<RemoteFrame<S>>, pv: Seq<PlayerView<S>>)
    requires
        rs.to_multiset() == vs.to_multiset(),
        vs.len() == pv.len(),
        forall|k: int| 0 <= k < vs.len() ==> #[trigger] frame_view(vs[k]) == frame_of(pv[k]),
    ensures
        rs.len() == pv.len(),
        forall|j: int| 0 <= j < rs.len() ==> #[trigger] shows_some(pv, rs[j]),
        forall|i: int| 0 <= i < pv.len() ==> #[trigger] shown(rs, pv[i]),
{
    broadcast use vstd::seq_lib::group_to_multiset_ensures;

    vstd::seq_lib::to_multiset_len(rs);
    vstd::seq_lib::to_multiset_len(vs);
    assert forall|j: int| 0 <= j < rs.len() implies #[trigger] shows_some(pv, rs[j]) by {
        assert(rs.contains(rs[j]));
        assert(rs.to_multiset().count(rs[j]) > 0);
        assert(vs.contains(rs[j]));
        let k = choose|k: int| 0 <= k < vs.len() && vs[k] == rs[j];
        assert(frame_view(vs[k]) == frame_of(pv[k]));
    }
    assert forall|i: int| 0 <= i < pv.len() implies #[trigger] shown(rs, pv[i]) by {
        assert(frame_view(vs[i]) == frame_of(pv[i]));
        assert(vs.contains(vs[i]));
        assert(vs.to_multiset().count(vs[i]) > 0);
        assert(rs.contains(vs[i]));
        let j = choose|j: int| 0 <= j < rs.len() && rs[j] == vs[i];
        assert(frame_view(rs[j]) == frame_of(pv[i]));
    }
}

/// Dropping the records of one address, seen through the view.
proof fn lemma_keep_view<S>(s: Seq<RemotePlayer<S>>, a: Addr)
    ensures
        keep_where(s, keep_test::<RemotePlayer<S>>(Keep::NotAddr(a))).map_values(|p: RemotePlayer<S>| player_view(p))
            == s.map_values(|p: RemotePlayer<S>| player_view(p)).filter(|r: PlayerView<S>| r.0 != a),
    decreases s.len(),
{
    reveal(Seq::filter);
    if s.len() > 0 {
        lemma_keep_view(s.drop_last(), a);
        assert(s.map_values(|p: RemotePlayer<S>| player_view(p)).drop_last() =~= s.drop_last().map_values(
            |p: RemotePlayer<S>| player_view(p),
        ));
        let k = keep_where(s.drop_last(), keep_test::<RemotePlayer<S>>(Keep::NotAddr(a)));
        assert(k.push(s.last()).map_values(|p: RemotePlayer<S>| player_view(p)) =~= k.map_values(
            |p: RemotePlayer<S>| player_view(p),
        ).push(player_view(s.last())));
    } else {
        assert(s.map_values(|p: RemotePlayer<S>| player_view(p)) =~= Seq::<PlayerView<S>>::empty());
    }
}

/// Dropping stale records, seen through the view.
proof fn lemma_fresh_view<S>(s: Seq<RemotePlayer<S>>, now: u64)
    ensures
        keep_where(s, keep_test::<RemotePlayer<S>>(Keep::Fresh { now, limit: (STALE_TIMEOUT_MS - 1) as u64 })).map_values(
            |p: RemotePlayer<S>| player_view(p),
        ) == s.map_values(|p: RemotePlayer<S>| player_view(p)).filter(|r: PlayerView<S>| is_fresh(now, r.3)),
    decreases s.len(),
{
    reveal(Seq::filter);
    if s.len() > 0 {
        lemma_fresh_view(s.drop_last(), now);
        assert(s.map_values(|p: RemotePlayer<S>| player_view(p)).drop_last() =~= s.drop_last().map_values(
            |p: RemotePlayer<S>| player_view(p),
        ));
        let k = keep_where(
            s.drop_last(),
            keep_test::<RemotePlayer<S>>(Keep::Fresh { now, limit: (STALE_TIMEOUT_MS - 1) as u64 }),
        );
        assert(k.push(s.last()).map_values(|p: RemotePlayer<S>| player_view(p)) =~= k.map_values(
            |p: RemotePlayer<S>| player_view(p),
        ).push(player_view(s.last())));
    } else {
        assert(s.map_values(|p: RemotePlayer<S>| player_view(p)) =~= Seq::<PlayerView<S>>::empty());
    }
}

} // verus!
