use vstd::prelude::*;

use crate::item::types::{ItemDefs, ItemStack};
use crate::strmap::str_eq;

verus! {

/// What one slot holds: an item id and a count, or nothing.
pub type SlotView = Option<(Seq<char>, u32)>;

/// How many of `id` one slot holds.
pub open spec fn slot_count(o: SlotView, id: Seq<char>) -> nat {
    match o {
        Some(st) => if st.0 == id {
            st.1 as nat
        } else {
            0
        },
        None => 0,
    }
}

/// How many of `id` all slots hold together.
pub open spec fn total(s: Seq<SlotView>, id: Seq<char>) -> nat
    decreases s.len(),
{
    if s.len() == 0 {
        0
    } else {
        total(s.drop_last(), id) + slot_count(s.last(), id)
    }
}

/// Top up the stacks of `id` from slot `i` on, in slot order, with `rem` items;
/// returns the slots and what is left over.
pub open spec fn fill_stacks(s: Seq<SlotView>, i: int, id: Seq<char>, rem: nat, limit: nat) -> (
    Seq<SlotView>,
    nat,
)
    decreases s.len() - i,
{
    if i < 0 || i >= s.len() || rem == 0 {
        (s, rem)
    } else if s[i] is Some && (s[i]->0).0 == id && (s[i]->0).1 < limit {
        let c = (s[i]->0).1;
        let space = (limit - c) as nat;
        let put = if space < rem {
            space
        } else {
            rem
        };
        fill_stacks(s.update(i, Some((id, (c + put) as u32))), i + 1, id, (rem - put) as nat, limit)
    } else {
        fill_stacks(s, i + 1, id, rem, limit)
    }
}

/// Put `rem` items of `id` into the empty slots from slot `i` on, in slot
/// order, at most `limit` per slot; returns the slots and what is left over.
pub open spec fn fill_empty(s: Seq<SlotView>, i: int, id: Seq<char>, rem: nat, limit: nat) -> (
    Seq<SlotView>,
    nat,
)
    decreases s.len() - i,
{
    if i < 0 || i >= s.len() || rem == 0 {
        (s, rem)
    } else if s[i] is None {
        let put = if limit < rem {
            limit
        } else {
            rem
        };
        fill_empty(s.update(i, Some((id, put as u32))), i + 1, id, (rem - put) as nat, limit)
    } else {
        fill_empty(s, i + 1, id, rem, limit)
    }
}

/// Adding `count` items of `id` that stack `limit` high: existing stacks are
/// topped up first, then empty slots are used; returns the slots and the
/// overflow that did not fit.
pub open spec fn spec_add(s: Seq<SlotView>, id: Seq<char>, count: nat, limit: nat) -> (
    Seq<SlotView>,
    nat,
) {
    if limit == 0 {
        (s, count)
    } else {
        let p = fill_stacks(s, 0, id, count, limit);
        fill_empty(p.0, 0, id, p.1, limit)
    }
}

/// Taking up to `rem` items of `id` from slot `i` on, in slot order; a slot
/// that runs empty is cleared. Returns the slots and what could not be taken.
pub open spec fn take_stacks(s: Seq<SlotView>, i: int, id: Seq<char>, rem: nat) -> (
    Seq<SlotView>,
    nat,
)
    decreases s.len() - i,
{
    if i < 0 || i >= s.len() || rem == 0 {
        (s, rem)
    } else if s[i] is Some && (s[i]->0).0 == id {
        let c = (s[i]->0).1;
        let take = if (c as nat) < rem {
            c as nat
        } else {
            rem
        };
        let left = (c - take) as nat;
        let o: SlotView = if left == 0 {
            None
        } else {
            Some((id, left as u32))
        };
        take_stacks(s.update(i, o), i + 1, id, (rem - take) as nat)
    } else {
        take_stacks(s, i + 1, id, rem)
    }
}

/// Removing up to `count` items of `id`: returns the slots and how many were
/// removed.
pub open spec fn spec_remove(s: Seq<SlotView>, id: Seq<char>, count: nat) -> (
    Seq<SlotView>,
    nat,
) {
    let p = take_stacks(s, 0, id, count);
    (p.0, (count - p.1) as nat)
}

/// What `count_item` reports: the total, saturated at `u32::MAX`.
pub open spec fn counted(s: Seq<SlotView>, id: Seq<char>) -> nat {
    let t = total(s, id);
    if t > u32::MAX {
        u32::MAX as nat
    } else {
        t
    }
}

/// Topping up stacks never leaves more over than it started with.
pub proof fn lemma_fill_stacks_rem(s: Seq<SlotView>, i: int, id: Seq<char>, rem: nat, limit: nat)
    ensures
        fill_stacks(s, i, id, rem, limit).1 <= rem,
        fill_stacks(s, i, id, rem, limit).0.len() == s.len(),
    decreases s.len() - i,
{
    if i < 0 || i >= s.len() || rem == 0 {
    } else if s[i] is Some && (s[i]->0).0 == id && (s[i]->0).1 < limit {
        let c = (s[i]->0).1;
        let space = (limit - c) as nat;
        let put = if space < rem {
            space
        } else {
            rem
        };
        lemma_fill_stacks_rem(
            s.update(i, Some((id, (c + put) as u32))),
            i + 1,
            id,
            (rem - put) as nat,
            limit,
        );
    } else {
        lemma_fill_stacks_rem(s, i + 1, id, rem, limit);
    }
}

/// Filling empty slots never leaves more over than it started with.
pub proof fn lemma_fill_empty_rem(s: Seq<SlotView>, i: int, id: Seq<char>, rem: nat, limit: nat)
    ensures
        fill_empty(s, i, id, rem, limit).1 <= rem,
        fill_empty(s, i, id, rem, limit).0.len() == s.len(),
    decreases s.len() - i,
{
    if i < 0 || i >= s.len() || rem == 0 {
    } else if s[i] is None {
        let put = if limit < rem {
            limit
        } else {
            rem
        };
        lemma_fill_empty_rem(s.update(i, Some((id, put as u32))), i + 1, id, (rem - put) as nat, limit);
    } else {
        lemma_fill_empty_rem(s, i + 1, id, rem, limit);
    }
}

/// The overflow of an add is at most what was added, and the slot count stays.
pub proof fn lemma_add_overflow(s: Seq<SlotView>, id: Seq<char>, count: nat, limit: nat)
    ensures
        spec_add(s, id, count, limit).1 <= count,
        spec_add(s, id, count, limit).0.len() == s.len(),
{
    if limit != 0 {
        lemma_fill_stacks_rem(s, 0, id, count, limit);
        let p = fill_stacks(s, 0, id, count, limit);
        lemma_fill_empty_rem(p.0, 0, id, p.1, limit);
    }
}

/// Replacing one slot changes the total by what the slot held and holds.
pub proof fn lemma_total_update(s: Seq<SlotView>, i: int, o: SlotView, id: Seq<char>)
    requires
        0 <= i < s.len(),
    ensures
        total(s.update(i, o), id) + slot_count(s[i], id) == total(s, id) + slot_count(o, id),
    decreases s.len(),
{
    if i == s.len() - 1 {
        assert(s.update(i, o).drop_last() =~= s.drop_last());
    } else {
        assert(s.update(i, o).drop_last() =~= s.drop_last().update(i, o));
        lemma_total_update(s.drop_last(), i, o, id);
    }
}

/// The total of the first `i + 1` slots.
pub proof fn lemma_total_take(s: Seq<SlotView>, i: int, id: Seq<char>)
    requires
        0 <= i < s.len(),
    ensures
        total(s.take(i + 1), id) == total(s.take(i), id) + slot_count(s[i], id),
{
    assert(s.take(i + 1).drop_last() =~= s.take(i));
}

/// Topping up stacks of `id` moves items from what is left to the slots,
/// and leaves every other item where it was.
pub proof fn lemma_fill_stacks_total(s: Seq<SlotView>, i: int, id: Seq<char>, rem: nat, limit: nat, other: Seq<char>)
    requires
        limit <= u32::MAX,
    ensures
        total(fill_stacks(s, i, id, rem, limit).0, id) + fill_stacks(s, i, id, rem, limit).1 == total(s, id) + rem,
        other != id ==> total(fill_stacks(s, i, id, rem, limit).0, other) == total(s, other),
    decreases s.len() - i,
{
    if i < 0 || i >= s.len() || rem == 0 {
    } else if s[i] is Some && (s[i]->0).0 == id && (s[i]->0).1 < limit {
        let c = (s[i]->0).1;
        let space = (limit - c) as nat;
        let put = if space < rem {
            space
        } else {
            rem
        };
        let o: SlotView = Some((id, (c + put) as u32));
        lemma_total_update(s, i, o, id);
        lemma_total_update(s, i, o, other);
        lemma_fill_stacks_total(s.update(i, o), i + 1, id, (rem - put) as nat, limit, other);
    } else {
        lemma_fill_stacks_total(s, i + 1, id, rem, limit, other);
    }
}

/// Filling empty slots with `id` moves items from what is left to the
/// slots, and leaves every other item where it was.
pub proof fn lemma_fill_empty_total(s: Seq<SlotView>, i: int, id: Seq<char>, rem: nat, limit: nat, other: Seq<char>)
    requires
        limit <= u32::MAX,
    ensures
        total(fill_empty(s, i, id, rem, limit).0, id) + fill_empty(s, i, id, rem, limit).1 == total(s, id) + rem,
        other != id ==> total(fill_empty(s, i, id, rem, limit).0, other) == total(s, other),
    decreases s.len() - i,
{
    if i < 0 || i >= s.len() || rem == 0 {
    } else if s[i] is None {
        let put = if limit < rem {
            limit
        } else {
            rem
        };
        let o: SlotView = Some((id, put as u32));
        lemma_total_update(s, i, o, id);
        lemma_total_update(s, i, o, other);
        lemma_fill_empty_total(s.update(i, o), i + 1, id, (rem - put) as nat, limit, other);
    } else {
        lemma_fill_empty_total(s, i + 1, id, rem, limit, other);
    }
}

/// Adding items loses and makes none: what the inventory holds of the item
/// grows by exactly what was added less the overflow, and every other
/// item's total stays as it was.
pub proof fn lemma_add_conserves(s: Seq<SlotView>, id: Seq<char>, count: nat, limit: u32, other: Seq<char>)
    ensures
        total(spec_add(s, id, count, limit as nat).0, id) + spec_add(s, id, count, limit as nat).1 == total(s, id) + count,
        other != id ==> total(spec_add(s, id, count, limit as nat).0, other) == total(s, other),
{
    if limit != 0 {
        lemma_fill_stacks_total(s, 0, id, count, limit as nat, other);
        let p = fill_stacks(s, 0, id, count, limit as nat);
        lemma_fill_empty_total(p.0, 0, id, p.1, limit as nat, other);
    }
}

/// Taking stacks of `id` from slot `i` on: the slots lose exactly what was
/// taken, every other item stays, and where something is left to take,
/// no `id` is left from slot `i` on.
pub proof fn lemma_take_stacks_total(s: Seq<SlotView>, i: int, id: Seq<char>, rem: nat, other: Seq<char>)
    requires
        0 <= i <= s.len(),
    ensures
        take_stacks(s, i, id, rem).1 <= rem,
        total(take_stacks(s, i, id, rem).0, id) + (rem - take_stacks(s, i, id, rem).1) == total(s, id),
        other != id ==> total(take_stacks(s, i, id, rem).0, other) == total(s, other),
        take_stacks(s, i, id, rem).1 == 0 || total(take_stacks(s, i, id, rem).0, id) == total(s.take(i), id),
    decreases s.len() - i,
{
    if i >= s.len() || rem == 0 {
        assert(s.take(s.len() as int) =~= s);
    } else if s[i] is Some && (s[i]->0).0 == id {
        let c = (s[i]->0).1;
        let take = if (c as nat) < rem {
            c as nat
        } else {
            rem
        };
        let left = (c - take) as nat;
        let o: SlotView = if left == 0 {
            None
        } else {
            Some((id, left as u32))
        };
        let s2 = s.update(i, o);
        lemma_total_update(s, i, o, id);
        lemma_total_update(s, i, o, other);
        lemma_take_stacks_total(s2, i + 1, id, (rem - take) as nat, other);
        lemma_total_take(s2, i, id);
        assert(s2.take(i) =~= s.take(i));
    } else {
        lemma_take_stacks_total(s, i + 1, id, rem, other);
        lemma_total_take(s, i, id);
    }
}

/// Removing items loses and makes none: exactly the smaller of the asked
/// count and what the inventory holds is removed, the item's total drops by
/// that much, and every other item's total stays as it was.
pub proof fn lemma_remove_conserves(s: Seq<SlotView>, id: Seq<char>, count: nat, other: Seq<char>)
    ensures
        spec_remove(s, id, count).1 == if count < total(s, id) {
            count
        } else {
            total(s, id)
        },
        total(spec_remove(s, id, count).0, id) + spec_remove(s, id, count).1 == total(s, id),
        other != id ==> total(spec_remove(s, id, count).0, other) == total(s, other),
{
    lemma_take_stacks_total(s, 0, id, count, other);
    assert(s.take(0) =~= Seq::<SlotView>::empty());
}

/// The view of one slot.
pub open spec fn slot_view(o: Option<ItemStack>) -> SlotView {
    match o {
        Some(st) => Some(st@),
        None => None,
    }
}

/// A fixed number of slots, each empty or holding one stack.
pub struct Inventory {
    pub slots: Vec<Option<ItemStack>>,
}

impl View for Inventory {
    type V = Seq<SlotView>;

    open spec fn view(&self) -> Seq<SlotView> {
        self.slots@.map_values(|o: Option<ItemStack>| slot_view(o))
    }
}

impl Inventory {
    /// An inventory of `capacity` empty slots.
    pub fn new(capacity: usize) -> (inv: Self)
        ensures
            inv@ == Seq::<SlotView>::new(capacity as nat, |i: int| None),
    {
        let mut slots: Vec<Option<ItemStack>> = Vec::new();
        let mut i: usize = 0;
        while i < capacity
            invariant
                0 <= i <= capacity,
                slots@.len() == i,
                forall|j: int| 0 <= j < i ==> slots@[j] is None,
            decreases capacity - i,
        {
            slots.push(None);
            i = i + 1;
        }
        let inv = Inventory { slots };
        assert(inv@ =~= Seq::<SlotView>::new(capacity as nat, |i: int| None));
        inv
    }

    /// How many of `item_id` the inventory holds, saturated at `u32::MAX`.
    pub fn count_item(&self, item_id: &str) -> (n: u32)
        ensures
            n == counted(self@, item_id@),
    {
        let n = self.slots.len();
        let mut acc: u64 = 0;
        let mut i: usize = 0;
        while i < n
            invariant
                n == self.slots@.len(),
                0 <= i <= n,
                acc == counted(self@.take(i as int), item_id@),
            decreases n - i,
        {
            let c: u32 = match &self.slots[i] {
                Some(st) => if str_eq(st.item_id.as_str(), item_id) {
                    st.count
                } else {
                    0
                },
                None => 0,
            };
            proof {
                let s = self@.take(i + 1);
                assert(s.drop_last() =~= self@.take(i as int));
                assert(s.last() == self@[i as int]);
                assert(c == slot_count(s.last(), item_id@));
            }
            let sum: u64 = acc + c as u64;
            acc = if sum > 0xffff_ffffu64 {
                0xffff_ffffu64
            } else {
                sum
            };
            i = i + 1;
        }
        assert(self@.take(n as int) =~= self@);
        acc as u32
    }

    /// Put one slot.
    fn put_slot(&mut self, i: usize, o: Option<ItemStack>)
        requires
            i < old(self).slots@.len(),
        ensures
            final(self)@ == old(self)@.update(i as int, slot_view(o)),
            final(self).slots@.len() == old(self).slots@.len(),
    {
        self.slots.set(i, o);
        assert(self@ =~= old(self)@.update(i as int, slot_view(o)));
    }

    /// Add `count` of `item_id`, stacking up to the item's stack limit:
    /// existing stacks first, then empty slots. Returns the overflow that did
    /// not fit. An item without a definition is not added at all.
    pub fn add(&mut self, item_id: &str, count: u32, defs: &ItemDefs) -> (overflow: u32)
        requires
            defs.wf(),
        ensures
            match defs@.get(item_id@) {
                Some(def) => (final(self)@, overflow as nat) == spec_add(
                    old(self)@,
                    item_id@,
                    count as nat,
                    def.stack_limit as nat,
                ),
                None => final(self)@ == old(self)@ && overflow == count,
            },
    {
        let limit: u32 = match defs.get(item_id) {
            Some(def) => def.stack_limit,
            None => {
                return count;
            },
        };
        if limit == 0 {
            return count;
        }
        let ghost s0 = self@;
        let ghost idv = item_id@;
        let n = self.slots.len();
        let mut rem: u32 = count;
        let mut i: usize = 0;
        while i < n && rem > 0
            invariant
                n == self.slots@.len(),
                0 <= i <= n,
                limit > 0,
                idv == item_id@,
                fill_stacks(self@, i as int, idv, rem as nat, limit as nat) == fill_stacks(
                    s0,
                    0,
                    idv,
                    count as nat,
                    limit as nat,
                ),
            decreases n - i,
        {
            let mut put: u32 = 0;
            let mut newc: u32 = 0;
            let mut sid = String::new();
            match &self.slots[i] {
                Some(st) => {
                    if str_eq(st.item_id.as_str(), item_id) && st.count < limit {
                        let space = limit - st.count;
                        put = if space < rem {
                            space
                        } else {
                            rem
                        };
                        newc = st.count + put;
                        sid = st.item_id.clone();
                    }
                },
                None => {},
            }
            if put > 0 {
                self.put_slot(i, Some(ItemStack { item_id: sid, count: newc }));
                rem = rem - put;
            }
            i = i + 1;
        }
        let ghost s1 = self@;
        assert(fill_stacks(s0, 0, idv, count as nat, limit as nat) == (s1, rem as nat));
        let mut i: usize = 0;
        let rem1 = rem;
        while i < n && rem > 0
            invariant
                n == self.slots@.len(),
                0 <= i <= n,
                limit > 0,
                idv == item_id@,
                fill_empty(self@, i as int, idv, rem as nat, limit as nat) == fill_empty(
                    s1,
                    0,
                    idv,
                    rem1 as nat,
                    limit as nat,
                ),
            decreases n - i,
        {
            if self.slots[i].is_none() {
                let put = if limit < rem {
                    limit
                } else {
                    rem
                };
                self.put_slot(i, Some(ItemStack { item_id: item_id.to_owned(), count: put }));
                rem = rem - put;
            }
            i = i + 1;
        }
        rem
    }

    /// Remove up to `count` of `item_id`, from the first slots on; a stack that
    /// runs empty frees its slot. Returns how many were removed.
    pub fn remove_item(&mut self, item_id: &str, count: u32) -> (removed: u32)
        ensures
            (final(self)@, removed as nat) == spec_remove(old(self)@, item_id@, count as nat),
    {
        let ghost s0 = self@;
        let ghost idv = item_id@;
        let n = self.slots.len();
        let mut rem: u32 = count;
        let mut i: usize = 0;
        while i < n && rem > 0
            invariant
                n == self.slots@.len(),
                0 <= i <= n,
                rem <= count,
                idv == item_id@,
                take_stacks(self@, i as int, idv, rem as nat) == take_stacks(
                    s0,
                    0,
                    idv,
                    count as nat,
                ),
            decreases n - i,
        {
            let mut hit = false;
            let mut c: u32 = 0;
            let mut sid = String::new();
            match &self.slots[i] {
                Some(st) => {
                    if str_eq(st.item_id.as_str(), item_id) {
                        hit = true;
                        c = st.count;
                        sid = st.item_id.clone();
                    }
                },
                None => {},
            }
            if hit {
                let take = if c < rem {
                    c
                } else {
                    rem
                };
                let left = c - take;
                if left == 0 {
                    self.put_slot(i, None);
                } else {
                    self.put_slot(i, Some(ItemStack { item_id: sid, count: left }));
                }
                rem = rem - take;
            }
            i = i + 1;
        }
        count - rem
    }
}

} // verus!
