use vstd::prelude::*;

use crate::quest::types::{QuestDef, QuestDefs};

verus! {

/// `after` is `before` with each quest's id set to the key it is filed under.
pub open spec fn ids_from_keys(before: Seq<(String, QuestDef)>, after: Seq<(String, QuestDef)>) -> bool {
    &&& after.len() == before.len()
    &&& forall|i: int|
        0 <= i < before.len() ==> {
            let (k, d) = #[trigger] after[i];
            &&& k == before[i].0
            &&& d.id@ == k@
            &&& d.name == before[i].1.name
            &&& d.description == before[i].1.description
            &&& d.objectives == before[i].1.objectives
            &&& d.rewards == before[i].1.rewards
            &&& d.turn_in_npc == before[i].1.turn_in_npc
        }
}

/// Set each quest's id from the key it is filed under, as quest files leave
/// the id to the key.
pub fn assign_quest_ids(defs: &mut QuestDefs)
    ensures
        ids_from_keys(old(defs).entries@, final(defs).entries@),
        old(defs).wf() ==> final(defs).wf(),
{
    let ghost before = defs.entries@;
    let n = defs.entries.len();
    let mut i: usize = 0;
    while i < n
        invariant
            n == before.len(),
            defs.entries@.len() == n,
            0 <= i <= n,
            forall|j: int| i <= j < n ==> #[trigger] defs.entries@[j] == before[j],
            forall|j: int|
                0 <= j < i ==> {
                    let (k, d) = #[trigger] defs.entries@[j];
                    &&& k == before[j].0
                    &&& d.id@ == k@
                    &&& d.name == before[j].1.name
                    &&& d.description == before[j].1.description
                    &&& d.objectives == before[j].1.objectives
                    &&& d.rewards == before[j].1.rewards
                    &&& d.turn_in_npc == before[j].1.turn_in_npc
                },
        decreases n - i,
    {
        let k = defs.entries[i].0.clone();
        defs.entries[i].1.id = k;
        i = i + 1;
    }
    proof {
        assert forall|a: int, b: int| 0 <= a < b < n implies #[trigger] defs.entries@[a].0@ == before[a].0@
            && #[trigger] defs.entries@[b].0@ == before[b].0@ by {}
    }
}

} // verus!
