use vstd::prelude::*;

use crate::skill::types::{SkillDef, SkillDefs};

verus! {

/// `after` is `before` with each skill's id set to the key it is filed under.
pub open spec fn ids_from_keys(before: Seq<(String, SkillDef)>, after: Seq<(String, SkillDef)>) -> bool {
    &&& after.len() == before.len()
    &&& forall|i: int|
        0 <= i < before.len() ==> {
            let (k, d) = #[trigger] after[i];
            &&& k == before[i].0
            &&& d.id@ == k@
            &&& d.name == before[i].1.name
            &&& d.description == before[i].1.description
            &&& d.prerequisites == before[i].1.prerequisites
            &&& d.imagination_cost == before[i].1.imagination_cost
            &&& d.learn_time_secs == before[i].1.learn_time_secs
            &&& d.unlocks_recipes == before[i].1.unlocks_recipes
        }
}

/// Set each skill's id from the key it is filed under, as skill files leave
/// the id to the key.
pub fn assign_skill_ids(defs: &mut SkillDefs)
    ensures
        ids_from_keys(old(defs).entries@, final(defs).entries@),
        old(defs).wf() ==> final(defs).wf(),
{
    let ghost before = defs.entries@;
    let n = defs.entries.len();
    let mut i: usize = 0;
    while i < n
        invariant
            n == before.len(),
            defs.entries@.len() == n,
            0 <= i <= n,
            forall|j: int| i <= j < n ==> #[trigger] defs.entries@[j] == before[j],
            forall|j: int|
                0 <= j < i ==> {
                    let (k, d) = #[trigger] defs.entries@[j];
                    &&& k == before[j].0
                    &&& d.id@ == k@
                    &&& d.name == before[j].1.name
                    &&& d.description == before[j].1.description
                    &&& d.prerequisites == before[j].1.prerequisites
                    &&& d.imagination_cost == before[j].1.imagination_cost
                    &&& d.learn_time_secs == before[j].1.learn_time_secs
                    &&& d.unlocks_recipes == before[j].1.unlocks_recipes
                },
        decreases n - i,
    {
        let k = defs.entries[i].0.clone();
        defs.entries[i].1.id = k;
        i = i + 1;
    }
    proof {
        assert forall|a: int, b: int| 0 <= a < b < n implies #[trigger] defs.entries@[a].0@ == before[a].0@
            && #[trigger] defs.entries@[b].0@ == before[b].0@ by {}
    }
}

} // verus!
