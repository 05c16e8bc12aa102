use vstd::prelude::*;

use crate::quest::tracker::progress_at;
use crate::quest::types::{
    objective_description, objective_target, ActiveQuest, ObjectiveEntry, QuestCompletedEntry,
    QuestDef, QuestDefs, QuestEntry, QuestLogFrame, QuestProgress,
};
use crate::seqs::keep_where;
use crate::sorting::{sort_by_key, sorted_by_key, Keyed};
use crate::text::owned;

verus! {

impl Keyed for QuestEntry {
    open spec fn key(&self) -> Seq<char> {
        self.name@
    }

    fn key_str(&self) -> (r: &str) {
        self.name.as_str()
    }
}

/// `o` shows objective `obj` with `current` progress recorded.
pub open spec fn shows_objective(o: ObjectiveEntry, obj: crate::quest::types::QuestObjective, current: u32) -> bool {
    &&& o.description@ == objective_description(obj)
    &&& o.current == current
    &&& o.target == objective_target(obj)
    &&& o.complete == (current >= objective_target(obj))
}

/// `e` shows the active quest `id` with definition `def` and progress `aq`.
pub open spec fn shows_quest(e: QuestEntry, id: Seq<char>, aq: ActiveQuest, def: QuestDef) -> bool {
    &&& e.quest_id@ == id
    &&& e.name == def.name
    &&& e.description == def.description
    &&& e.objectives@.len() == def.objectives@.len()
    &&& forall|j: int|
        0 <= j < def.objectives@.len() ==> shows_objective(
            #[trigger] e.objectives@[j],
            def.objectives@[j],
            progress_at(aq.objective_progress@, j),
        )
}

/// The test "the quest has a definition".
pub open spec fn defined_active(defs: Map<Seq<char>, QuestDef>) -> spec_fn((String, ActiveQuest)) -> bool {
    |e: (String, ActiveQuest)| defs.contains_key(e.0@)
}

/// The test "the completed quest has a definition".
pub open spec fn defined_id(defs: Map<Seq<char>, QuestDef>) -> spec_fn(String) -> bool {
    |s: String| defs.contains_key(s@)
}

/// `u` shows, in order, each active quest that has a definition.
pub open spec fn shows_active(u: Seq<QuestEntry>, actives: Seq<(String, ActiveQuest)>, defs: Map<Seq<char>, QuestDef>) -> bool {
    let listed = keep_where(actives, defined_active(defs));
    &&& u.len() == listed.len()
    &&& forall|i: int| 0 <= i < listed.len() ==> shows_quest(#[trigger] u[i], listed[i].0@, listed[i].1, defs[listed[i].0@])
}

/// `c` shows, in order, each completed quest that has a definition.
pub open spec fn shows_completed(c: Seq<QuestCompletedEntry>, ids: Seq<String>, defs: Map<Seq<char>, QuestDef>) -> bool {
    let listed = keep_where(ids, defined_id(defs));
    &&& c.len() == listed.len()
    &&& forall|i: int| 0 <= i < listed.len() ==> (#[trigger] c[i]).quest_id@ == listed[i]@ && c[i].name == defs[listed[i]@].name
}

/// The log entry for the active quest `id` with definition `def`.
fn quest_entry(id: &str, aq: &ActiveQuest, def: &QuestDef) -> (e: QuestEntry)
    ensures
        shows_quest(e, id@, *aq, *def),
{
    let n = def.objectives.len();
    let mut objectives: Vec<ObjectiveEntry> = Vec::new();
    let mut j: usize = 0;
    while j < n
        invariant
            n == def.objectives@.len(),
            0 <= j <= n,
            objectives@.len() == j,
            forall|k: int| 0 <= k < j ==> shows_objective(
                #[trigger] objectives@[k],
                def.objectives@[k],
                progress_at(aq.objective_progress@, k),
            ),
        decreases n - j,
    {
        let obj = &def.objectives[j];
        let current = if j < aq.objective_progress.len() {
            aq.objective_progress[j]
        } else {
            0
        };
        let target = obj.target_count();
        objectives.push(
            ObjectiveEntry {
                description: owned(obj.description()),
                current,
                target,
                complete: current >= target,
            },
        );
        j = j + 1;
    }
    QuestEntry {
        quest_id: owned(id),
        name: def.name.clone(),
        description: def.description.clone(),
        objectives,
    }
}

/// The quest log: the active quests that have a definition, ordered by
/// name, each with its objectives and their progress; and the completed
/// quests that have a definition, in the order they were completed.
pub fn quest_log(defs: &QuestDefs, progress: &QuestProgress) -> (f: QuestLogFrame)
    requires
        defs.wf(),
    ensures
        sorted_by_key(f.active@),
        exists|u: Seq<QuestEntry>| #[trigger] shows_active(u, progress.active.seq(), defs@) && f.active@.to_multiset()
            == u.to_multiset(),
        shows_completed(f.completed@, progress.completed@, defs@),
{
    let actives = &progress.active.entries;
    let n = actives.len();
    let mut active: Vec<QuestEntry> = Vec::new();
    let mut i: usize = 0;
    proof {
        assert(actives@.take(0) =~= Seq::<(String, ActiveQuest)>::empty());
    }
    while i < n
        invariant
            n == actives@.len(),
            actives@ == progress.active.seq(),
            defs.wf(),
            0 <= i <= n,
            shows_active(active@, actives@.take(i as int), defs@),
        decreases n - i,
    {
        proof {
            assert(actives@.take(i + 1).drop_last() =~= actives@.take(i as int));
            assert(actives@.take(i + 1).last() == actives@[i as int]);
        }
        let id = actives[i].0.as_str();
        match defs.get(id) {
            Some(def) => {
                let e = quest_entry(id, &actives[i].1, def);
                active.push(e);
            },
            None => {},
        }
        i = i + 1;
    }
    proof {
        assert(actives@.take(n as int) =~= actives@);
    }
    let ghost u = active@;
    let sorted = sort_by_key(active);
    let ids = &progress.completed;
    let m = ids.len();
    let mut completed: Vec<QuestCompletedEntry> = Vec::new();
    let mut k: usize = 0;
    proof {
        assert(ids@.take(0) =~= Seq::<String>::empty());
    }
    while k < m
        invariant
            m == ids@.len(),
            defs.wf(),
            0 <= k <= m,
            shows_completed(completed@, ids@.take(k as int), defs@),
        decreases m - k,
    {
        proof {
            assert(ids@.take(k + 1).drop_last() =~= ids@.take(k as int));
            assert(ids@.take(k + 1).last() == ids@[k as int]);
        }
        match defs.get(ids[k].as_str()) {
            Some(def) => {
                completed.push(QuestCompletedEntry { quest_id: ids[k].clone(), name: def.name.clone() });
            },
            None => {},
        }
        k = k + 1;
    }
    proof {
        assert(ids@.take(m as int) =~= ids@);
        assert(shows_active(u, progress.active.seq(), defs@));
    }
    QuestLogFrame { active: sorted, completed }
}

} // verus!
