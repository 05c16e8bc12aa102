use vstd::prelude::*;

use crate::item::inventory::{counted, Inventory, SlotView};
use crate::quest::types::{ActiveQuest, QuestDef, QuestDefs, QuestObjective, QuestProgress};
use crate::skill::types::SkillProgress;
use crate::strmap::{has_key, lemma_map_of, map_of, str_eq, StrMap};
use crate::text::{concat2, has_str, owned, vec_has_str};

verus! {

// ---------------------------------------------------------------------------
// Objective helpers
// ---------------------------------------------------------------------------

/// Whether an objective asks for items held in the inventory.
pub open spec fn is_item_obj(o: QuestObjective) -> bool {
    o is Fetch || o is Deliver
}

/// The item an item objective asks for.
pub open spec fn obj_item(o: QuestObjective) -> Seq<char> {
    match o {
        QuestObjective::Fetch { item_id, .. } => item_id@,
        QuestObjective::Deliver { item_id, .. } => item_id@,
        _ => Seq::empty(),
    }
}

/// How many items an item objective asks for.
pub open spec fn obj_count(o: QuestObjective) -> nat {
    match o {
        QuestObjective::Fetch { count, .. } => count as nat,
        QuestObjective::Deliver { count, .. } => count as nat,
        _ => 0,
    }
}

/// How many of `item` all item objectives of a quest ask for together.
pub open spec fn item_need(objs: Seq<QuestObjective>, item: Seq<char>) -> nat
    decreases objs.len(),
{
    if objs.len() == 0 {
        0
    } else {
        item_need(objs.drop_last(), item) + if is_item_obj(objs.last()) && obj_item(objs.last())
            == item {
            obj_count(objs.last())
        } else {
            0
        }
    }
}

/// Progress recorded for objective `i`, 0 where none is recorded.
pub open spec fn progress_at(p: Seq<u32>, i: int) -> u32 {
    if 0 <= i < p.len() {
        p[i]
    } else {
        0
    }
}

/// Whether a non-item objective is met (item objectives are checked against
/// the inventory instead).
pub open spec fn objective_met(o: QuestObjective, progress: u32, learned: Seq<String>) -> bool {
    match o {
        QuestObjective::Fetch { .. } => true,
        QuestObjective::Deliver { .. } => true,
        QuestObjective::Craft { count, .. } => progress >= count,
        QuestObjective::Visit { .. } => progress >= 1,
        QuestObjective::LearnSkill { skill_id, .. } => has_str(learned, skill_id@),
    }
}

/// A quest is ready for turn-in: it is active and defined, the inventory
/// holds the cumulative amount of every item its objectives ask for, and
/// every other objective is met.
pub open spec fn quest_ready(
    id: Seq<char>,
    active: Map<Seq<char>, (Seq<char>, Seq<u32>)>,
    defs: Map<Seq<char>, QuestDef>,
    inv: Seq<SlotView>,
    learned: Seq<String>,
) -> bool {
    &&& active.contains_key(id)
    &&& defs.contains_key(id)
    &&& forall|i: int|
        0 <= i < defs[id].objectives@.len() && is_item_obj(#[trigger] defs[id].objectives@[i])
            ==> counted(inv, obj_item(defs[id].objectives@[i])) >= item_need(
            defs[id].objectives@,
            obj_item(defs[id].objectives@[i]),
        )
    &&& forall|i: int|
        0 <= i < defs[id].objectives@.len() ==> objective_met(
            #[trigger] defs[id].objectives@[i],
            progress_at(active[id].1, i),
            learned,
        )
}

/// What all item objectives ask for of an item is at least what any one of
/// them asks for.
proof fn lemma_item_need_covers(objs: Seq<QuestObjective>, i: int)
    requires
        0 <= i < objs.len(),
        is_item_obj(objs[i]),
    ensures
        item_need(objs, obj_item(objs[i])) >= obj_count(objs[i]),
    decreases objs.len(),
{
    if i < objs.len() - 1 {
        assert(objs.drop_last()[i] == objs[i]);
        lemma_item_need_covers(objs.drop_last(), i);
    }
}

/// A quest is ready only when every objective is done: a craft objective
/// has recorded at least its count of crafts, a visit has been made, the
/// skill of a skill objective is learned, and the inventory holds at least
/// the count of every fetch or deliver objective.
pub proof fn lemma_ready_means_done(
    id: Seq<char>,
    active: Map<Seq<char>, (Seq<char>, Seq<u32>)>,
    defs: Map<Seq<char>, QuestDef>,
    inv: Seq<SlotView>,
    learned: Seq<String>,
    i: int,
)
    requires
        quest_ready(id, active, defs, inv, learned),
        0 <= i < defs[id].objectives@.len(),
    ensures
        active.contains_key(id),
        match defs[id].objectives@[i] {
            QuestObjective::Craft { count, .. } => progress_at(active[id].1, i) >= count,
            QuestObjective::Visit { .. } => progress_at(active[id].1, i) >= 1,
            QuestObjective::LearnSkill { skill_id, .. } => has_str(learned, skill_id@),
            QuestObjective::Fetch { item_id, count, .. } => counted(inv, item_id@) >= count,
            QuestObjective::Deliver { item_id, count, .. } => counted(inv, item_id@) >= count,
        },
{
    let objs = defs[id].objectives@;
    assert(objective_met(objs[i], progress_at(active[id].1, i), learned));
    if is_item_obj(objs[i]) {
        lemma_item_need_covers(objs, i);
    }
}

/// `item_need`, saturated at `u64::MAX`.
fn item_need_of(objs: &Vec<QuestObjective>, item: &str) -> (r: u64)
    ensures
        r == if item_need(objs@, item@) > u64::MAX {
            u64::MAX as nat
        } else {
            item_need(objs@, item@)
        },
{
    let n = objs.len();
    let mut acc: u64 = 0;
    let mut i: usize = 0;
    while i < n
        invariant
            n == objs@.len(),
            0 <= i <= n,
            acc == if item_need(objs@.take(i as int), item@) > u64::MAX {
                u64::MAX as nat
            } else {
                item_need(objs@.take(i as int), item@)
            },
        decreases n - i,
    {
        let c: u32 = match &objs[i] {
            QuestObjective::Fetch { item_id, count, .. } => if str_eq(item_id.as_str(), item) {
                *count
            } else {
                0
            },
            QuestObjective::Deliver { item_id, count, .. } => if str_eq(item_id.as_str(), item) {
                *count
            } else {
                0
            },
            _ => 0,
        };
        proof {
            let t = objs@.take(i + 1);
            assert(t.drop_last() =~= objs@.take(i as int));
            assert(t.last() == objs@[i as int]);
        }
        acc = if acc > u64::MAX - (c as u64) {
            u64::MAX
        } else {
            acc + c as u64
        };
        i = i + 1;
    }
    assert(objs@.take(n as int) =~= objs@);
    acc
}

// ---------------------------------------------------------------------------
// Readiness
// ---------------------------------------------------------------------------

/// Whether all objectives of a quest are met (see `quest_ready`).
pub fn is_quest_ready(
    quest_id: &str,
    quest_progress: &QuestProgress,
    quest_defs: &QuestDefs,
    inventory: &Inventory,
    skill_progress: &SkillProgress,
) -> (b: bool)
    requires
        quest_progress.active.wf(),
        quest_defs.wf(),
    ensures
        b == quest_ready(
            quest_id@,
            crate::quest::types::active_view(quest_progress.active@),
            quest_defs@,
            inventory@,
            skill_progress.learned@,
        ),
{
    let active = match quest_progress.active.get(quest_id) {
        Some(a) => a,
        None => {
            return false;
        },
    };
    let def = match quest_defs.get(quest_id) {
        Some(d) => d,
        None => {
            return false;
        },
    };
    let ghost objs = def.objectives@;
    let n = def.objectives.len();
    let mut i: usize = 0;
    while i < n
        invariant
            n == objs.len(),
            objs == def.objectives@,
            quest_defs@.contains_key(quest_id@),
            *def == quest_defs@[quest_id@],
            0 <= i <= n,
            forall|j: int|
                0 <= j < i && is_item_obj(#[trigger] objs[j]) ==> counted(
                    inventory@,
                    obj_item(objs[j]),
                ) >= item_need(objs, obj_item(objs[j])),
        decreases n - i,
    {
        let item: Option<&String> = match &def.objectives[i] {
            QuestObjective::Fetch { item_id, .. } => Some(item_id),
            QuestObjective::Deliver { item_id, .. } => Some(item_id),
            _ => None,
        };
        match item {
            Some(it) => {
                let need = item_need_of(&def.objectives, it.as_str());
                let have = inventory.count_item(it.as_str());
                if (have as u64) < need {
                    proof {
                        assert(it@ == obj_item(objs[i as int]));
                        assert(quest_defs@[quest_id@].objectives@[i as int] == objs[i as int]);
                        assert(is_item_obj(objs[i as int]));
                    }
                    return false;
                }
            },
            None => {},
        }
        i = i + 1;
    }
    let mut i: usize = 0;
    while i < n
        invariant
            n == objs.len(),
            objs == def.objectives@,
            quest_defs@.contains_key(quest_id@),
            *def == quest_defs@[quest_id@],
            quest_progress.active@.contains_key(quest_id@),
            *active == quest_progress.active@[quest_id@],
            forall|j: int|
                0 <= j < n && is_item_obj(#[trigger] objs[j]) ==> counted(
                    inventory@,
                    obj_item(objs[j]),
                ) >= item_need(objs, obj_item(objs[j])),
            0 <= i <= n,
            forall|j: int|
                0 <= j < i ==> objective_met(
                    #[trigger] objs[j],
                    progress_at(active.objective_progress@, j),
                    skill_progress.learned@,
                ),
        decreases n - i,
    {
        let progress: u32 = if i < active.objective_progress.len() {
            active.objective_progress[i]
        } else {
            0
        };
        let met = match &def.objectives[i] {
            QuestObjective::Fetch { .. } => true,
            QuestObjective::Deliver { .. } => true,
            QuestObjective::Craft { count, .. } => progress >= *count,
            QuestObjective::Visit { .. } => progress >= 1,
            QuestObjective::LearnSkill { skill_id, .. } => vec_has_str(
                &skill_progress.learned,
                skill_id.as_str(),
            ),
        };
        if !met {
            proof {
                assert(progress == progress_at(active.objective_progress@, i as int));
                assert(quest_defs@[quest_id@].objectives@[i as int] == objs[i as int]);
                assert(!objective_met(objs[i as int], progress, skill_progress.learned@));
            }
            return false;
        }
        i = i + 1;
    }
    true
}

// ---------------------------------------------------------------------------
// Starting a quest
// ---------------------------------------------------------------------------

/// `later` is `prior` with quest `id` freshly started: `n` objectives at 0.
pub open spec fn started(
    prior: Map<Seq<char>, ActiveQuest>,
    later: Map<Seq<char>, ActiveQuest>,
    id: Seq<char>,
    n: nat,
) -> bool {
    &&& later.dom() == prior.dom().insert(id)
    &&& forall|k: Seq<char>| #[trigger] prior.contains_key(k) && k != id ==> later[k] == prior[k]
    &&& later[id].quest_id@ == id
    &&& later[id].objective_progress@ == Seq::new(n, |i: int| 0u32)
}

/// Start a quest: it must be defined, not active and not completed; it
/// becomes active with every objective at 0.
pub fn start_quest(quest_id: &str, quest_defs: &QuestDefs, quest_progress: &mut QuestProgress) -> (r:
    Result<(), String>)
    requires
        quest_defs.wf(),
        old(quest_progress).active.wf(),
    ensures
        final(quest_progress).active.wf(),
        !quest_defs@.contains_key(quest_id@) ==> (r matches Err(e) && e@ == "Unknown quest: "@
            + quest_id@),
        quest_defs@.contains_key(quest_id@) && old(quest_progress).active@.contains_key(quest_id@)
            ==> (r matches Err(e) && e@ == "Quest already active: "@ + quest_id@),
        quest_defs@.contains_key(quest_id@) && !old(quest_progress).active@.contains_key(
            quest_id@,
        ) && has_str(old(quest_progress).completed@, quest_id@) ==> (r matches Err(e) && e@
            == "Quest already completed: "@ + quest_id@),
        r is Err ==> *final(quest_progress) == *old(quest_progress),
        r is Ok <==> quest_defs@.contains_key(quest_id@) && !old(
            quest_progress,
        ).active@.contains_key(quest_id@) && !has_str(old(quest_progress).completed@, quest_id@),
        r is Ok ==> final(quest_progress).completed == old(quest_progress).completed && started(
            old(quest_progress).active@,
            final(quest_progress).active@,
            quest_id@,
            quest_defs@[quest_id@].objectives@.len(),
        ),
{
    let def = match quest_defs.get(quest_id) {
        Some(d) => d,
        None => {
            return Err(concat2("Unknown quest: ", quest_id));
        },
    };
    if quest_progress.active.contains_key(quest_id) {
        return Err(concat2("Quest already active: ", quest_id));
    }
    if vec_has_str(&quest_progress.completed, quest_id) {
        return Err(concat2("Quest already completed: ", quest_id));
    }
    let n = def.objectives.len();
    let mut zeros: Vec<u32> = Vec::new();
    let mut i: usize = 0;
    while i < n
        invariant
            0 <= i <= n,
            zeros@ == Seq::new(i as nat, |j: int| 0u32),
        decreases n - i,
    {
        zeros.push(0);
        i = i + 1;
        assert(zeros@ =~= Seq::new(i as nat, |j: int| 0u32));
    }
    let ghost old_active = quest_progress.active@;
    quest_progress.active.insert(
        owned(quest_id),
        ActiveQuest { quest_id: owned(quest_id), objective_progress: zeros },
    );
    assert(quest_progress.active@.dom() =~= old_active.dom().insert(quest_id@));
    Ok(())
}

// ---------------------------------------------------------------------------
// Ticking progress
// ---------------------------------------------------------------------------

/// Items of `item` that objectives before `i` have claimed in `newp`.
pub open spec fn used_before(objs: Seq<QuestObjective>, newp: Seq<u32>, i: int, item: Seq<char>) -> nat
    decreases i,
{
    if i <= 0 {
        0
    } else {
        used_before(objs, newp, i - 1, item) + if i - 1 < objs.len() && is_item_obj(objs[i - 1])
            && obj_item(objs[i - 1]) == item {
            newp[i - 1] as nat
        } else {
            0
        }
    }
}

/// The new progress of one objective, given how many of its item earlier
/// objectives already claimed. Item objectives show what the inventory holds
/// beyond earlier claims, capped at their count; a visit completes on the
/// target street and stays complete; a skill objective completes once the
/// skill is learned; craft objectives are left to `record_craft`.
pub open spec fn tick_entry(
    o: QuestObjective,
    prior: u32,
    used: nat,
    inv: Seq<SlotView>,
    learned: Seq<String>,
    street: Seq<char>,
) -> u32 {
    match o {
        QuestObjective::Fetch { item_id, count, .. } => {
            let t = counted(inv, item_id@);
            let avail = if t >= used {
                (t - used) as nat
            } else {
                0
            };
            if avail < count {
                avail as u32
            } else {
                count
            }
        },
        QuestObjective::Deliver { item_id, count, .. } => {
            let t = counted(inv, item_id@);
            let avail = if t >= used {
                (t - used) as nat
            } else {
                0
            };
            if avail < count {
                avail as u32
            } else {
                count
            }
        },
        QuestObjective::Visit { street_id, .. } => if street == street_id@ && prior == 0 {
            1
        } else {
            prior
        },
        QuestObjective::LearnSkill { skill_id, .. } => if has_str(learned, skill_id@) {
            1
        } else {
            prior
        },
        QuestObjective::Craft { .. } => prior,
    }
}

/// The first `n` entries of a quest's progress after a tick.
pub open spec fn ticked(
    objs: Seq<QuestObjective>,
    prior: Seq<u32>,
    inv: Seq<SlotView>,
    learned: Seq<String>,
    street: Seq<char>,
    n: nat,
) -> Seq<u32>
    decreases n,
{
    if n == 0 {
        Seq::empty()
    } else {
        let prev = ticked(objs, prior, inv, learned, street, (n - 1) as nat);
        let i = n - 1;
        prev.push(
            if i < objs.len() {
                tick_entry(
                    objs[i],
                    prior[i],
                    used_before(objs, prev, i, obj_item(objs[i])),
                    inv,
                    learned,
                    street,
                )
            } else {
                prior[i]
            },
        )
    }
}

/// The length of a ticked prefix.
proof fn lemma_ticked_len(
    objs: Seq<QuestObjective>,
    prior: Seq<u32>,
    inv: Seq<SlotView>,
    learned: Seq<String>,
    street: Seq<char>,
    n: nat,
)
    ensures
        ticked(objs, prior, inv, learned, street, n).len() == n,
    decreases n,
{
    if n > 0 {
        lemma_ticked_len(objs, prior, inv, learned, street, (n - 1) as nat);
    }
}

/// `used_before`, saturated at `u64::MAX`.
fn used_before_of(objs: &Vec<QuestObjective>, newp: &Vec<u32>, i: usize, item: &str) -> (r: u64)
    requires
        i <= newp@.len(),
    ensures
        r == if used_before(objs@, newp@, i as int, item@) > u64::MAX {
            u64::MAX as nat
        } else {
            used_before(objs@, newp@, i as int, item@)
        },
{
    let mut acc: u64 = 0;
    let mut j: usize = 0;
    while j < i
        invariant
            0 <= j <= i,
            i <= newp@.len(),
            acc == if used_before(objs@, newp@, j as int, item@) > u64::MAX {
                u64::MAX as nat
            } else {
                used_before(objs@, newp@, j as int, item@)
            },
        decreases i - j,
    {
        let hit = if j < objs.len() {
            match &objs[j] {
                QuestObjective::Fetch { item_id, .. } => str_eq(item_id.as_str(), item),
                QuestObjective::Deliver { item_id, .. } => str_eq(item_id.as_str(), item),
                _ => false,
            }
        } else {
            false
        };
        if hit {
            let c = newp[j] as u64;
            acc = if acc > u64::MAX - c {
                u64::MAX
            } else {
                acc + c
            };
        }
        j = j + 1;
    }
    acc
}

/// The new progress of one objective (see `tick_entry`).
fn tick_one(
    o: &QuestObjective,
    prior: u32,
    used: u64,
    inventory: &Inventory,
    skill_progress: &SkillProgress,
    street_id: &str,
) -> (r: u32)
    ensures
        forall|u: nat|
            (used == if u > u64::MAX {
                u64::MAX as nat
            } else {
                u
            }) ==> r == tick_entry(*o, prior, u, inventory@, skill_progress.learned@, street_id@),
{
    match o {
        QuestObjective::Fetch { item_id, count, .. } | QuestObjective::Deliver {
            item_id,
            count,
            ..
        } => {
            let t = inventory.count_item(item_id.as_str()) as u64;
            let avail: u64 = if t >= used {
                t - used
            } else {
                0
            };
            if avail < *count as u64 {
                avail as u32
            } else {
                *count
            }
        },
        QuestObjective::Visit { street_id: target, .. } => {
            if str_eq(street_id, target.as_str()) && prior == 0 {
                1
            } else {
                prior
            }
        },
        QuestObjective::LearnSkill { skill_id, .. } => {
            if vec_has_str(&skill_progress.learned, skill_id.as_str()) {
                1
            } else {
                prior
            }
        },
        QuestObjective::Craft { .. } => prior,
    }
}

/// A quest's whole progress after a tick.
fn tick_progress(
    objs: &Vec<QuestObjective>,
    prior: &Vec<u32>,
    inventory: &Inventory,
    skill_progress: &SkillProgress,
    street_id: &str,
) -> (r: Vec<u32>)
    ensures
        r@ == ticked(
            objs@,
            prior@,
            inventory@,
            skill_progress.learned@,
            street_id@,
            prior@.len(),
        ),
{
    let n = prior.len();
    let mut out: Vec<u32> = Vec::new();
    let mut i: usize = 0;
    while i < n
        invariant
            n == prior@.len(),
            0 <= i <= n,
            out@ == ticked(
                objs@,
                prior@,
                inventory@,
                skill_progress.learned@,
                street_id@,
                i as nat,
            ),
        decreases n - i,
    {
        proof {
            lemma_ticked_len(objs@, prior@, inventory@, skill_progress.learned@, street_id@, i as nat);
        }
        let v: u32 = if i < objs.len() {
            let item: &str = match &objs[i] {
                QuestObjective::Fetch { item_id, .. } => item_id.as_str(),
                QuestObjective::Deliver { item_id, .. } => item_id.as_str(),
                _ => "",
            };
            let used = used_before_of(objs, &out, i, item);
            proof {
                if !is_item_obj(objs@[i as int]) {
                    assert(tick_entry(
                        objs@[i as int],
                        prior@[i as int],
                        used_before(objs@, out@, i as int, obj_item(objs@[i as int])),
                        inventory@,
                        skill_progress.learned@,
                        street_id@,
                    ) == tick_entry(
                        objs@[i as int],
                        prior@[i as int],
                        used_before(objs@, out@, i as int, item@),
                        inventory@,
                        skill_progress.learned@,
                        street_id@,
                    ));
                }
            }
            tick_one(&objs[i], prior[i], used, inventory, skill_progress, street_id)
        } else {
            prior[i]
        };
        out.push(v);
        i = i + 1;
    }
    out
}

/// `later` holds the same quests as `prior`, each with the same id and with the
/// progress `f` gives for its key and prior progress.
pub open spec fn progress_mapped(
    prior: Map<Seq<char>, ActiveQuest>,
    later: Map<Seq<char>, ActiveQuest>,
    f: spec_fn(Seq<char>, Seq<u32>) -> Seq<u32>,
) -> bool {
    &&& later.dom() == prior.dom()
    &&& forall|k: Seq<char>| #[trigger]
        prior.contains_key(k) ==> later[k].quest_id == prior[k].quest_id
            && later[k].objective_progress@ == f(k, prior[k].objective_progress@)
}

/// Entry lists with the same keys, position by position, whose values have
/// the same quest id and progress related by `f`, stand for maps related by
/// `progress_mapped`.
proof fn lemma_progress_mapped(
    prior: Seq<(String, ActiveQuest)>,
    later: Seq<(String, ActiveQuest)>,
    f: spec_fn(Seq<char>, Seq<u32>) -> Seq<u32>,
)
    requires
        crate::strmap::unique_keys(prior),
        later.len() == prior.len(),
        forall|j: int| 0 <= j < prior.len() ==> #[trigger] later[j].0 == prior[j].0,
        forall|j: int|
            0 <= j < prior.len() ==> #[trigger] later[j].1.quest_id == prior[j].1.quest_id
                && later[j].1.objective_progress@ == f(prior[j].0@, prior[j].1.objective_progress@),
    ensures
        crate::strmap::unique_keys(later),
        progress_mapped(map_of(prior), map_of(later), f),
{
    assert(crate::strmap::unique_keys(later)) by {
        assert forall|a: int, b: int| 0 <= a < b < later.len() implies later[a].0@ != later[b].0@ by {
            assert(later[a].0 == prior[a].0);
            assert(later[b].0 == prior[b].0);
        }
    }
    lemma_map_of(prior);
    lemma_map_of(later);
    assert forall|k: Seq<char>| #[trigger] map_of(later).contains_key(k) == map_of(
        prior,
    ).contains_key(k) by {
        if has_key(prior, k) {
            let j = choose|j: int| 0 <= j < prior.len() && prior[j].0@ == k;
            assert(later[j].0 == prior[j].0);
        }
        if has_key(later, k) {
            let j = choose|j: int| 0 <= j < later.len() && later[j].0@ == k;
            assert(later[j].0 == prior[j].0);
        }
    }
    assert(map_of(later).dom() =~= map_of(prior).dom());
    assert forall|k: Seq<char>| #[trigger] map_of(prior).contains_key(k) implies map_of(
        later,
    )[k].quest_id == map_of(prior)[k].quest_id && map_of(later)[k].objective_progress@ == f(
        k,
        map_of(prior)[k].objective_progress@,
    ) by {
        let j = choose|j: int| 0 <= j < prior.len() && prior[j].0@ == k;
        assert(later[j].0 == prior[j].0);
    }
}

/// The tick of one quest: progress recomputed where the quest is defined.
pub open spec fn tick_fn(
    defs: Map<Seq<char>, QuestDef>,
    inv: Seq<SlotView>,
    learned: Seq<String>,
    street: Seq<char>,
) -> spec_fn(Seq<char>, Seq<u32>) -> Seq<u32> {
    |k: Seq<char>, p: Seq<u32>|
        if defs.contains_key(k) {
            ticked(defs[k].objectives@, p, inv, learned, street, p.len())
        } else {
            p
        }
}

/// A ticked prefix agrees with every longer one on its entries.
proof fn lemma_ticked_prefix(
    objs: Seq<QuestObjective>,
    prior: Seq<u32>,
    inv: Seq<SlotView>,
    learned: Seq<String>,
    street: Seq<char>,
    n: nat,
    m: nat,
    j: int,
)
    requires
        0 <= j < n <= m,
    ensures
        ticked(objs, prior, inv, learned, street, n)[j] == ticked(objs, prior, inv, learned, street, m)[j],
    decreases m,
{
    lemma_ticked_len(objs, prior, inv, learned, street, n);
    if m > n {
        lemma_ticked_len(objs, prior, inv, learned, street, (m - 1) as nat);
        lemma_ticked_prefix(objs, prior, inv, learned, street, n, (m - 1) as nat, j);
    }
}

/// What earlier objectives claimed depends only on the entries before `i`.
proof fn lemma_used_before_prefix(objs: Seq<QuestObjective>, a: Seq<u32>, b: Seq<u32>, i: int, item: Seq<char>)
    requires
        forall|j: int| 0 <= j < i ==> a[j] == b[j],
    ensures
        used_before(objs, a, i, item) == used_before(objs, b, i, item),
    decreases i,
{
    if i > 0 {
        lemma_used_before_prefix(objs, a, b, i - 1, item);
    }
}

/// What the first `i + 1` objectives ask for of `item`.
proof fn lemma_item_need_take(objs: Seq<QuestObjective>, i: int, item: Seq<char>)
    requires
        0 <= i < objs.len(),
    ensures
        item_need(objs.take(i + 1), item) == item_need(objs.take(i), item) + if is_item_obj(objs[i])
            && obj_item(objs[i]) == item {
            obj_count(objs[i])
        } else {
            0
        },
{
    assert(objs.take(i + 1).drop_last() =~= objs.take(i));
}

/// After a tick, the item objectives of `item` show exactly the cumulative
/// check of readiness: every one of them shows its full count if and only
/// if the inventory holds what they ask for together.
#[verifier::spinoff_prover]
#[verifier::rlimit(40)]
pub proof fn lemma_tick_matches_readiness(
    objs: Seq<QuestObjective>,
    prior: Seq<u32>,
    inv: Seq<SlotView>,
    learned: Seq<String>,
    street: Seq<char>,
    item: Seq<char>,
)
    requires
        prior.len() == objs.len(),
    ensures
        (forall|i: int|
            0 <= i < objs.len() && is_item_obj(objs[i]) && obj_item(objs[i]) == item
                ==> #[trigger] ticked(objs, prior, inv, learned, street, objs.len())[i] == obj_count(objs[i]))
            <==> counted(inv, item) >= item_need(objs, item),
{
    let n = objs.len();
    let p = ticked(objs, prior, inv, learned, street, n);
    let t = counted(inv, item);
    lemma_ticked_len(objs, prior, inv, learned, street, n);
    // Each entry of the full tick is what its own step computed.
    assert forall|i: int| 0 <= i < n implies #[trigger] p[i] == tick_entry(
        objs[i],
        prior[i],
        used_before(objs, p, i, obj_item(objs[i])),
        inv,
        learned,
        street,
    ) by {
        let q = ticked(objs, prior, inv, learned, street, i as nat);
        lemma_ticked_len(objs, prior, inv, learned, street, i as nat);
        lemma_ticked_len(objs, prior, inv, learned, street, (i + 1) as nat);
        assert forall|j: int| 0 <= j < i implies q[j] == p[j] by {
            lemma_ticked_prefix(objs, prior, inv, learned, street, i as nat, n, j);
        }
        lemma_used_before_prefix(objs, q, p, i, obj_item(objs[i]));
        lemma_ticked_prefix(objs, prior, inv, learned, street, (i + 1) as nat, n, i);
    }
    // What is claimed never passes what is held.
    assert forall|i: int| 0 <= i <= n implies #[trigger] used_before(objs, p, i, item) <= t by {
        lemma_claims_bounded(objs, p, i, item, t, prior, inv, learned, street);
    }
    // Where every objective of the item is full, what is claimed is what is asked.
    if forall|i: int|
        0 <= i < n && is_item_obj(objs[i]) && obj_item(objs[i]) == item ==> #[trigger] p[i] == obj_count(objs[i]) {
        lemma_full_claims(objs, p, n as int, item);
        assert(objs.take(n as int) =~= objs);
    }
    // Where the inventory holds enough, every objective of the item is full.
    if t >= item_need(objs, item) {
        assert(objs.take(n as int) =~= objs);
        lemma_enough_fills(objs, p, n as int, item, t, prior, inv, learned, street);
    }
}

/// Claims of `item` up to `i` never pass the inventory's `t`, when each
/// entry is what its own step computed.
#[verifier::spinoff_prover]
#[verifier::rlimit(40)]
proof fn lemma_claims_bounded(
    objs: Seq<QuestObjective>,
    p: Seq<u32>,
    i: int,
    item: Seq<char>,
    t: nat,
    prior: Seq<u32>,
    inv: Seq<SlotView>,
    learned: Seq<String>,
    street: Seq<char>,
)
    requires
        0 <= i <= objs.len(),
        prior.len() == objs.len(),
        t == counted(inv, item),
        forall|k: int| 0 <= k < objs.len() ==> #[trigger] p[k] == tick_entry(
            objs[k],
            prior[k],
            used_before(objs, p, k, obj_item(objs[k])),
            inv,
            learned,
            street,
        ),
    ensures
        used_before(objs, p, i, item) <= t,
    decreases i,
{
    if i > 0 {
        lemma_claims_bounded(objs, p, i - 1, item, t, prior, inv, learned, street);
        assert(p[i - 1] == tick_entry(
            objs[i - 1],
            prior[i - 1],
            used_before(objs, p, i - 1, obj_item(objs[i - 1])),
            inv,
            learned,
            street,
        ));
    }
}

/// Where every objective of `item` before `i` is full, the claims are what
/// those objectives ask for.
proof fn lemma_full_claims(objs: Seq<QuestObjective>, p: Seq<u32>, i: int, item: Seq<char>)
    requires
        0 <= i <= objs.len(),
        forall|k: int|
            0 <= k < objs.len() && is_item_obj(objs[k]) && obj_item(objs[k]) == item ==> #[trigger] p[k]
                == obj_count(objs[k]),
    ensures
        used_before(objs, p, i, item) == item_need(objs.take(i), item),
    decreases i,
{
    if i == 0 {
        assert(objs.take(0).len() == 0);
    } else {
        lemma_full_claims(objs, p, i - 1, item);
        lemma_item_need_take(objs, i - 1, item);
        if is_item_obj(objs[i - 1]) && obj_item(objs[i - 1]) == item {
            assert(p[i - 1] == obj_count(objs[i - 1]));
        }
    }
}

/// Where the inventory holds what the first `i` objectives ask for of
/// `item`, each of them is full and the claims are what they ask for.
#[verifier::spinoff_prover]
#[verifier::rlimit(40)]
proof fn lemma_enough_fills(
    objs: Seq<QuestObjective>,
    p: Seq<u32>,
    i: int,
    item: Seq<char>,
    t: nat,
    prior: Seq<u32>,
    inv: Seq<SlotView>,
    learned: Seq<String>,
    street: Seq<char>,
)
    requires
        0 <= i <= objs.len(),
        prior.len() == objs.len(),
        t == counted(inv, item),
        t >= item_need(objs.take(i), item),
        forall|k: int| 0 <= k < objs.len() ==> #[trigger] p[k] == tick_entry(
            objs[k],
            prior[k],
            used_before(objs, p, k, obj_item(objs[k])),
            inv,
            learned,
            street,
        ),
    ensures
        used_before(objs, p, i, item) == item_need(objs.take(i), item),
        forall|k: int|
            0 <= k < i && is_item_obj(objs[k]) && obj_item(objs[k]) == item ==> #[trigger] p[k]
                == obj_count(objs[k]),
    decreases i,
{
    if i == 0 {
        assert(objs.take(0).len() == 0);
    } else {
        lemma_item_need_take(objs, i - 1, item);
        lemma_enough_fills(objs, p, i - 1, item, t, prior, inv, learned, street);
        assert(p[i - 1] == tick_entry(
            objs[i - 1],
            prior[i - 1],
            used_before(objs, p, i - 1, obj_item(objs[i - 1])),
            inv,
            learned,
            street,
        ));
    }
}

/// Update objective progress of every active quest from the current game
/// state (see `tick_entry`). Quests without a definition are left alone, as
/// are progress entries beyond a quest's objectives.
pub fn tick_quest_progress(
    quest_progress: &mut QuestProgress,
    quest_defs: &QuestDefs,
    inventory: &Inventory,
    skill_progress: &SkillProgress,
    street_id: &str,
)
    requires
        old(quest_progress).active.wf(),
        quest_defs.wf(),
    ensures
        final(quest_progress).active.wf(),
        final(quest_progress).completed == old(quest_progress).completed,
        progress_mapped(
            old(quest_progress).active@,
            final(quest_progress).active@,
            tick_fn(quest_defs@, inventory@, skill_progress.learned@, street_id@),
        ),
{
    let ghost f = tick_fn(quest_defs@, inventory@, skill_progress.learned@, street_id@);
    let ghost old_s = quest_progress.active.seq();
    let n = quest_progress.active.len();
    let mut idx: usize = 0;
    while idx < n
        invariant
            n == old_s.len(),
            0 <= idx <= n,
            quest_defs.wf(),
            quest_progress.active.wf(),
            f == tick_fn(quest_defs@, inventory@, skill_progress.learned@, street_id@),
            quest_progress.completed == old(quest_progress).completed,
            old_s == old(quest_progress).active.seq(),
            quest_progress.active.seq().len() == n,
            forall|j: int| 0 <= j < n ==> #[trigger] quest_progress.active.seq()[j].0 == old_s[j].0,
            forall|j: int|
                0 <= j < idx ==> #[trigger] quest_progress.active.seq()[j].1.quest_id
                    == old_s[j].1.quest_id && quest_progress.active.seq()[j].1.objective_progress@
                    == f(old_s[j].0@, old_s[j].1.objective_progress@),
            forall|j: int| idx <= j < n ==> #[trigger] quest_progress.active.seq()[j] == old_s[j],
        decreases n - idx,
    {
        let ghost before = quest_progress.active.seq();
        let entry = &quest_progress.active.entries[idx];
        let newp: Option<ActiveQuest> = match quest_defs.get(entry.0.as_str()) {
            Some(def) => {
                let p = tick_progress(
                    &def.objectives,
                    &entry.1.objective_progress,
                    inventory,
                    skill_progress,
                    street_id,
                );
                Some(ActiveQuest { quest_id: entry.1.quest_id.clone(), objective_progress: p })
            },
            None => None,
        };
        proof {
            assert(*entry == old_s[idx as int]);
        }
        match newp {
            Some(aq) => {
                quest_progress.active.set_value(idx, aq);
            },
            None => {},
        }
        proof {
            let e = old_s[idx as int];
            assert(quest_progress.active.seq()[idx as int].1.objective_progress@ == f(
                e.0@,
                e.1.objective_progress@,
            ));
            assert forall|j: int| 0 <= j < n && j != idx implies #[trigger]
                quest_progress.active.seq()[j] == before[j] by {}
            assert(quest_progress.active.seq()[idx as int].1.quest_id == e.1.quest_id);
            assert forall|j: int| 0 <= j < idx implies #[trigger]
                quest_progress.active.seq()[j].1.quest_id == old_s[j].1.quest_id
                    && quest_progress.active.seq()[j].1.objective_progress@ == f(
                    old_s[j].0@,
                    old_s[j].1.objective_progress@,
                ) by {
                assert(quest_progress.active.seq()[j] == before[j]);
            }
            assert(forall|j: int|
                0 <= j < idx + 1 ==> #[trigger] quest_progress.active.seq()[j].1.quest_id
                    == old_s[j].1.quest_id && quest_progress.active.seq()[j].1.objective_progress@
                    == f(old_s[j].0@, old_s[j].1.objective_progress@));
        }
        idx = idx + 1;
    }
    proof {
        lemma_progress_mapped(old_s, quest_progress.active.seq(), f);
    }
}

// ---------------------------------------------------------------------------
// Crafting
// ---------------------------------------------------------------------------

/// Whether objective `o` is a craft objective for `recipe`.
pub open spec fn crafts(o: QuestObjective, recipe: Seq<char>) -> bool {
    match o {
        QuestObjective::Craft { recipe_id, .. } => recipe_id@ == recipe,
        _ => false,
    }
}

/// A quest's progress after one craft of `recipe`: each matching craft
/// objective counts one more, capped at its target.
pub open spec fn crafted(objs: Seq<QuestObjective>, p: Seq<u32>, recipe: Seq<char>) -> Seq<u32> {
    Seq::new(
        p.len(),
        |i: int|
            if i < objs.len() && crafts(objs[i], recipe) {
                if p[i] + 1 < crate::quest::types::objective_target(objs[i]) {
                    (p[i] + 1) as u32
                } else {
                    crate::quest::types::objective_target(objs[i])
                }
            } else {
                p[i]
            },
    )
}

/// The craft update of one quest, where the quest is defined.
pub open spec fn craft_fn(defs: Map<Seq<char>, QuestDef>, recipe: Seq<char>) -> spec_fn(
    Seq<char>,
    Seq<u32>,
) -> Seq<u32> {
    |k: Seq<char>, p: Seq<u32>|
        if defs.contains_key(k) {
            crafted(defs[k].objectives@, p, recipe)
        } else {
            p
        }
}

/// No matching craft objective is at `u32::MAX` already.
pub open spec fn craft_fits(
    active: Map<Seq<char>, ActiveQuest>,
    defs: Map<Seq<char>, QuestDef>,
    recipe: Seq<char>,
) -> bool {
    forall|k: Seq<char>, i: int| #[trigger]
        active.contains_key(k) && defs.contains_key(k) && 0 <= i < defs[k].objectives@.len() && i
            < active[k].objective_progress@.len() && crafts(
            #[trigger] defs[k].objectives@[i],
            recipe,
        ) ==> active[k].objective_progress@[i] < u32::MAX
}

/// A quest's progress after one craft (see `crafted`).
fn craft_progress(objs: &Vec<QuestObjective>, p: &Vec<u32>, recipe_id: &str) -> (r: Vec<u32>)
    requires
        forall|i: int|
            0 <= i < objs@.len() && i < p@.len() && crafts(#[trigger] objs@[i], recipe_id@) ==> p@[i]
                < u32::MAX,
    ensures
        r@ == crafted(objs@, p@, recipe_id@),
{
    let m = p.len();
    let mut out: Vec<u32> = Vec::new();
    let mut i: usize = 0;
    while i < m
        invariant
            m == p@.len(),
            0 <= i <= m,
            forall|i: int|
                0 <= i < objs@.len() && i < p@.len() && crafts(#[trigger] objs@[i], recipe_id@)
                    ==> p@[i] < u32::MAX,
            out@ == crafted(objs@, p@, recipe_id@).take(i as int),
        decreases m - i,
    {
        let cur = p[i];
        let v: u32 = if i < objs.len() {
            match &objs[i] {
                QuestObjective::Craft { recipe_id: target, count, .. } => {
                    if str_eq(recipe_id, target.as_str()) {
                        proof {
                            assert(crafts(objs@[i as int], recipe_id@));
                        }
                        let up = cur + 1;
                        if up < *count {
                            up
                        } else {
                            *count
                        }
                    } else {
                        cur
                    }
                },
                _ => cur,
            }
        } else {
            cur
        };
        out.push(v);
        proof {
            assert(out@ =~= crafted(objs@, p@, recipe_id@).take(i + 1));
        }
        i = i + 1;
    }
    proof {
        assert(out@ =~= crafted(objs@, p@, recipe_id@));
    }
    out
}

/// Record a completed craft of `recipe_id` against every active quest.
pub fn record_craft(quest_progress: &mut QuestProgress, quest_defs: &QuestDefs, recipe_id: &str)
    requires
        old(quest_progress).active.wf(),
        quest_defs.wf(),
        craft_fits(old(quest_progress).active@, quest_defs@, recipe_id@),
    ensures
        final(quest_progress).active.wf(),
        final(quest_progress).completed == old(quest_progress).completed,
        progress_mapped(
            old(quest_progress).active@,
            final(quest_progress).active@,
            craft_fn(quest_defs@, recipe_id@),
        ),
{
    let ghost f = craft_fn(quest_defs@, recipe_id@);
    let ghost old_s = quest_progress.active.seq();
    let n = quest_progress.active.len();
    let mut idx: usize = 0;
    while idx < n
        invariant
            n == old_s.len(),
            0 <= idx <= n,
            quest_defs.wf(),
            quest_progress.active.wf(),
            crate::strmap::unique_keys(old_s),
            craft_fits(map_of(old_s), quest_defs@, recipe_id@),
            f == craft_fn(quest_defs@, recipe_id@),
            quest_progress.completed == old(quest_progress).completed,
            old_s == old(quest_progress).active.seq(),
            quest_progress.active.seq().len() == n,
            forall|j: int| 0 <= j < n ==> #[trigger] quest_progress.active.seq()[j].0 == old_s[j].0,
            forall|j: int|
                0 <= j < idx ==> #[trigger] quest_progress.active.seq()[j].1.quest_id
                    == old_s[j].1.quest_id && quest_progress.active.seq()[j].1.objective_progress@
                    == f(old_s[j].0@, old_s[j].1.objective_progress@),
            forall|j: int| idx <= j < n ==> #[trigger] quest_progress.active.seq()[j] == old_s[j],
        decreases n - idx,
    {
        let ghost before = quest_progress.active.seq();
        let entry = &quest_progress.active.entries[idx];
        proof {
            assert(*entry == old_s[idx as int]);
            lemma_map_of(old_s);
            assert(map_of(old_s).contains_key(old_s[idx as int].0@));
        }
        let newp: Option<ActiveQuest> = match quest_defs.get(entry.0.as_str()) {
            Some(def) => {
                let p = craft_progress(&def.objectives, &entry.1.objective_progress, recipe_id);
                Some(ActiveQuest { quest_id: entry.1.quest_id.clone(), objective_progress: p })
            },
            None => None,
        };
        match newp {
            Some(aq) => {
                quest_progress.active.set_value(idx, aq);
            },
            None => {},
        }
        proof {
            let e = old_s[idx as int];
            assert(quest_progress.active.seq()[idx as int].1.objective_progress@ == f(
                e.0@,
                e.1.objective_progress@,
            ));
            assert forall|j: int| 0 <= j < n && j != idx implies #[trigger]
                quest_progress.active.seq()[j] == before[j] by {}
            assert(quest_progress.active.seq()[idx as int].1.quest_id == e.1.quest_id);
            assert forall|j: int| 0 <= j < idx implies #[trigger]
                quest_progress.active.seq()[j].1.quest_id == old_s[j].1.quest_id
                    && quest_progress.active.seq()[j].1.objective_progress@ == f(
                    old_s[j].0@,
                    old_s[j].1.objective_progress@,
                ) by {
                assert(quest_progress.active.seq()[j] == before[j]);
            }
            assert(forall|j: int|
                0 <= j < idx + 1 ==> #[trigger] quest_progress.active.seq()[j].1.quest_id
                    == old_s[j].1.quest_id && quest_progress.active.seq()[j].1.objective_progress@
                    == f(old_s[j].0@, old_s[j].1.objective_progress@));
        }
        idx = idx + 1;
    }
    proof {
        lemma_progress_mapped(old_s, quest_progress.active.seq(), f);
    }
}

} // verus!
