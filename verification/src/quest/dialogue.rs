use vstd::prelude::*;

use crate::item::inventory::{
    counted, lemma_add_conserves, lemma_add_overflow, spec_add, spec_remove, total, Inventory, SlotView,
};
use crate::item::types::{ItemDef, ItemDefs};
use crate::quest::tracker::{is_quest_ready, quest_ready, start_quest};
use crate::quest::types::{
    active_view, dialogue_defs_wf, strs_view, DialogueChoiceResult, DialogueCondition,
    DialogueDefs, DialogueEffect, DialogueFrame, DialogueNodeDef, DialogueOptionDef,
    DialogueOptionFrame, QuestDef, QuestDefs, QuestObjective, QuestProgress, QuestRewardItem,
};
use crate::skill::types::SkillProgress;
use crate::text::{concat2, decimal, has_str, owned, push_str, u64_to_decimal, vec_has_str};

verus! {

// ---------------------------------------------------------------------------
// The player state that dialogue reads and changes
// ---------------------------------------------------------------------------

/// Quests, inventory and purses of a player, as values.
pub struct PlayerView {
    /// Active quests by id: (quest id, per-objective progress).
    pub active: Map<Seq<char>, (Seq<char>, Seq<u32>)>,
    /// Completed quest ids, in completion order.
    pub completed: Seq<Seq<char>>,
    /// Inventory slots.
    pub inv: Seq<SlotView>,
    pub currants: int,
    pub imagination: int,
}

/// The view of a player's state.
pub open spec fn player_view(qp: QuestProgress, inv: Seq<SlotView>, currants: u64, imagination: u64) -> PlayerView {
    PlayerView {
        active: active_view(qp.active@),
        completed: strs_view(qp.completed@),
        inv,
        currants: currants as int,
        imagination: imagination as int,
    }
}

proof fn lemma_has_str_view(v: Seq<String>, k: Seq<char>)
    ensures
        has_str(v, k) <==> strs_view(v).contains(k),
{
    if has_str(v, k) {
        let i = choose|i: int| 0 <= i < v.len() && v[i]@ == k;
        assert(strs_view(v)[i] == k);
    }
    if strs_view(v).contains(k) {
        let i = choose|i: int| 0 <= i < strs_view(v).len() && strs_view(v)[i] == k;
        assert(v[i]@ == k);
    }
}

// ---------------------------------------------------------------------------
// Conditions
// ---------------------------------------------------------------------------

/// Whether a dialogue condition holds.
pub open spec fn cond_holds(
    c: DialogueCondition,
    w: PlayerView,
    qdefs: Map<Seq<char>, QuestDef>,
    learned: Seq<String>,
) -> bool {
    match c {
        DialogueCondition::QuestNotStarted { quest_id } => !w.active.contains_key(quest_id@)
            && !w.completed.contains(quest_id@),
        DialogueCondition::QuestActive { quest_id } => w.active.contains_key(quest_id@)
            && !quest_ready(quest_id@, w.active, qdefs, w.inv, learned),
        DialogueCondition::QuestReady { quest_id } => quest_ready(
            quest_id@,
            w.active,
            qdefs,
            w.inv,
            learned,
        ),
        DialogueCondition::QuestComplete { quest_id } => w.completed.contains(quest_id@),
        DialogueCondition::HasItem { item_id, count } => counted(w.inv, item_id@) >= count,
        DialogueCondition::SkillLearned { skill_id } => has_str(learned, skill_id@),
    }
}

/// For one quest, "active" and "ready for turn-in" split the active quests
/// between them: never both hold, and one of them holds exactly when the
/// quest is active.
pub proof fn lemma_active_or_ready(
    active: DialogueCondition,
    ready: DialogueCondition,
    w: PlayerView,
    qdefs: Map<Seq<char>, QuestDef>,
    learned: Seq<String>,
)
    requires
        active is QuestActive,
        ready is QuestReady,
        active->QuestActive_quest_id@ == ready->QuestReady_quest_id@,
    ensures
        !(cond_holds(active, w, qdefs, learned) && cond_holds(ready, w, qdefs, learned)),
        cond_holds(active, w, qdefs, learned) || cond_holds(ready, w, qdefs, learned)
            <==> w.active.contains_key(active->QuestActive_quest_id@),
{
}

/// Whether all conditions of a list hold.
pub open spec fn all_hold(
    cs: Seq<DialogueCondition>,
    w: PlayerView,
    qdefs: Map<Seq<char>, QuestDef>,
    learned: Seq<String>,
) -> bool {
    forall|i: int| 0 <= i < cs.len() ==> cond_holds(#[trigger] cs[i], w, qdefs, learned)
}

/// Check whether a dialogue condition is satisfied.
pub fn check_condition(
    condition: &DialogueCondition,
    quest_progress: &QuestProgress,
    quest_defs: &QuestDefs,
    inventory: &Inventory,
    skill_progress: &SkillProgress,
) -> (b: bool)
    requires
        quest_progress.active.wf(),
        quest_defs.wf(),
    ensures
        b == cond_holds(
            *condition,
            player_view(*quest_progress, inventory@, 0, 0),
            quest_defs@,
            skill_progress.learned@,
        ),
{
    match condition {
        DialogueCondition::QuestNotStarted { quest_id } => {
            proof {
                lemma_has_str_view(quest_progress.completed@, quest_id@);
            }
            !quest_progress.active.contains_key(quest_id.as_str()) && !vec_has_str(
                &quest_progress.completed,
                quest_id.as_str(),
            )
        },
        DialogueCondition::QuestActive { quest_id } => {
            quest_progress.active.contains_key(quest_id.as_str()) && !is_quest_ready(
                quest_id.as_str(),
                quest_progress,
                quest_defs,
                inventory,
                skill_progress,
            )
        },
        DialogueCondition::QuestReady { quest_id } => {
            is_quest_ready(quest_id.as_str(), quest_progress, quest_defs, inventory, skill_progress)
        },
        DialogueCondition::QuestComplete { quest_id } => {
            proof {
                lemma_has_str_view(quest_progress.completed@, quest_id@);
            }
            vec_has_str(&quest_progress.completed, quest_id.as_str())
        },
        DialogueCondition::HasItem { item_id, count } => {
            inventory.count_item(item_id.as_str()) >= *count
        },
        DialogueCondition::SkillLearned { skill_id } => {
            vec_has_str(&skill_progress.learned, skill_id.as_str())
        },
    }
}

/// Whether all of `conditions` are satisfied.
fn all_conditions(
    conditions: &Vec<DialogueCondition>,
    quest_progress: &QuestProgress,
    quest_defs: &QuestDefs,
    inventory: &Inventory,
    skill_progress: &SkillProgress,
) -> (b: bool)
    requires
        quest_progress.active.wf(),
        quest_defs.wf(),
    ensures
        b == all_hold(
            conditions@,
            player_view(*quest_progress, inventory@, 0, 0),
            quest_defs@,
            skill_progress.learned@,
        ),
{
    let ghost w = player_view(*quest_progress, inventory@, 0, 0);
    let n = conditions.len();
    let mut i: usize = 0;
    while i < n
        invariant
            n == conditions@.len(),
            0 <= i <= n,
            quest_progress.active.wf(),
            quest_defs.wf(),
            w == player_view(*quest_progress, inventory@, 0, 0),
            forall|j: int|
                0 <= j < i ==> cond_holds(
                    #[trigger] conditions@[j],
                    w,
                    quest_defs@,
                    skill_progress.learned@,
                ),
        decreases n - i,
    {
        if !check_condition(&conditions[i], quest_progress, quest_defs, inventory, skill_progress) {
            return false;
        }
        i = i + 1;
    }
    true
}

// ---------------------------------------------------------------------------
// Frames
// ---------------------------------------------------------------------------

/// The visible options among the first `n` options of a node, as
/// (text, index in the full list).
pub open spec fn visible(
    opts: Seq<DialogueOptionDef>,
    n: nat,
    w: PlayerView,
    qdefs: Map<Seq<char>, QuestDef>,
    learned: Seq<String>,
) -> Seq<(Seq<char>, usize)>
    decreases n,
{
    if n == 0 {
        Seq::empty()
    } else {
        let prev = visible(opts, (n - 1) as nat, w, qdefs, learned);
        if all_hold(opts[n - 1].conditions@, w, qdefs, learned) {
            prev.push((opts[n - 1].text@, (n - 1) as usize))
        } else {
            prev
        }
    }
}

/// The (text, index) pairs of option frames.
pub open spec fn frames_view(v: Seq<DialogueOptionFrame>) -> Seq<(Seq<char>, usize)> {
    v.map_values(|o: DialogueOptionFrame| (o.text@, o.index))
}

/// `f` shows `node` to the player in state `w`: speaker, text, the options
/// whose conditions all hold (with their original indices), and the entity.
pub open spec fn frame_of(
    f: DialogueFrame,
    node: DialogueNodeDef,
    w: PlayerView,
    qdefs: Map<Seq<char>, QuestDef>,
    learned: Seq<String>,
    entity_id: Seq<char>,
) -> bool {
    &&& f.speaker@ == node.speaker@
    &&& f.text@ == node.text@
    &&& f.entity_id@ == entity_id
    &&& frames_view(f.options@) == visible(
        node.options@,
        node.options@.len(),
        w,
        qdefs,
        learned,
    )
}

/// Build the frame for a node, keeping only options whose conditions hold.
pub fn build_frame(
    node: &DialogueNodeDef,
    quest_progress: &QuestProgress,
    quest_defs: &QuestDefs,
    inventory: &Inventory,
    skill_progress: &SkillProgress,
    entity_id: &str,
) -> (f: DialogueFrame)
    requires
        quest_progress.active.wf(),
        quest_defs.wf(),
    ensures
        frame_of(
            f,
            *node,
            player_view(*quest_progress, inventory@, 0, 0),
            quest_defs@,
            skill_progress.learned@,
            entity_id@,
        ),
{
    let ghost w = player_view(*quest_progress, inventory@, 0, 0);
    let n = node.options.len();
    let mut options: Vec<DialogueOptionFrame> = Vec::new();
    let mut i: usize = 0;
    while i < n
        invariant
            n == node.options@.len(),
            0 <= i <= n,
            quest_progress.active.wf(),
            quest_defs.wf(),
            w == player_view(*quest_progress, inventory@, 0, 0),
            frames_view(options@) == visible(
                node.options@,
                i as nat,
                w,
                quest_defs@,
                skill_progress.learned@,
            ),
        decreases n - i,
    {
        let opt = &node.options[i];
        if all_conditions(&opt.conditions, quest_progress, quest_defs, inventory, skill_progress) {
            options.push(DialogueOptionFrame { text: opt.text.clone(), index: i });
        }
        proof {
            assert(frames_view(options@) =~= visible(
                node.options@,
                (i + 1) as nat,
                w,
                quest_defs@,
                skill_progress.learned@,
            ));
        }
        i = i + 1;
    }
    DialogueFrame {
        speaker: node.speaker.clone(),
        text: node.text.clone(),
        options,
        entity_id: owned(entity_id),
    }
}

/// Evaluate the start node of a dialogue tree. None if the tree or its start
/// node does not exist.
pub fn evaluate_start(
    tree_id: &str,
    defs: &DialogueDefs,
    quest_progress: &QuestProgress,
    quest_defs: &QuestDefs,
    inventory: &Inventory,
    skill_progress: &SkillProgress,
    entity_id: &str,
) -> (r: Option<DialogueFrame>)
    requires
        dialogue_defs_wf(*defs),
        quest_progress.active.wf(),
        quest_defs.wf(),
    ensures
        r is Some <==> defs@.contains_key(tree_id@) && defs@[tree_id@].nodes@.contains_key(
            defs@[tree_id@].start_node@,
        ),
        r matches Some(f) ==> frame_of(
            f,
            defs@[tree_id@].nodes@[defs@[tree_id@].start_node@],
            player_view(*quest_progress, inventory@, 0, 0),
            quest_defs@,
            skill_progress.learned@,
            entity_id@,
        ),
{
    let tree = match defs.get(tree_id) {
        Some(t) => t,
        None => {
            return None;
        },
    };
    let node = match tree.nodes.get(tree.start_node.as_str()) {
        Some(n) => n,
        None => {
            return None;
        },
    };
    Some(build_frame(node, quest_progress, quest_defs, inventory, skill_progress, entity_id))
}

// ---------------------------------------------------------------------------
// Effects
// ---------------------------------------------------------------------------

/// Every objective at 0.
pub open spec fn zeros(n: nat) -> Seq<u32> {
    Seq::new(n, |i: int| 0u32)
}

/// The name shown for an item: its definition's name, else its id.
pub open spec fn item_name(idefs: Map<Seq<char>, ItemDef>, id: Seq<char>) -> Seq<char> {
    if idefs.contains_key(id) {
        idefs[id].name@
    } else {
        id
    }
}

/// Adding items as the inventory does: stacked to the item's limit, or not
/// at all when the item is undefined. Returns slots and overflow.
pub open spec fn add_result(
    inv: Seq<SlotView>,
    id: Seq<char>,
    count: u32,
    idefs: Map<Seq<char>, ItemDef>,
) -> (Seq<SlotView>, nat) {
    if idefs.contains_key(id) {
        spec_add(inv, id, count as nat, idefs[id].stack_limit as nat)
    } else {
        (inv, count as nat)
    }
}

/// Messages for giving `count` items of which `overflow` did not fit.
pub open spec fn item_feedback(count: nat, overflow: nat, name: Seq<char>) -> Seq<Seq<char>> {
    let delivered = count - overflow;
    let a = if delivered > 0 {
        seq!["+"@ + decimal(delivered as nat) + " "@ + name]
    } else {
        Seq::empty()
    };
    let b = if overflow > 0 {
        seq!["Inventory full! Lost "@ + decimal(overflow) + " "@ + name]
    } else {
        Seq::empty()
    };
    a + b
}

/// The inventory after taking the items of the first `n` deliver objectives.
pub open spec fn remove_delivers(inv: Seq<SlotView>, objs: Seq<QuestObjective>, n: nat) -> Seq<SlotView>
    decreases n,
{
    if n == 0 {
        inv
    } else {
        let prev = remove_delivers(inv, objs, (n - 1) as nat);
        match objs[n - 1] {
            QuestObjective::Deliver { item_id, count, .. } => spec_remove(
                prev,
                item_id@,
                count as nat,
            ).0,
            _ => prev,
        }
    }
}

/// The inventory and messages after granting the first `n` reward items.
pub open spec fn grant_items(
    inv: Seq<SlotView>,
    items: Seq<QuestRewardItem>,
    idefs: Map<Seq<char>, ItemDef>,
    n: nat,
) -> (Seq<SlotView>, Seq<Seq<char>>)
    decreases n,
{
    if n == 0 {
        (inv, Seq::empty())
    } else {
        let prev = grant_items(inv, items, idefs, (n - 1) as nat);
        let it = items[n - 1];
        let a = add_result(prev.0, it.item_id@, it.count, idefs);
        (a.0, prev.1 + item_feedback(it.count as nat, a.1, item_name(idefs, it.item_id@)))
    }
}

/// The message for gaining currants.
pub open spec fn currants_msg(n: nat) -> Seq<char> {
    "+"@ + decimal(n) + " Currants"@
}

/// The message for gaining imagination.
pub open spec fn imagination_msg(n: nat) -> Seq<char> {
    "+"@ + decimal(n) + " Imagination"@
}

/// One message if `n` is positive, none otherwise.
pub open spec fn msg_if(n: nat, m: Seq<char>) -> Seq<Seq<char>> {
    if n > 0 {
        seq![m]
    } else {
        Seq::empty()
    }
}

/// What an effect does to the player and which messages it produces.
///
/// - starting a quest succeeds only for a defined quest that is neither
///   active nor completed;
/// - completing a quest happens only when it is defined and ready: the items
///   of deliver objectives are taken, rewards are paid, the quest moves from
///   active to completed;
/// - giving, removing items and paying currants or imagination do just that.
pub open spec fn effect_spec(
    e: DialogueEffect,
    w: PlayerView,
    qdefs: Map<Seq<char>, QuestDef>,
    learned: Seq<String>,
    idefs: Map<Seq<char>, ItemDef>,
) -> (PlayerView, Seq<Seq<char>>) {
    match e {
        DialogueEffect::StartQuest { quest_id } => {
            let id = quest_id@;
            if qdefs.contains_key(id) && !w.active.contains_key(id) && !w.completed.contains(id) {
                (
                    PlayerView {
                        active: w.active.insert(id, (id, zeros(qdefs[id].objectives@.len()))),
                        ..w
                    },
                    seq!["Quest started: "@ + qdefs[id].name@],
                )
            } else {
                (w, Seq::empty())
            }
        },
        DialogueEffect::CompleteQuest { quest_id } => {
            let id = quest_id@;
            if qdefs.contains_key(id) && quest_ready(id, w.active, qdefs, w.inv, learned) {
                let def = qdefs[id];
                let inv1 = remove_delivers(w.inv, def.objectives@, def.objectives@.len());
                let g = grant_items(inv1, def.rewards.items@, idefs, def.rewards.items@.len());
                let rc = def.rewards.currants as nat;
                let ri = def.rewards.imagination as nat;
                (
                    PlayerView {
                        active: w.active.remove(id),
                        completed: w.completed.push(id),
                        inv: g.0,
                        currants: w.currants + rc,
                        imagination: w.imagination + ri,
                    },
                    msg_if(rc, currants_msg(rc)) + msg_if(ri, imagination_msg(ri)) + g.1 + seq![
                        "Quest complete: "@ + def.name@,
                    ],
                )
            } else {
                (w, Seq::empty())
            }
        },
        DialogueEffect::GiveItem { item_id, count } => {
            let a = add_result(w.inv, item_id@, count, idefs);
            (
                PlayerView { inv: a.0, ..w },
                item_feedback(count as nat, a.1, item_name(idefs, item_id@)),
            )
        },
        DialogueEffect::RemoveItem { item_id, count } => {
            (PlayerView { inv: spec_remove(w.inv, item_id@, count as nat).0, ..w }, Seq::empty())
        },
        DialogueEffect::GiveCurrants { amount } => {
            (
                PlayerView { currants: w.currants + amount, ..w },
                seq![currants_msg(amount as nat)],
            )
        },
        DialogueEffect::GiveImagination { amount } => {
            (
                PlayerView { imagination: w.imagination + amount, ..w },
                seq![imagination_msg(amount as nat)],
            )
        },
    }
}

/// Taking the items of deliver objectives takes nothing when there are none.
proof fn lemma_no_delivers(inv: Seq<SlotView>, objs: Seq<QuestObjective>, n: nat)
    requires
        n <= objs.len(),
        forall|i: int| 0 <= i < n ==> !(#[trigger] objs[i] is Deliver),
    ensures
        remove_delivers(inv, objs, n) == inv,
    decreases n,
{
    if n > 0 {
        lemma_no_delivers(inv, objs, (n - 1) as nat);
    }
}

/// Granting reward items never lowers what the inventory holds of an item,
/// and leaves an item that is no reward as it was.
proof fn lemma_grant_totals(
    inv: Seq<SlotView>,
    items: Seq<QuestRewardItem>,
    idefs: Map<Seq<char>, ItemDef>,
    n: nat,
    x: Seq<char>,
)
    requires
        n <= items.len(),
    ensures
        total(grant_items(inv, items, idefs, n).0, x) >= total(inv, x),
        (forall|j: int| 0 <= j < n ==> (#[trigger] items[j]).item_id@ != x) ==> total(
            grant_items(inv, items, idefs, n).0,
            x,
        ) == total(inv, x),
    decreases n,
{
    if n > 0 {
        lemma_grant_totals(inv, items, idefs, (n - 1) as nat, x);
        let prev = grant_items(inv, items, idefs, (n - 1) as nat);
        let it = items[n - 1];
        if idefs.contains_key(it.item_id@) {
            let lim = idefs[it.item_id@].stack_limit;
            lemma_add_conserves(prev.0, it.item_id@, it.count as nat, lim, x);
            lemma_add_overflow(prev.0, it.item_id@, it.count as nat, lim as nat);
        }
    }
}

/// Completing a quest without deliver objectives takes nothing from the
/// inventory: what it holds of an item never drops, and an item that is no
/// reward of the quest stays exactly as it was. (Fetch objectives only ask
/// that the items be held.)
pub proof fn lemma_complete_takes_only_delivers(
    e: DialogueEffect,
    w: PlayerView,
    qdefs: Map<Seq<char>, QuestDef>,
    learned: Seq<String>,
    idefs: Map<Seq<char>, ItemDef>,
    x: Seq<char>,
)
    requires
        e is CompleteQuest,
        qdefs.contains_key(e->CompleteQuest_quest_id@) ==> forall|i: int|
            0 <= i < qdefs[e->CompleteQuest_quest_id@].objectives@.len()
                ==> !(#[trigger] qdefs[e->CompleteQuest_quest_id@].objectives@[i] is Deliver),
    ensures
        total(effect_spec(e, w, qdefs, learned, idefs).0.inv, x) >= total(w.inv, x),
        (qdefs.contains_key(e->CompleteQuest_quest_id@) ==> forall|j: int|
            0 <= j < qdefs[e->CompleteQuest_quest_id@].rewards.items@.len()
                ==> (#[trigger] qdefs[e->CompleteQuest_quest_id@].rewards.items@[j]).item_id@ != x) ==> total(
            effect_spec(e, w, qdefs, learned, idefs).0.inv,
            x,
        ) == total(w.inv, x),
{
    let id = e->CompleteQuest_quest_id@;
    if qdefs.contains_key(id) && quest_ready(id, w.active, qdefs, w.inv, learned) {
        let def = qdefs[id];
        lemma_no_delivers(w.inv, def.objectives@, def.objectives@.len());
        lemma_grant_totals(w.inv, def.rewards.items@, idefs, def.rewards.items@.len(), x);
    }
}

/// Purses never shrink under an effect.
pub proof fn lemma_effect_purses(
    e: DialogueEffect,
    w: PlayerView,
    qdefs: Map<Seq<char>, QuestDef>,
    learned: Seq<String>,
    idefs: Map<Seq<char>, ItemDef>,
)
    ensures
        effect_spec(e, w, qdefs, learned, idefs).0.currants >= w.currants,
        effect_spec(e, w, qdefs, learned, idefs).0.imagination >= w.imagination,
{
}

/// The name to show for an item.
fn name_of(item_defs: &ItemDefs, id: &str) -> (r: String)
    requires
        item_defs.wf(),
    ensures
        r@ == item_name(item_defs@, id@),
{
    match item_defs.get(id) {
        Some(d) => d.name.clone(),
        None => owned(id),
    }
}

/// Add items and report what was delivered and what was lost.
fn give_items(
    inventory: &mut Inventory,
    item_id: &str,
    count: u32,
    item_defs: &ItemDefs,
    feedback: &mut Vec<String>,
)
    requires
        item_defs.wf(),
    ensures
        final(inventory)@ == add_result(old(inventory)@, item_id@, count, item_defs@).0,
        strs_view(final(feedback)@) == strs_view(old(feedback)@) + item_feedback(
            count as nat,
            add_result(old(inventory)@, item_id@, count, item_defs@).1,
            item_name(item_defs@, item_id@),
        ),
{
    let ghost inv0 = inventory@;
    let ghost fb0 = strs_view(feedback@);
    let overflow = inventory.add(item_id, count, item_defs);
    proof {
        if item_defs@.contains_key(item_id@) {
            lemma_add_overflow(
                inv0,
                item_id@,
                count as nat,
                item_defs@[item_id@].stack_limit as nat,
            );
        }
    }
    let name = name_of(item_defs, item_id);
    let delivered = count - overflow;
    if delivered > 0 {
        let mut m = owned("+");
        let d = u64_to_decimal(delivered as u64);
        push_str(&mut m, d.as_str());
        push_str(&mut m, " ");
        push_str(&mut m, name.as_str());
        feedback.push(m);
    }
    if overflow > 0 {
        let mut m = owned("Inventory full! Lost ");
        let d = u64_to_decimal(overflow as u64);
        push_str(&mut m, d.as_str());
        push_str(&mut m, " ");
        push_str(&mut m, name.as_str());
        feedback.push(m);
    }
    proof {
        let msgs = item_feedback(
            count as nat,
            add_result(inv0, item_id@, count, item_defs@).1,
            item_name(item_defs@, item_id@),
        );
        assert(strs_view(feedback@) =~= fb0 + msgs);
    }
}

/// Apply a dialogue effect (see `effect_spec`); returns feedback messages.
pub fn apply_effect(
    effect: &DialogueEffect,
    quest_progress: &mut QuestProgress,
    quest_defs: &QuestDefs,
    inventory: &mut Inventory,
    skill_progress: &SkillProgress,
    currants: &mut u64,
    imagination: &mut u64,
    item_defs: &ItemDefs,
) -> (feedback: Vec<String>)
    requires
        old(quest_progress).active.wf(),
        quest_defs.wf(),
        item_defs.wf(),
        effect_spec(
            *effect,
            player_view(*old(quest_progress), old(inventory)@, *old(currants), *old(imagination)),
            quest_defs@,
            skill_progress.learned@,
            item_defs@,
        ).0.currants <= u64::MAX,
        effect_spec(
            *effect,
            player_view(*old(quest_progress), old(inventory)@, *old(currants), *old(imagination)),
            quest_defs@,
            skill_progress.learned@,
            item_defs@,
        ).0.imagination <= u64::MAX,
    ensures
        final(quest_progress).active.wf(),
        (
            player_view(*final(quest_progress), final(inventory)@, *final(currants), *final(imagination)),
            strs_view(feedback@),
        ) == effect_spec(
            *effect,
            player_view(*old(quest_progress), old(inventory)@, *old(currants), *old(imagination)),
            quest_defs@,
            skill_progress.learned@,
            item_defs@,
        ),
{
    let ghost w0 = player_view(*quest_progress, inventory@, *currants, *imagination);
    let mut feedback: Vec<String> = Vec::new();
    match effect {
        DialogueEffect::StartQuest { quest_id } => {
            let ghost old_active = quest_progress.active@;
            proof {
                lemma_has_str_view(quest_progress.completed@, quest_id@);
            }
            match start_quest(quest_id.as_str(), quest_defs, quest_progress) {
                Ok(()) => {
                    let name = match quest_defs.get(quest_id.as_str()) {
                        Some(d) => d.name.clone(),
                        None => quest_id.clone(),
                    };
                    feedback.push(concat2("Quest started: ", name.as_str()));
                    proof {
                        let id = quest_id@;
                        let n = quest_defs@[id].objectives@.len();
                        assert(zeros(n) =~= Seq::new(n, |i: int| 0u32));
                        assert(active_view(quest_progress.active@) =~= active_view(
                            old_active,
                        ).insert(id, (id, zeros(n))));
                        assert(strs_view(feedback@) =~= seq!["Quest started: "@ + quest_defs@[id].name@]);
                    }
                },
                Err(_) => {
                    proof {
                        assert(strs_view(feedback@) =~= Seq::<Seq<char>>::empty());
                    }
                },
            }
        },
        DialogueEffect::CompleteQuest { quest_id } => {
            let def = match quest_defs.get(quest_id.as_str()) {
                Some(d) => d,
                None => {
                    proof {
                        assert(strs_view(feedback@) =~= Seq::<Seq<char>>::empty());
                    }
                    return feedback;
                },
            };
            if !is_quest_ready(
                quest_id.as_str(),
                quest_progress,
                quest_defs,
                inventory,
                skill_progress,
            ) {
                proof {
                    assert(strs_view(feedback@) =~= Seq::<Seq<char>>::empty());
                }
                return feedback;
            }
            let ghost objs = def.objectives@;
            let n = def.objectives.len();
            let mut i: usize = 0;
            while i < n
                invariant
                    n == objs.len(),
                    objs == def.objectives@,
                    0 <= i <= n,
                    inventory@ == remove_delivers(w0.inv, objs, i as nat),
                decreases n - i,
            {
                match &def.objectives[i] {
                    QuestObjective::Deliver { item_id, count, .. } => {
                        inventory.remove_item(item_id.as_str(), *count);
                    },
                    _ => {},
                }
                i = i + 1;
            }
            let rc = def.rewards.currants;
            let ri = def.rewards.imagination;
            if rc > 0 {
                *currants = *currants + rc;
                let mut m = owned("+");
                let d = u64_to_decimal(rc);
                push_str(&mut m, d.as_str());
                push_str(&mut m, " Currants");
                feedback.push(m);
            }
            if ri > 0 {
                *imagination = *imagination + ri;
                let mut m = owned("+");
                let d = u64_to_decimal(ri);
                push_str(&mut m, d.as_str());
                push_str(&mut m, " Imagination");
                feedback.push(m);
            }
            let ghost fb_purse = strs_view(feedback@);
            proof {
                assert(fb_purse =~= msg_if(rc as nat, currants_msg(rc as nat)) + msg_if(
                    ri as nat,
                    imagination_msg(ri as nat),
                ));
            }
            let ghost inv1 = inventory@;
            let ghost items = def.rewards.items@;
            let m = def.rewards.items.len();
            let mut j: usize = 0;
            while j < m
                invariant
                    m == items.len(),
                    items == def.rewards.items@,
                    0 <= j <= m,
                    item_defs.wf(),
                    inventory@ == grant_items(inv1, items, item_defs@, j as nat).0,
                    strs_view(feedback@) == fb_purse + grant_items(
                        inv1,
                        items,
                        item_defs@,
                        j as nat,
                    ).1,
                decreases m - j,
            {
                let it = &def.rewards.items[j];
                give_items(inventory, it.item_id.as_str(), it.count, item_defs, &mut feedback);
                proof {
                    let g = grant_items(inv1, items, item_defs@, j as nat);
                    let a = add_result(g.0, items[j as int].item_id@, items[j as int].count, item_defs@);
                    assert(fb_purse + g.1 + item_feedback(
                        items[j as int].count as nat,
                        a.1,
                        item_name(item_defs@, items[j as int].item_id@),
                    ) =~= fb_purse + (g.1 + item_feedback(
                        items[j as int].count as nat,
                        a.1,
                        item_name(item_defs@, items[j as int].item_id@),
                    )));
                }
                j = j + 1;
            }
            let ghost active0 = quest_progress.active@;
            let ghost completed0 = quest_progress.completed@;
            quest_progress.active.remove(quest_id.as_str());
            quest_progress.completed.push(quest_id.clone());
            let done = concat2("Quest complete: ", def.name.as_str());
            feedback.push(done);
            proof {
                assert(active_view(quest_progress.active@) =~= active_view(active0).remove(
                    quest_id@,
                ));
                assert(strs_view(quest_progress.completed@) =~= strs_view(completed0).push(
                    quest_id@,
                ));
                let g = grant_items(inv1, items, item_defs@, m as nat);
                assert(strs_view(feedback@) =~= fb_purse + g.1 + seq![
                    "Quest complete: "@ + def.name@,
                ]);
            }
        },
        DialogueEffect::GiveItem { item_id, count } => {
            give_items(inventory, item_id.as_str(), *count, item_defs, &mut feedback);
            proof {
                assert(strs_view(feedback@) =~= Seq::<Seq<char>>::empty() + item_feedback(
                    *count as nat,
                    add_result(w0.inv, item_id@, *count, item_defs@).1,
                    item_name(item_defs@, item_id@),
                ));
            }
        },
        DialogueEffect::RemoveItem { item_id, count } => {
            inventory.remove_item(item_id.as_str(), *count);
            proof {
                assert(strs_view(feedback@) =~= Seq::<Seq<char>>::empty());
            }
        },
        DialogueEffect::GiveCurrants { amount } => {
            *currants = *currants + *amount;
            let mut m = owned("+");
            let d = u64_to_decimal(*amount);
            push_str(&mut m, d.as_str());
            push_str(&mut m, " Currants");
            feedback.push(m);
            proof {
                assert(strs_view(feedback@) =~= seq![currants_msg(*amount as nat)]);
            }
        },
        DialogueEffect::GiveImagination { amount } => {
            *imagination = *imagination + *amount;
            let mut m = owned("+");
            let d = u64_to_decimal(*amount);
            push_str(&mut m, d.as_str());
            push_str(&mut m, " Imagination");
            feedback.push(m);
            proof {
                assert(strs_view(feedback@) =~= seq![imagination_msg(*amount as nat)]);
            }
        },
    }
    feedback
}

// ---------------------------------------------------------------------------
// Choosing an option
// ---------------------------------------------------------------------------

/// The player state and messages after the first `n` effects of a list.
pub open spec fn effects_spec(
    es: Seq<DialogueEffect>,
    n: nat,
    w: PlayerView,
    qdefs: Map<Seq<char>, QuestDef>,
    learned: Seq<String>,
    idefs: Map<Seq<char>, ItemDef>,
) -> (PlayerView, Seq<Seq<char>>)
    decreases n,
{
    if n == 0 {
        (w, Seq::empty())
    } else {
        let p = effects_spec(es, (n - 1) as nat, w, qdefs, learned, idefs);
        let r = effect_spec(es[n - 1], p.0, qdefs, learned, idefs);
        (r.0, p.1 + r.1)
    }
}

/// Purses grow along a list of effects.
pub proof fn lemma_effects_purses(
    es: Seq<DialogueEffect>,
    i: nat,
    n: nat,
    w: PlayerView,
    qdefs: Map<Seq<char>, QuestDef>,
    learned: Seq<String>,
    idefs: Map<Seq<char>, ItemDef>,
)
    requires
        i <= n,
    ensures
        effects_spec(es, i, w, qdefs, learned, idefs).0.currants <= effects_spec(
            es,
            n,
            w,
            qdefs,
            learned,
            idefs,
        ).0.currants,
        effects_spec(es, i, w, qdefs, learned, idefs).0.imagination <= effects_spec(
            es,
            n,
            w,
            qdefs,
            learned,
            idefs,
        ).0.imagination,
    decreases n,
{
    if i < n {
        lemma_effects_purses(es, i, (n - 1) as nat, w, qdefs, learned, idefs);
        let p = effects_spec(es, (n - 1) as nat, w, qdefs, learned, idefs);
        lemma_effect_purses(es[n - 1], p.0, qdefs, learned, idefs);
    }
}

/// The option that a choice selects, if tree, node and option exist.
pub open spec fn chosen_option(
    defs: Map<Seq<char>, crate::quest::types::DialogueTreeDef>,
    tree_id: Seq<char>,
    node_id: Seq<char>,
    index: int,
) -> Option<DialogueOptionDef> {
    if defs.contains_key(tree_id) && defs[tree_id].nodes@.contains_key(node_id) && 0 <= index
        < defs[tree_id].nodes@[node_id].options@.len() {
        Some(defs[tree_id].nodes@[node_id].options@[index])
    } else {
        None
    }
}

/// The messages of an ended dialogue.
pub open spec fn ended_with(r: DialogueChoiceResult, fb: Seq<Seq<char>>) -> bool {
    r matches DialogueChoiceResult::End { feedback } && strs_view(feedback@) == fb
}

/// Process a dialogue choice: `option_index` indexes the node's full option
/// list. An option whose conditions do not hold (now) is refused. Otherwise
/// its effects are applied in order, and the dialogue continues at its next
/// node when that node exists, or ends.
pub fn evaluate_choice(
    tree_id: &str,
    current_node: &str,
    option_index: usize,
    defs: &DialogueDefs,
    quest_progress: &mut QuestProgress,
    quest_defs: &QuestDefs,
    inventory: &mut Inventory,
    skill_progress: &SkillProgress,
    currants: &mut u64,
    imagination: &mut u64,
    item_defs: &ItemDefs,
    entity_id: &str,
) -> (r: DialogueChoiceResult)
    requires
        dialogue_defs_wf(*defs),
        old(quest_progress).active.wf(),
        quest_defs.wf(),
        item_defs.wf(),
        chosen_option(defs@, tree_id@, current_node@, option_index as int) matches Some(opt) ==> {
            let e = effects_spec(
                opt.effects@,
                opt.effects@.len(),
                player_view(*old(quest_progress), old(inventory)@, *old(currants), *old(imagination)),
                quest_defs@,
                skill_progress.learned@,
                item_defs@,
            ).0;
            e.currants <= u64::MAX && e.imagination <= u64::MAX
        },
    ensures
        final(quest_progress).active.wf(),
        !defs@.contains_key(tree_id@) ==> ended_with(r, seq!["Dialogue tree not found."@]),
        defs@.contains_key(tree_id@) && !defs@[tree_id@].nodes@.contains_key(current_node@)
            ==> ended_with(r, seq!["Dialogue node not found."@]),
        defs@.contains_key(tree_id@) && defs@[tree_id@].nodes@.contains_key(current_node@)
            && option_index >= defs@[tree_id@].nodes@[current_node@].options@.len() ==> ended_with(
            r,
            seq!["Invalid option."@],
        ),
        match chosen_option(defs@, tree_id@, current_node@, option_index as int) {
            None => *final(quest_progress) == *old(quest_progress) && *final(inventory) == *old(
                inventory,
            ) && *final(currants) == *old(currants) && *final(imagination) == *old(imagination),
            Some(opt) => if !all_hold(
                opt.conditions@,
                player_view(*old(quest_progress), old(inventory)@, 0, 0),
                quest_defs@,
                skill_progress.learned@,
            ) {
                &&& ended_with(r, seq!["Option not available."@])
                &&& *final(quest_progress) == *old(quest_progress)
                &&& *final(inventory) == *old(inventory)
                &&& *final(currants) == *old(currants)
                &&& *final(imagination) == *old(imagination)
            } else {
                let e = effects_spec(
                    opt.effects@,
                    opt.effects@.len(),
                    player_view(*old(quest_progress), old(inventory)@, *old(currants), *old(imagination)),
                    quest_defs@,
                    skill_progress.learned@,
                    item_defs@,
                );
                let nodes = defs@[tree_id@].nodes@;
                &&& player_view(*final(quest_progress), final(inventory)@, *final(currants), *final(imagination)) == e.0
                &&& match opt.next {
                    Some(nid) => if nodes.contains_key(nid@) {
                        r matches DialogueChoiceResult::Continue { frame, feedback, next_node_id }
                            && strs_view(feedback@) == e.1 && next_node_id@ == nid@ && frame_of(
                            frame,
                            nodes[nid@],
                            player_view(*final(quest_progress), final(inventory)@, 0, 0),
                            quest_defs@,
                            skill_progress.learned@,
                            entity_id@,
                        )
                    } else {
                        ended_with(r, e.1)
                    },
                    None => ended_with(r, e.1),
                }
            },
        },
{
    let tree = match defs.get(tree_id) {
        Some(t) => t,
        None => {
            let mut fb = Vec::new();
            fb.push(owned("Dialogue tree not found."));
            proof {
                assert(strs_view(fb@) =~= seq!["Dialogue tree not found."@]);
            }
            return DialogueChoiceResult::End { feedback: fb };
        },
    };
    let node = match tree.nodes.get(current_node) {
        Some(n) => n,
        None => {
            let mut fb = Vec::new();
            fb.push(owned("Dialogue node not found."));
            proof {
                assert(strs_view(fb@) =~= seq!["Dialogue node not found."@]);
            }
            return DialogueChoiceResult::End { feedback: fb };
        },
    };
    if option_index >= node.options.len() {
        let mut fb = Vec::new();
        fb.push(owned("Invalid option."));
        proof {
            assert(strs_view(fb@) =~= seq!["Invalid option."@]);
        }
        return DialogueChoiceResult::End { feedback: fb };
    }
    let option = &node.options[option_index];
    if !all_conditions(&option.conditions, quest_progress, quest_defs, inventory, skill_progress) {
        let mut fb = Vec::new();
        fb.push(owned("Option not available."));
        proof {
            assert(strs_view(fb@) =~= seq!["Option not available."@]);
        }
        return DialogueChoiceResult::End { feedback: fb };
    }
    let ghost w0 = player_view(*quest_progress, inventory@, *currants, *imagination);
    let ghost es = option.effects@;
    let mut feedback: Vec<String> = Vec::new();
    let n = option.effects.len();
    let mut i: usize = 0;
    while i < n
        invariant
            n == es.len(),
            es == option.effects@,
            0 <= i <= n,
            quest_progress.active.wf(),
            quest_defs.wf(),
            item_defs.wf(),
            effects_spec(es, n as nat, w0, quest_defs@, skill_progress.learned@, item_defs@).0.currants
                <= u64::MAX,
            effects_spec(es, n as nat, w0, quest_defs@, skill_progress.learned@, item_defs@).0.imagination
                <= u64::MAX,
            player_view(*quest_progress, inventory@, *currants, *imagination) == effects_spec(
                es,
                i as nat,
                w0,
                quest_defs@,
                skill_progress.learned@,
                item_defs@,
            ).0,
            strs_view(feedback@) == effects_spec(
                es,
                i as nat,
                w0,
                quest_defs@,
                skill_progress.learned@,
                item_defs@,
            ).1,
        decreases n - i,
    {
        proof {
            lemma_effects_purses(
                es,
                (i + 1) as nat,
                n as nat,
                w0,
                quest_defs@,
                skill_progress.learned@,
                item_defs@,
            );
        }
        let mut msgs = apply_effect(
            &option.effects[i],
            quest_progress,
            quest_defs,
            inventory,
            skill_progress,
            currants,
            imagination,
            item_defs,
        );
        let ghost before = strs_view(feedback@);
        let ghost added = strs_view(msgs@);
        feedback.append(&mut msgs);
        proof {
            assert(strs_view(feedback@) =~= before + added);
        }
        i = i + 1;
    }
    match &option.next {
        Some(next_id) => {
            match tree.nodes.get(next_id.as_str()) {
                Some(next_node) => {
                    let frame = build_frame(
                        next_node,
                        quest_progress,
                        quest_defs,
                        inventory,
                        skill_progress,
                        entity_id,
                    );
                    DialogueChoiceResult::Continue {
                        frame,
                        feedback,
                        next_node_id: next_id.clone(),
                    }
                },
                None => DialogueChoiceResult::End { feedback },
            }
        },
        None => DialogueChoiceResult::End { feedback },
    }
}

} // verus!
