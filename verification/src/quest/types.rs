use vstd::prelude::*;

use crate::strmap::StrMap;

verus! {

// ---------------------------------------------------------------------------
// Dialogue definitions
// ---------------------------------------------------------------------------

/// A full dialogue tree for one NPC.
pub struct DialogueTreeDef {
    pub start_node: String,
    pub nodes: StrMap<DialogueNodeDef>,
}

/// A single node in a dialogue tree.
pub struct DialogueNodeDef {
    pub speaker: String,
    pub text: String,
    pub options: Vec<DialogueOptionDef>,
}

/// A selectable option within a dialogue node.
pub struct DialogueOptionDef {
    pub text: String,
    /// Next node id, or None to end the dialogue.
    pub next: Option<String>,
    /// Conditions that must all hold for this option to appear.
    pub conditions: Vec<DialogueCondition>,
    /// Effects applied when this option is chosen.
    pub effects: Vec<DialogueEffect>,
}

/// Conditions for dialogue option visibility.
pub enum DialogueCondition {
    QuestNotStarted { quest_id: String },
    QuestActive { quest_id: String },
    /// Quest is active and all objectives are complete (ready for turn-in).
    QuestReady { quest_id: String },
    QuestComplete { quest_id: String },
    HasItem { item_id: String, count: u32 },
    SkillLearned { skill_id: String },
}

/// Side effects of choosing a dialogue option.
pub enum DialogueEffect {
    StartQuest { quest_id: String },
    CompleteQuest { quest_id: String },
    GiveItem { item_id: String, count: u32 },
    RemoveItem { item_id: String, count: u32 },
    GiveCurrants { amount: u64 },
    GiveImagination { amount: u64 },
}

/// Dialogue trees by id.
pub type DialogueDefs = StrMap<DialogueTreeDef>;

/// Every map inside the dialogue definitions is well formed.
pub open spec fn dialogue_defs_wf(defs: DialogueDefs) -> bool {
    &&& defs.wf()
    &&& forall|k: Seq<char>| #[trigger] defs@.contains_key(k) ==> defs@[k].nodes.wf()
}

// ---------------------------------------------------------------------------
// Quest definitions
// ---------------------------------------------------------------------------

/// A quest definition.
pub struct QuestDef {
    pub id: String,
    pub name: String,
    pub description: String,
    pub objectives: Vec<QuestObjective>,
    pub rewards: QuestRewards,
    pub turn_in_npc: String,
}

/// An objective the player must complete.
pub enum QuestObjective {
    Fetch { item_id: String, count: u32, description: String },
    Craft { recipe_id: String, count: u32, description: String },
    Deliver { item_id: String, count: u32, npc_id: String, description: String },
    Visit { street_id: String, description: String },
    LearnSkill { skill_id: String, description: String },
}

/// The target count of an objective.
pub open spec fn objective_target(o: QuestObjective) -> u32 {
    match o {
        QuestObjective::Fetch { count, .. } => count,
        QuestObjective::Craft { count, .. } => count,
        QuestObjective::Deliver { count, .. } => count,
        QuestObjective::Visit { .. } => 1,
        QuestObjective::LearnSkill { .. } => 1,
    }
}

/// The description of an objective.
pub open spec fn objective_description(o: QuestObjective) -> Seq<char> {
    match o {
        QuestObjective::Fetch { description, .. } => description@,
        QuestObjective::Craft { description, .. } => description@,
        QuestObjective::Deliver { description, .. } => description@,
        QuestObjective::Visit { description, .. } => description@,
        QuestObjective::LearnSkill { description, .. } => description@,
    }
}

impl QuestObjective {
    /// The target count for this objective.
    pub fn target_count(&self) -> (n: u32)
        ensures
            n == objective_target(*self),
    {
        match self {
            QuestObjective::Fetch { count, .. } => *count,
            QuestObjective::Craft { count, .. } => *count,
            QuestObjective::Deliver { count, .. } => *count,
            QuestObjective::Visit { .. } => 1,
            QuestObjective::LearnSkill { .. } => 1,
        }
    }

    /// Human-readable description of this objective.
    pub fn description(&self) -> (d: &str)
        ensures
            d@ == objective_description(*self),
    {
        match self {
            QuestObjective::Fetch { description, .. } => description.as_str(),
            QuestObjective::Craft { description, .. } => description.as_str(),
            QuestObjective::Deliver { description, .. } => description.as_str(),
            QuestObjective::Visit { description, .. } => description.as_str(),
            QuestObjective::LearnSkill { description, .. } => description.as_str(),
        }
    }
}

/// Rewards granted on quest completion.
pub struct QuestRewards {
    pub currants: u64,
    pub imagination: u64,
    pub items: Vec<QuestRewardItem>,
}

/// One item reward.
pub struct QuestRewardItem {
    pub item_id: String,
    pub count: u32,
}

/// Quest definitions by id.
pub type QuestDefs = StrMap<QuestDef>;

// ---------------------------------------------------------------------------
// Quest progress
// ---------------------------------------------------------------------------

/// A player's quest progress.
pub struct QuestProgress {
    /// Quest ids fully completed.
    pub completed: Vec<String>,
    /// Active quests with per-objective progress.
    pub active: StrMap<ActiveQuest>,
}

impl QuestProgress {
    /// No quest active and none completed.
    pub fn default() -> (p: Self)
        ensures
            p.completed@.len() == 0,
            p.active.wf(),
            p.active@ == Map::<Seq<char>, ActiveQuest>::empty(),
    {
        QuestProgress { completed: Vec::new(), active: StrMap::new() }
    }
}

/// Tracking of one active quest.
pub struct ActiveQuest {
    pub quest_id: String,
    /// Per-objective progress, parallel to the quest's objectives.
    pub objective_progress: Vec<u32>,
}

impl View for ActiveQuest {
    type V = (Seq<char>, Seq<u32>);

    open spec fn view(&self) -> (Seq<char>, Seq<u32>) {
        (self.quest_id@, self.objective_progress@)
    }
}

/// Active quests by id, each as (quest id, per-objective progress).
pub open spec fn active_view(m: Map<Seq<char>, ActiveQuest>) -> Map<Seq<char>, (Seq<char>, Seq<u32>)> {
    m.map_values(|a: ActiveQuest| a@)
}

/// The characters of each string.
pub open spec fn strs_view(v: Seq<String>) -> Seq<Seq<char>> {
    v.map_values(|s: String| s@)
}

// ---------------------------------------------------------------------------
// Runtime dialogue session
// ---------------------------------------------------------------------------

/// An in-progress dialogue session.
pub struct ActiveDialogue {
    pub tree_id: String,
    pub entity_id: String,
    pub current_node: String,
}

// ---------------------------------------------------------------------------
// Frames sent to the frontend
// ---------------------------------------------------------------------------

/// A dialogue node evaluated for display (options already filtered).
pub struct DialogueFrame {
    pub speaker: String,
    pub text: String,
    pub options: Vec<DialogueOptionFrame>,
    pub entity_id: String,
}

/// A visible dialogue option, with its index in the node's full option list.
pub struct DialogueOptionFrame {
    pub text: String,
    pub index: usize,
}

/// Result of choosing a dialogue option.
pub enum DialogueChoiceResult {
    /// The dialogue continues at `next_node_id`.
    Continue { frame: DialogueFrame, feedback: Vec<String>, next_node_id: String },
    /// The dialogue ended.
    End { feedback: Vec<String> },
}

/// Full quest log.
pub struct QuestLogFrame {
    pub active: Vec<QuestEntry>,
    pub completed: Vec<QuestCompletedEntry>,
}

/// An active quest in the quest log.
pub struct QuestEntry {
    pub quest_id: String,
    pub name: String,
    pub description: String,
    pub objectives: Vec<ObjectiveEntry>,
}

/// A single objective's progress.
pub struct ObjectiveEntry {
    pub description: String,
    pub current: u32,
    pub target: u32,
    pub complete: bool,
}

/// A completed quest entry.
pub struct QuestCompletedEntry {
    pub quest_id: String,
    pub name: String,
}

/// Quest summary sent with every rendered frame.
pub struct QuestProgressFrame {
    pub active_count: usize,
}

} // verus!
