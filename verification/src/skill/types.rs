use vstd::prelude::*;

use crate::strmap::StrMap;

verus! {

/// A skill that can be learned.
pub struct SkillDef {
    pub id: String,
    pub name: String,
    pub description: String,
    /// Skill ids that must be learned before this one can be started.
    pub prerequisites: Vec<String>,
    /// Imagination spent to begin learning.
    pub imagination_cost: u64,
    /// Wall-clock seconds that learning takes.
    pub learn_time_secs: u64,
    /// Recipe ids unlocked by learning this skill.
    pub unlocks_recipes: Vec<String>,
}

/// Skills by id.
pub type SkillDefs = StrMap<SkillDef>;

/// A player's skill progress.
pub struct SkillProgress {
    /// Skill ids fully learned.
    pub learned: Vec<String>,
    /// The skill being learned, if any.
    pub learning: Option<LearningSlot>,
}

/// A skill being learned, with the Unix time (seconds) at which it completes.
pub struct LearningSlot {
    pub skill_id: String,
    pub complete_at: i64,
}

impl SkillProgress {
    /// No skill learned and none being learned.
    pub fn default() -> (p: Self)
        ensures
            p.learned@.len() == 0,
            p.learning is None,
    {
        SkillProgress { learned: Vec::new(), learning: None }
    }
}

} // verus!
