use vstd::prelude::*;

use crate::skill::types::{LearningSlot, SkillDef, SkillDefs, SkillProgress};
use crate::text::{concat2, has_str, owned, u64_to_decimal, vec_has_str};

verus! {

/// Why a skill operation was refused.
#[derive(Debug)]
pub enum SkillError {
    UnknownSkill,
    AlreadyLearned,
    PrerequisiteNotMet { missing: String },
    InsufficientImagination { need: u64, have: u64 },
    AlreadyLearning,
    NotLearning,
}

impl SkillError {
    /// The message shown to the player.
    pub fn message(&self) -> (m: String)
        ensures
            m@ == error_message(*self),
    {
        match self {
            SkillError::UnknownSkill => owned("Unknown skill"),
            SkillError::AlreadyLearned => owned("Skill already learned"),
            SkillError::PrerequisiteNotMet { missing } => concat2(
                "Prerequisite not met: ",
                missing.as_str(),
            ),
            SkillError::InsufficientImagination { need, have } => {
                let mut m = owned("Need ");
                let n = u64_to_decimal(*need);
                crate::text::push_str(&mut m, n.as_str());
                crate::text::push_str(&mut m, " imagination, have ");
                let h = u64_to_decimal(*have);
                crate::text::push_str(&mut m, h.as_str());
                m
            },
            SkillError::AlreadyLearning => owned("Already learning a skill"),
            SkillError::NotLearning => owned("Not currently learning a skill"),
        }
    }
}

/// The message of each error.
pub open spec fn error_message(e: SkillError) -> Seq<char> {
    match e {
        SkillError::UnknownSkill => "Unknown skill"@,
        SkillError::AlreadyLearned => "Skill already learned"@,
        SkillError::PrerequisiteNotMet { missing } => "Prerequisite not met: "@ + missing@,
        SkillError::InsufficientImagination { need, have } => "Need "@ + crate::text::decimal(
            need as nat,
        ) + " imagination, have "@ + crate::text::decimal(have as nat),
        SkillError::AlreadyLearning => "Already learning a skill"@,
        SkillError::NotLearning => "Not currently learning a skill"@,
    }
}

/// Index of the first prerequisite not yet learned, or the list's length.
pub open spec fn first_missing(prereqs: Seq<String>, learned: Seq<String>) -> int
    decreases prereqs.len(),
{
    if prereqs.len() == 0 {
        0
    } else if !has_str(learned, prereqs[0]@) {
        0
    } else {
        1 + first_missing(prereqs.drop_first(), learned)
    }
}

/// The checks of `can_learn`, in order, as a statement about the result.
pub open spec fn can_learn_result(
    id: Seq<char>,
    defs: Map<Seq<char>, SkillDef>,
    learned: Seq<String>,
    learning: bool,
    imagination: u64,
    r: Result<(), SkillError>,
) -> bool {
    if !defs.contains_key(id) {
        r matches Err(SkillError::UnknownSkill)
    } else if has_str(learned, id) {
        r matches Err(SkillError::AlreadyLearned)
    } else if learning {
        r matches Err(SkillError::AlreadyLearning)
    } else {
        let pre = defs[id].prerequisites@;
        let m = first_missing(pre, learned);
        if m < pre.len() {
            r matches Err(SkillError::PrerequisiteNotMet { missing }) && missing@ == pre[m]@
        } else if imagination < defs[id].imagination_cost {
            r matches Err(SkillError::InsufficientImagination { need, have }) && need
                == defs[id].imagination_cost && have == imagination
        } else {
            r is Ok
        }
    }
}

proof fn lemma_first_missing_bounds(prereqs: Seq<String>, learned: Seq<String>)
    ensures
        0 <= first_missing(prereqs, learned) <= prereqs.len(),
        forall|j: int|
            0 <= j < first_missing(prereqs, learned) ==> has_str(learned, #[trigger] prereqs[j]@),
        first_missing(prereqs, learned) < prereqs.len() ==> !has_str(
            learned,
            prereqs[first_missing(prereqs, learned)]@,
        ),
    decreases prereqs.len(),
{
    if prereqs.len() > 0 && has_str(learned, prereqs[0]@) {
        lemma_first_missing_bounds(prereqs.drop_first(), learned);
        assert forall|j: int| 0 <= j < first_missing(prereqs, learned) implies has_str(
            learned,
            #[trigger] prereqs[j]@,
        ) by {
            if j > 0 {
                assert(prereqs[j] == prereqs.drop_first()[j - 1]);
            }
        }
    }
}

/// Check whether a skill can be started now, without changing anything.
/// The checks run in this order: the skill exists, it is not learned yet,
/// nothing else is being learned, its prerequisites are learned (the first
/// missing one is reported), and there is enough imagination.
pub fn can_learn(skill_id: &str, skill_defs: &SkillDefs, progress: &SkillProgress, imagination: u64)
    -> (r: Result<(), SkillError>)
    requires
        skill_defs.wf(),
    ensures
        can_learn_result(
            skill_id@,
            skill_defs@,
            progress.learned@,
            progress.learning is Some,
            imagination,
            r,
        ),
{
    let def = match skill_defs.get(skill_id) {
        Some(d) => d,
        None => {
            return Err(SkillError::UnknownSkill);
        },
    };
    if vec_has_str(&progress.learned, skill_id) {
        return Err(SkillError::AlreadyLearned);
    }
    if progress.learning.is_some() {
        return Err(SkillError::AlreadyLearning);
    }
    let n = def.prerequisites.len();
    let mut i: usize = 0;
    proof {
        lemma_first_missing_bounds(def.prerequisites@, progress.learned@);
    }
    while i < n
        invariant
            n == def.prerequisites@.len(),
            skill_defs@.contains_key(skill_id@),
            *def == skill_defs@[skill_id@],
            !has_str(progress.learned@, skill_id@),
            progress.learning is None,
            0 <= i <= n,
            i <= first_missing(def.prerequisites@, progress.learned@),
            0 <= first_missing(def.prerequisites@, progress.learned@) <= n,
            forall|j: int|
                0 <= j < first_missing(def.prerequisites@, progress.learned@) ==> has_str(
                    progress.learned@,
                    #[trigger] def.prerequisites@[j]@,
                ),
            first_missing(def.prerequisites@, progress.learned@) < n ==> !has_str(
                progress.learned@,
                def.prerequisites@[first_missing(def.prerequisites@, progress.learned@)]@,
            ),
        decreases n - i,
    {
        if !vec_has_str(&progress.learned, def.prerequisites[i].as_str()) {
            return Err(SkillError::PrerequisiteNotMet { missing: def.prerequisites[i].clone() });
        }
        i = i + 1;
    }
    if imagination < def.imagination_cost {
        return Err(SkillError::InsufficientImagination {
            need: def.imagination_cost,
            have: imagination,
        });
    }
    Ok(())
}

/// The current Unix time in whole seconds.
///
/// Trusted: reads `std::time::SystemTime::now()` and takes its distance from
/// What starting to learn `id` does: the checks of `can_learn` decide;
/// a refusal changes nothing; on success the cost is deducted, the learned
/// list stays and the learning slot holds `id`.
pub open spec fn start_outcome(
    id: Seq<char>,
    defs: Map<Seq<char>, SkillDef>,
    p0: SkillProgress,
    i0: u64,
    r: Result<(), SkillError>,
    p1: SkillProgress,
    i1: u64,
) -> bool {
    &&& can_learn_result(id, defs, p0.learned@, p0.learning is Some, i0, r)
    &&& r is Err ==> p1 == p0 && i1 == i0
    &&& r is Ok ==> {
        &&& i1 == i0 - defs[id].imagination_cost
        &&& p1.learned == p0.learned
        &&& p1.learning matches Some(slot) && slot.skill_id@ == id
    }
}

/// What cancelling does: without a skill being learned it is refused and
/// nothing changes; otherwise the slot is cleared and the skill's cost is
/// refunded, if the skill is still defined.
pub open spec fn cancel_outcome(
    defs: Map<Seq<char>, SkillDef>,
    p0: SkillProgress,
    i0: u64,
    r: Result<(), SkillError>,
    p1: SkillProgress,
    i1: u64,
) -> bool {
    match p0.learning {
        None => r matches Err(SkillError::NotLearning) && p1 == p0 && i1 == i0,
        Some(slot) => {
            &&& r is Ok
            &&& p1.learning is None
            &&& p1.learned == p0.learned
            &&& i1 == if defs.contains_key(slot.skill_id@) {
                i0 + defs[slot.skill_id@].imagination_cost
            } else {
                i0 as int
            }
        },
    }
}

/// What completing does: the skill being learned joins the learned list
/// and the slot is cleared; `id` is that skill.
pub open spec fn complete_outcome(p0: SkillProgress, id: String, p1: SkillProgress) -> bool {
    &&& id@ == p0.learning->0.skill_id@
    &&& p1.learned@ == p0.learned@.push(id)
    &&& p1.learning is None
}

/// Cancelling right after a successful start undoes it: the imagination
/// spent is refunded in full and the progress is as it was.
pub proof fn lemma_cancel_undoes_start(
    id: Seq<char>,
    defs: Map<Seq<char>, SkillDef>,
    p0: SkillProgress,
    i0: u64,
    r1: Result<(), SkillError>,
    p1: SkillProgress,
    i1: u64,
    r2: Result<(), SkillError>,
    p2: SkillProgress,
    i2: u64,
)
    requires
        start_outcome(id, defs, p0, i0, r1, p1, i1),
        r1 is Ok,
        cancel_outcome(defs, p1, i1, r2, p2, i2),
    ensures
        r2 is Ok,
        i2 == i0,
        p2 == p0,
{
}

/// Completing right after a successful start learns exactly that skill:
/// it joins the learned list, nothing is being learned, and the cost stays
/// spent.
pub proof fn lemma_complete_after_start(
    id: Seq<char>,
    defs: Map<Seq<char>, SkillDef>,
    p0: SkillProgress,
    i0: u64,
    r1: Result<(), SkillError>,
    p1: SkillProgress,
    i1: u64,
    done: String,
    p2: SkillProgress,
)
    requires
        start_outcome(id, defs, p0, i0, r1, p1, i1),
        r1 is Ok,
        complete_outcome(p1, done, p2),
    ensures
        done@ == id,
        p2.learned@ == p0.learned@.push(done),
        p2.learning is None,
        i1 + defs[id].imagination_cost == i0,
{
}

/// Trusted: the whole seconds since the Unix epoch, through
/// `SystemTime::now`, `duration_since(UNIX_EPOCH)` and `Duration::as_secs`;
/// 0 when the clock reads before the epoch. Nothing is promised of the value
/// beyond its type: it is the clock.
#[verifier::external_body]
fn unix_now_secs() -> u64 {
    match std::time::SystemTime::now().duration_since(std::time::UNIX_EPOCH) {
        Ok(d) => d.as_secs(),
        Err(_) => 0,
    }
}

/// The clock as a Unix time in seconds: never before the epoch, and held at
/// the largest `i64` past it.
fn clock_now() -> (r: i64)
    ensures
        r >= 0,
{
    let s = unix_now_secs();
    if s > 9_223_372_036_854_775_807u64 {
        i64::MAX
    } else {
        s as i64
    }
}

/// Whether learning `def` from time `now` ends at a representable time.
pub open spec fn end_fits(now: i64, learn_time_secs: u64) -> bool {
    i64::MIN <= now + (learn_time_secs as i64) <= i64::MAX
}

/// When learning started at `now` ends: `learn_time_secs` later, held at the
/// largest `i64` where that is not representable.
pub open spec fn clamped_end(now: i64, learn_time_secs: u64) -> i64 {
    if end_fits(now, learn_time_secs) {
        (now + (learn_time_secs as i64)) as i64
    } else {
        i64::MAX
    }
}

/// Begin learning a skill at Unix time `now`: on success the cost is deducted
/// and the learning slot ends `learn_time_secs` after `now`; on refusal
/// nothing changes.
pub fn start_learning_at(
    skill_id: &str,
    skill_defs: &SkillDefs,
    progress: &mut SkillProgress,
    imagination: &mut u64,
    now: i64,
) -> (r: Result<(), SkillError>)
    requires
        skill_defs.wf(),
        skill_defs@.contains_key(skill_id@) ==> end_fits(
            now,
            skill_defs@[skill_id@].learn_time_secs,
        ),
    ensures
        start_outcome(skill_id@, skill_defs@, *old(progress), *old(imagination), r, *final(progress), *final(imagination)),
        r is Ok ==> final(progress).learning->0.complete_at == now + (skill_defs@[skill_id@].learn_time_secs as i64),
{
    match can_learn(skill_id, skill_defs, progress, *imagination) {
        Err(e) => {
            return Err(e);
        },
        Ok(()) => {},
    }
    let def = skill_defs.get(skill_id).unwrap();
    *imagination = *imagination - def.imagination_cost;
    let lt = #[verifier::truncate] (def.learn_time_secs as i64);
    progress.learning = Some(LearningSlot { skill_id: owned(skill_id), complete_at: now + lt });
    Ok(())
}

/// Begin learning a skill now (by the system clock): the checks of
/// `can_learn`, then the cost is deducted and the learning slot is set to end
/// `learn_time_secs` after the clock's reading, which is never before the
/// epoch. Where the end time would not be representable it is held at the
/// largest one.
pub fn start_learning(
    skill_id: &str,
    skill_defs: &SkillDefs,
    progress: &mut SkillProgress,
    imagination: &mut u64,
) -> (r: Result<(), SkillError>)
    requires
        skill_defs.wf(),
    ensures
        start_outcome(skill_id@, skill_defs@, *old(progress), *old(imagination), r, *final(progress), *final(imagination)),
        r is Ok ==> exists|now: i64|
            now >= 0 && #[trigger] clamped_end(now, skill_defs@[skill_id@].learn_time_secs)
                == final(progress).learning->0.complete_at,
{
    let now = clock_now();
    let lt: i64 = match skill_defs.get(skill_id) {
        Some(def) => #[verifier::truncate] (def.learn_time_secs as i64),
        None => 0,
    };
    let fits = if lt >= 0 {
        now <= i64::MAX - lt
    } else {
        now >= i64::MIN - lt
    };
    if fits {
        let r = start_learning_at(skill_id, skill_defs, progress, imagination, now);
        proof {
            if r is Ok {
                assert(clamped_end(now, skill_defs@[skill_id@].learn_time_secs) == progress.learning->0.complete_at);
            }
        }
        r
    } else {
        let edge = if lt >= 0 {
            i64::MAX - lt
        } else {
            i64::MIN - lt
        };
        let r = start_learning_at(skill_id, skill_defs, progress, imagination, edge);
        proof {
            if r is Ok {
                assert(clamped_end(now, skill_defs@[skill_id@].learn_time_secs) == progress.learning->0.complete_at);
            }
        }
        r
    }
}

/// The skill whose learning is complete at Unix time `now`, if any.
pub fn check_completion_at(progress: &SkillProgress, now: i64) -> (r: Option<String>)
    ensures
        match progress.learning {
            None => r is None,
            Some(slot) => if now >= slot.complete_at {
                r matches Some(id) && id@ == slot.skill_id@
            } else {
                r is None
            },
        },
{
    match &progress.learning {
        None => None,
        Some(slot) => {
            if now >= slot.complete_at {
                Some(slot.skill_id.clone())
            } else {
                None
            }
        },
    }
}

/// The skill whose learning is complete at Unix time `now`, as text: the
/// skill being learned once `now` has reached its end time, else none.
pub open spec fn completion_at(p: SkillProgress, now: i64) -> Option<Seq<char>> {
    match p.learning {
        None => None,
        Some(slot) => if now >= slot.complete_at {
            Some(slot.skill_id@)
        } else {
            None
        },
    }
}

/// The text of an optional string.
pub open spec fn opt_text(r: Option<String>) -> Option<Seq<char>> {
    match r {
        Some(s) => Some(s@),
        None => None,
    }
}

/// The skill whose learning is complete now (by the system clock), if any:
/// what `check_completion_at` gives at the clock's reading, which is never
/// before the epoch. Nothing is
/// reported when nothing is being learned; what is reported is the skill
/// being learned.
pub fn check_completion(progress: &SkillProgress) -> (r: Option<String>)
    ensures
        exists|now: i64| now >= 0 && #[trigger] completion_at(*progress, now) == opt_text(r),
        progress.learning is None ==> r is None,
        r matches Some(id) ==> progress.learning matches Some(slot) && id@ == slot.skill_id@,
{
    let now = clock_now();
    let r = check_completion_at(progress, now);
    proof {
        assert(completion_at(*progress, now) == opt_text(r));
    }
    r
}

/// Move the skill being learned into the learned list and clear the slot;
/// returns its id.
pub fn complete_learning(progress: &mut SkillProgress) -> (id: String)
    requires
        old(progress).learning is Some,
    ensures
        complete_outcome(*old(progress), id, *final(progress)),
{
    let slot = progress.learning.take().unwrap();
    let id = slot.skill_id;
    progress.learned.push(id.clone());
    id
}

/// Cancel learning and refund its cost (if the skill is still defined).
pub fn cancel_learning(
    skill_defs: &SkillDefs,
    progress: &mut SkillProgress,
    imagination: &mut u64,
) -> (r: Result<(), SkillError>)
    requires
        skill_defs.wf(),
        old(progress).learning matches Some(slot) ==> (skill_defs@.contains_key(slot.skill_id@)
            ==> *old(imagination) + skill_defs@[slot.skill_id@].imagination_cost <= u64::MAX),
    ensures
        cancel_outcome(skill_defs@, *old(progress), *old(imagination), r, *final(progress), *final(imagination)),
{
    let refund: Option<u64> = match &progress.learning {
        None => {
            return Err(SkillError::NotLearning);
        },
        Some(slot) => match skill_defs.get(slot.skill_id.as_str()) {
            Some(def) => Some(def.imagination_cost),
            None => None,
        },
    };
    match refund {
        Some(c) => {
            *imagination = *imagination + c;
        },
        None => {},
    }
    progress.learning = None;
    Ok(())
}

} // verus!
