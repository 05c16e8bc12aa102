use harmony_glitch::skill::learning::{
    cancel_learning, can_learn, check_completion, check_completion_at, complete_learning,
    start_learning, start_learning_at, SkillError,
};
use harmony_glitch::skill::types::{LearningSlot, SkillDef, SkillDefs, SkillProgress};
use harmony_glitch::strmap::StrMap;

fn test_skill_defs() -> SkillDefs {
    let mut defs = StrMap::new();
    defs.insert(
        "cooking_1".to_string(),
        SkillDef {
            id: "cooking_1".to_string(),
            name: "Cooking I".to_string(),
            description: "Basic cooking.".to_string(),
            prerequisites: vec![],
            imagination_cost: 50,
            learn_time_secs: 120,
            unlocks_recipes: vec!["bread".to_string()],
        },
    );
    defs.insert(
        "cooking_2".to_string(),
        SkillDef {
            id: "cooking_2".to_string(),
            name: "Cooking II".to_string(),
            description: "Advanced cooking.".to_string(),
            prerequisites: vec!["cooking_1".to_string()],
            imagination_cost: 150,
            learn_time_secs: 600,
            unlocks_recipes: vec!["cherry_pie".to_string()],
        },
    );
    defs
}

fn empty_progress() -> SkillProgress {
    SkillProgress::default()
}

#[test]
fn can_learn_valid_skill() {
    let defs = test_skill_defs();
    let progress = empty_progress();
    assert!(can_learn("cooking_1", &defs, &progress, 100).is_ok());
}

#[test]
fn cannot_learn_unknown_skill() {
    let defs = test_skill_defs();
    let progress = empty_progress();
    assert!(matches!(can_learn("nonexistent", &defs, &progress, 100), Err(SkillError::UnknownSkill)));
}

#[test]
fn cannot_learn_already_learned() {
    let defs = test_skill_defs();
    let progress = SkillProgress { learned: vec!["cooking_1".to_string()], learning: None };
    assert!(matches!(can_learn("cooking_1", &defs, &progress, 100), Err(SkillError::AlreadyLearned)));
}

#[test]
fn cannot_learn_missing_prerequisite() {
    let defs = test_skill_defs();
    let progress = empty_progress();
    assert!(matches!(
        can_learn("cooking_2", &defs, &progress, 500),
        Err(SkillError::PrerequisiteNotMet { .. })
    ));
}

#[test]
fn cannot_learn_insufficient_imagination() {
    let defs = test_skill_defs();
    let progress = empty_progress();
    assert!(matches!(
        can_learn("cooking_1", &defs, &progress, 10),
        Err(SkillError::InsufficientImagination { need: 50, have: 10 })
    ));
}

#[test]
fn cannot_learn_while_learning() {
    let defs = test_skill_defs();
    let progress = SkillProgress {
        learned: vec![],
        learning: Some(LearningSlot { skill_id: "cooking_1".to_string(), complete_at: i64::MAX }),
    };
    assert!(matches!(can_learn("cooking_1", &defs, &progress, 100), Err(SkillError::AlreadyLearning)));
}

#[test]
fn start_learning_deducts_imagination() {
    let defs = test_skill_defs();
    let mut progress = empty_progress();
    let mut imagination = 100u64;
    start_learning("cooking_1", &defs, &mut progress, &mut imagination).unwrap();
    assert_eq!(imagination, 50);
    assert!(progress.learning.is_some());
    assert_eq!(progress.learning.as_ref().unwrap().skill_id, "cooking_1");
}

#[test]
fn cancel_refunds_imagination() {
    let defs = test_skill_defs();
    let mut progress = empty_progress();
    let mut imagination = 100u64;
    start_learning("cooking_1", &defs, &mut progress, &mut imagination).unwrap();
    assert_eq!(imagination, 50);
    cancel_learning(&defs, &mut progress, &mut imagination).unwrap();
    assert_eq!(imagination, 100);
    assert!(progress.learning.is_none());
}

#[test]
fn cancel_when_not_learning_errors() {
    let defs = test_skill_defs();
    let mut progress = empty_progress();
    let mut imagination = 100u64;
    assert!(matches!(cancel_learning(&defs, &mut progress, &mut imagination), Err(SkillError::NotLearning)));
}

#[test]
fn completion_check_with_past_timestamp() {
    let progress = SkillProgress {
        learned: vec![],
        learning: Some(LearningSlot { skill_id: "cooking_1".to_string(), complete_at: 0 }),
    };
    assert_eq!(check_completion(&progress), Some("cooking_1".to_string()));
}

#[test]
fn completion_check_with_future_timestamp() {
    let progress = SkillProgress {
        learned: vec![],
        learning: Some(LearningSlot { skill_id: "cooking_1".to_string(), complete_at: i64::MAX }),
    };
    assert_eq!(check_completion(&progress), None);
}

#[test]
fn completion_check_with_no_learning() {
    let progress = empty_progress();
    assert_eq!(check_completion(&progress), None);
}

#[test]
fn complete_learning_moves_to_learned() {
    let mut progress = SkillProgress {
        learned: vec![],
        learning: Some(LearningSlot { skill_id: "cooking_1".to_string(), complete_at: 0 }),
    };
    let skill_id = complete_learning(&mut progress);
    assert_eq!(skill_id, "cooking_1");
    assert!(progress.learned.contains(&"cooking_1".to_string()));
    assert!(progress.learning.is_none());
}

#[test]
fn prerequisite_met_after_learning() {
    let defs = test_skill_defs();
    let progress = SkillProgress { learned: vec!["cooking_1".to_string()], learning: None };
    assert!(can_learn("cooking_2", &defs, &progress, 500).is_ok());
}

#[test]
fn start_learning_at_sets_end_time() {
    let defs = test_skill_defs();
    let mut progress = empty_progress();
    let mut imagination = 60u64;
    start_learning_at("cooking_1", &defs, &mut progress, &mut imagination, 1_000).unwrap();
    assert_eq!(imagination, 10);
    assert_eq!(progress.learning.as_ref().unwrap().complete_at, 1_120);
    assert_eq!(check_completion_at(&progress, 1_119), None);
    assert_eq!(check_completion_at(&progress, 1_120), Some("cooking_1".to_string()));
}

#[test]
fn refused_start_changes_nothing() {
    let defs = test_skill_defs();
    let mut progress = empty_progress();
    let mut imagination = 10u64;
    let r = start_learning_at("cooking_1", &defs, &mut progress, &mut imagination, 5);
    assert!(matches!(r, Err(SkillError::InsufficientImagination { need: 50, have: 10 })));
    assert_eq!(imagination, 10);
    assert!(progress.learning.is_none());
}

#[test]
fn error_messages() {
    assert_eq!(SkillError::UnknownSkill.message(), "Unknown skill");
    assert_eq!(
        SkillError::PrerequisiteNotMet { missing: "cooking_1".to_string() }.message(),
        "Prerequisite not met: cooking_1"
    );
    assert_eq!(
        SkillError::InsufficientImagination { need: 150, have: 7 }.message(),
        "Need 150 imagination, have 7"
    );
    assert_eq!(SkillError::NotLearning.message(), "Not currently learning a skill");
}

#[test]
fn assign_skill_ids_sets_ids_from_keys() {
    let mut defs = test_skill_defs();
    defs.entries[0].1.id = "stale".to_string();
    defs.entries[1].1.id = String::new();
    harmony_glitch::skill::loader::assign_skill_ids(&mut defs);
    assert_eq!(defs.get("cooking_1").unwrap().id, "cooking_1");
    assert_eq!(defs.get("cooking_2").unwrap().id, "cooking_2");
    assert_eq!(defs.get("cooking_2").unwrap().imagination_cost, 150);
}
