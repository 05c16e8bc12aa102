use harmony_glitch::item::inventory::Inventory;
use harmony_glitch::item::types::{ItemDef, ItemDefs};
use harmony_glitch::quest::dialogue::{apply_effect, check_condition, evaluate_choice, evaluate_start};
use harmony_glitch::quest::tracker::{is_quest_ready, record_craft, start_quest, tick_quest_progress};
use harmony_glitch::quest::types::{
    ActiveQuest, DialogueChoiceResult, DialogueCondition, DialogueDefs, DialogueEffect,
    DialogueNodeDef, DialogueOptionDef, DialogueTreeDef, QuestDef, QuestDefs, QuestObjective,
    QuestProgress, QuestRewards,
};
use harmony_glitch::skill::types::SkillProgress;
use harmony_glitch::strmap::StrMap;

fn item(id: &str, name: &str, stack_limit: u32) -> ItemDef {
    ItemDef {
        id: id.to_string(),
        name: name.to_string(),
        description: format!("A {id}."),
        category: "food".to_string(),
        stack_limit,
        icon: id.to_string(),
        base_cost: Some(3),
        energy_value: Some(12),
    }
}

fn test_item_defs() -> ItemDefs {
    let mut defs = StrMap::new();
    defs.insert("cherry".to_string(), item("cherry", "Cherry", 50));
    defs.insert("bread".to_string(), item("bread", "Bread", 10));
    defs
}

fn quest(id: &str, name: &str, objectives: Vec<QuestObjective>, currants: u64, imagination: u64) -> QuestDef {
    QuestDef {
        id: id.to_string(),
        name: name.to_string(),
        description: format!("{name}."),
        objectives,
        rewards: QuestRewards { currants, imagination, items: vec![] },
        turn_in_npc: "greeter".to_string(),
    }
}

fn dialogue_quest_defs() -> QuestDefs {
    let mut defs = StrMap::new();
    defs.insert(
        "test_fetch".to_string(),
        quest(
            "test_fetch",
            "Test Fetch",
            vec![QuestObjective::Fetch {
                item_id: "cherry".to_string(),
                count: 3,
                description: "Collect 3 cherries".to_string(),
            }],
            25,
            10,
        ),
    );
    defs.insert(
        "test_skill".to_string(),
        quest(
            "test_skill",
            "Test Skill",
            vec![QuestObjective::LearnSkill {
                skill_id: "cooking_1".to_string(),
                description: "Learn Cooking I".to_string(),
            }],
            50,
            0,
        ),
    );
    defs
}

fn tracker_quest_defs() -> QuestDefs {
    let mut defs = StrMap::new();
    defs.insert(
        "fetch_quest".to_string(),
        quest(
            "fetch_quest",
            "Fetch Quest",
            vec![QuestObjective::Fetch {
                item_id: "cherry".to_string(),
                count: 3,
                description: "Collect 3 cherries".to_string(),
            }],
            25,
            10,
        ),
    );
    defs.insert(
        "craft_quest".to_string(),
        quest(
            "craft_quest",
            "Craft Quest",
            vec![QuestObjective::Craft {
                recipe_id: "bread".to_string(),
                count: 2,
                description: "Craft 2 Bread".to_string(),
            }],
            50,
            0,
        ),
    );
    defs.insert(
        "visit_quest".to_string(),
        quest(
            "visit_quest",
            "Visit Quest",
            vec![QuestObjective::Visit {
                street_id: "LADEMO002".to_string(),
                description: "Visit Demo Heights".to_string(),
            }],
            10,
            0,
        ),
    );
    defs.insert(
        "skill_quest".to_string(),
        quest(
            "skill_quest",
            "Skill Quest",
            vec![QuestObjective::LearnSkill {
                skill_id: "cooking_1".to_string(),
                description: "Learn Cooking I".to_string(),
            }],
            50,
            0,
        ),
    );
    defs
}

fn option(text: &str, next: Option<&str>, conditions: Vec<DialogueCondition>, effects: Vec<DialogueEffect>) -> DialogueOptionDef {
    DialogueOptionDef { text: text.to_string(), next: next.map(|s| s.to_string()), conditions, effects }
}

fn simple_dialogue_defs() -> DialogueDefs {
    let mut nodes = StrMap::new();
    nodes.insert(
        "start".to_string(),
        DialogueNodeDef {
            speaker: "NPC".to_string(),
            text: "Hello!".to_string(),
            options: vec![
                option(
                    "Quest offer",
                    Some("offer"),
                    vec![DialogueCondition::QuestNotStarted { quest_id: "test_fetch".to_string() }],
                    vec![],
                ),
                option(
                    "Turn in",
                    Some("turnin"),
                    vec![DialogueCondition::QuestReady { quest_id: "test_fetch".to_string() }],
                    vec![],
                ),
                option("Bye", None, vec![], vec![]),
            ],
        },
    );
    nodes.insert(
        "offer".to_string(),
        DialogueNodeDef {
            speaker: "NPC".to_string(),
            text: "Get me 3 cherries!".to_string(),
            options: vec![option(
                "Sure!",
                None,
                vec![],
                vec![DialogueEffect::StartQuest { quest_id: "test_fetch".to_string() }],
            )],
        },
    );
    nodes.insert(
        "turnin".to_string(),
        DialogueNodeDef {
            speaker: "NPC".to_string(),
            text: "Thanks for the cherries!".to_string(),
            options: vec![option(
                "You're welcome!",
                None,
                vec![],
                vec![DialogueEffect::CompleteQuest { quest_id: "test_fetch".to_string() }],
            )],
        },
    );
    let mut defs = StrMap::new();
    defs.insert("test_tree".to_string(), DialogueTreeDef { start_node: "start".to_string(), nodes });
    defs
}

fn active(quest_id: &str, progress: Vec<u32>) -> ActiveQuest {
    ActiveQuest { quest_id: quest_id.to_string(), objective_progress: progress }
}

fn progress_of(p: &QuestProgress, id: &str) -> Vec<u32> {
    p.active.get(id).unwrap().objective_progress.clone()
}

// ---- dialogue ----

#[test]
fn filter_options_by_conditions() {
    let defs = simple_dialogue_defs();
    let quest_defs = dialogue_quest_defs();
    let inventory = Inventory::new(16);
    let skill_progress = SkillProgress::default();
    let quest_progress = QuestProgress::default();
    let frame = evaluate_start("test_tree", &defs, &quest_progress, &quest_defs, &inventory, &skill_progress, "npc_1").unwrap();
    assert_eq!(frame.options.len(), 2);
    assert_eq!(frame.options[0].text, "Quest offer");
    assert_eq!(frame.options[0].index, 0);
    assert_eq!(frame.options[1].text, "Bye");
    assert_eq!(frame.options[1].index, 2);
}

#[test]
fn option_with_no_conditions_always_visible() {
    let defs = simple_dialogue_defs();
    let quest_defs = dialogue_quest_defs();
    let inventory = Inventory::new(16);
    let skill_progress = SkillProgress::default();
    let mut quest_progress = QuestProgress::default();
    quest_progress.active.insert("test_fetch".to_string(), active("test_fetch", vec![0]));
    let frame = evaluate_start("test_tree", &defs, &quest_progress, &quest_defs, &inventory, &skill_progress, "npc_1").unwrap();
    assert_eq!(frame.options.len(), 1);
    assert_eq!(frame.options[0].text, "Bye");
}

#[test]
fn quest_not_started_condition() {
    let quest_defs = dialogue_quest_defs();
    let inventory = Inventory::new(16);
    let skill_progress = SkillProgress::default();
    let condition = DialogueCondition::QuestNotStarted { quest_id: "test_fetch".to_string() };

    let progress = QuestProgress::default();
    assert!(check_condition(&condition, &progress, &quest_defs, &inventory, &skill_progress));

    let mut progress = QuestProgress::default();
    progress.active.insert("test_fetch".to_string(), active("test_fetch", vec![0]));
    assert!(!check_condition(&condition, &progress, &quest_defs, &inventory, &skill_progress));

    let mut progress = QuestProgress::default();
    progress.completed.push("test_fetch".to_string());
    assert!(!check_condition(&condition, &progress, &quest_defs, &inventory, &skill_progress));
}

#[test]
fn quest_ready_condition() {
    let quest_defs = dialogue_quest_defs();
    let item_defs = test_item_defs();
    let skill_progress = SkillProgress::default();
    let condition = DialogueCondition::QuestReady { quest_id: "test_fetch".to_string() };

    let progress = QuestProgress::default();
    let inventory = Inventory::new(16);
    assert!(!check_condition(&condition, &progress, &quest_defs, &inventory, &skill_progress));

    let mut progress = QuestProgress::default();
    progress.active.insert("test_fetch".to_string(), active("test_fetch", vec![0]));
    let mut inventory = Inventory::new(16);
    inventory.add("cherry", 2, &item_defs);
    assert!(!check_condition(&condition, &progress, &quest_defs, &inventory, &skill_progress));

    inventory.add("cherry", 1, &item_defs);
    assert!(check_condition(&condition, &progress, &quest_defs, &inventory, &skill_progress));
}

#[test]
fn apply_start_quest_effect() {
    let quest_defs = dialogue_quest_defs();
    let item_defs = test_item_defs();
    let mut quest_progress = QuestProgress::default();
    let mut inventory = Inventory::new(16);
    let mut currants = 0u64;
    let mut imagination = 0u64;
    let effect = DialogueEffect::StartQuest { quest_id: "test_fetch".to_string() };
    let feedback = apply_effect(&effect, &mut quest_progress, &quest_defs, &mut inventory, &SkillProgress::default(), &mut currants, &mut imagination, &item_defs);
    assert!(quest_progress.active.contains_key("test_fetch"));
    assert_eq!(progress_of(&quest_progress, "test_fetch"), vec![0]);
    assert!(feedback.iter().any(|f| f.contains("Quest started")));
}

#[test]
fn apply_complete_quest_effect() {
    let quest_defs = dialogue_quest_defs();
    let item_defs = test_item_defs();
    let mut quest_progress = QuestProgress::default();
    quest_progress.active.insert("test_fetch".to_string(), active("test_fetch", vec![3]));
    let mut inventory = Inventory::new(16);
    inventory.add("cherry", 3, &item_defs);
    let mut currants = 0u64;
    let mut imagination = 0u64;
    let effect = DialogueEffect::CompleteQuest { quest_id: "test_fetch".to_string() };
    let feedback = apply_effect(&effect, &mut quest_progress, &quest_defs, &mut inventory, &SkillProgress::default(), &mut currants, &mut imagination, &item_defs);
    assert!(!quest_progress.active.contains_key("test_fetch"));
    assert!(quest_progress.completed.contains(&"test_fetch".to_string()));
    assert_eq!(currants, 25);
    assert_eq!(imagination, 10);
    assert!(feedback.iter().any(|f| f.contains("Quest complete")));
    assert!(feedback.iter().any(|f| f.contains("+25 Currants")));
}

#[test]
fn apply_give_item_effect() {
    let quest_defs = dialogue_quest_defs();
    let item_defs = test_item_defs();
    let mut quest_progress = QuestProgress::default();
    let mut inventory = Inventory::new(16);
    let mut currants = 0u64;
    let mut imagination = 0u64;
    let effect = DialogueEffect::GiveItem { item_id: "cherry".to_string(), count: 5 };
    let feedback = apply_effect(&effect, &mut quest_progress, &quest_defs, &mut inventory, &SkillProgress::default(), &mut currants, &mut imagination, &item_defs);
    assert_eq!(inventory.count_item("cherry"), 5);
    assert!(feedback.iter().any(|f| f.contains("+5 Cherry")));
}

#[test]
fn navigate_dialogue_tree() {
    let defs = simple_dialogue_defs();
    let quest_defs = dialogue_quest_defs();
    let item_defs = test_item_defs();
    let mut quest_progress = QuestProgress::default();
    let mut inventory = Inventory::new(16);
    let skill_progress = SkillProgress::default();
    let mut currants = 0u64;
    let mut imagination = 0u64;
    let result = evaluate_choice("test_tree", "start", 0, &defs, &mut quest_progress, &quest_defs, &mut inventory, &skill_progress, &mut currants, &mut imagination, &item_defs, "npc_1");
    match result {
        DialogueChoiceResult::Continue { frame, .. } => {
            assert_eq!(frame.text, "Get me 3 cherries!");
            assert_eq!(frame.options.len(), 1);
            assert_eq!(frame.options[0].text, "Sure!");
        }
        DialogueChoiceResult::End { .. } => panic!("Expected Continue"),
    }
}

#[test]
fn end_dialogue_on_none_next() {
    let defs = simple_dialogue_defs();
    let quest_defs = dialogue_quest_defs();
    let item_defs = test_item_defs();
    let mut quest_progress = QuestProgress::default();
    let mut inventory = Inventory::new(16);
    let skill_progress = SkillProgress::default();
    let mut currants = 0u64;
    let mut imagination = 0u64;
    let result = evaluate_choice("test_tree", "start", 2, &defs, &mut quest_progress, &quest_defs, &mut inventory, &skill_progress, &mut currants, &mut imagination, &item_defs, "npc_1");
    match result {
        DialogueChoiceResult::End { feedback } => assert!(feedback.is_empty()),
        DialogueChoiceResult::Continue { .. } => panic!("Expected End"),
    }
}

#[test]
fn start_quest_via_dialogue_choice() {
    let defs = simple_dialogue_defs();
    let quest_defs = dialogue_quest_defs();
    let item_defs = test_item_defs();
    let mut quest_progress = QuestProgress::default();
    let mut inventory = Inventory::new(16);
    let skill_progress = SkillProgress::default();
    let mut currants = 0u64;
    let mut imagination = 0u64;
    let result = evaluate_choice("test_tree", "offer", 0, &defs, &mut quest_progress, &quest_defs, &mut inventory, &skill_progress, &mut currants, &mut imagination, &item_defs, "npc_1");
    match result {
        DialogueChoiceResult::End { feedback } => {
            assert!(feedback.iter().any(|f| f.contains("Quest started")));
        }
        DialogueChoiceResult::Continue { .. } => panic!("Expected End"),
    }
    assert!(quest_progress.active.contains_key("test_fetch"));
}

// ---- tracker ----

#[test]
fn start_quest_creates_active() {
    let quest_defs = tracker_quest_defs();
    let mut progress = QuestProgress::default();
    start_quest("fetch_quest", &quest_defs, &mut progress).unwrap();
    assert!(progress.active.contains_key("fetch_quest"));
    assert_eq!(progress_of(&progress, "fetch_quest"), vec![0]);
}

#[test]
fn start_quest_unknown_errors() {
    let quest_defs = tracker_quest_defs();
    let mut progress = QuestProgress::default();
    assert!(start_quest("nonexistent", &quest_defs, &mut progress).is_err());
}

#[test]
fn start_quest_already_active_errors() {
    let quest_defs = tracker_quest_defs();
    let mut progress = QuestProgress::default();
    start_quest("fetch_quest", &quest_defs, &mut progress).unwrap();
    assert!(start_quest("fetch_quest", &quest_defs, &mut progress).is_err());
}

#[test]
fn start_quest_already_completed_errors() {
    let quest_defs = tracker_quest_defs();
    let mut progress = QuestProgress::default();
    progress.completed.push("fetch_quest".to_string());
    assert!(start_quest("fetch_quest", &quest_defs, &mut progress).is_err());
}

#[test]
fn fetch_progress_from_inventory() {
    let quest_defs = tracker_quest_defs();
    let item_defs = test_item_defs();
    let skill_progress = SkillProgress::default();
    let mut progress = QuestProgress::default();
    start_quest("fetch_quest", &quest_defs, &mut progress).unwrap();
    let mut inventory = Inventory::new(16);
    inventory.add("cherry", 2, &item_defs);
    tick_quest_progress(&mut progress, &quest_defs, &inventory, &skill_progress, "LADEMO001");
    assert_eq!(progress_of(&progress, "fetch_quest")[0], 2);
    inventory.add("cherry", 5, &item_defs);
    tick_quest_progress(&mut progress, &quest_defs, &inventory, &skill_progress, "LADEMO001");
    assert_eq!(progress_of(&progress, "fetch_quest")[0], 3);
}

#[test]
fn craft_progress_increments() {
    let quest_defs = tracker_quest_defs();
    let mut progress = QuestProgress::default();
    start_quest("craft_quest", &quest_defs, &mut progress).unwrap();
    record_craft(&mut progress, &quest_defs, "bread");
    assert_eq!(progress_of(&progress, "craft_quest")[0], 1);
    record_craft(&mut progress, &quest_defs, "bread");
    assert_eq!(progress_of(&progress, "craft_quest")[0], 2);
    record_craft(&mut progress, &quest_defs, "bread");
    assert_eq!(progress_of(&progress, "craft_quest")[0], 2);
}

#[test]
fn craft_wrong_recipe_no_change() {
    let quest_defs = tracker_quest_defs();
    let mut progress = QuestProgress::default();
    start_quest("craft_quest", &quest_defs, &mut progress).unwrap();
    record_craft(&mut progress, &quest_defs, "cherry_pie");
    assert_eq!(progress_of(&progress, "craft_quest")[0], 0);
}

#[test]
fn visit_objective_completes() {
    let quest_defs = tracker_quest_defs();
    let inventory = Inventory::new(16);
    let skill_progress = SkillProgress::default();
    let mut progress = QuestProgress::default();
    start_quest("visit_quest", &quest_defs, &mut progress).unwrap();
    tick_quest_progress(&mut progress, &quest_defs, &inventory, &skill_progress, "LADEMO001");
    assert_eq!(progress_of(&progress, "visit_quest")[0], 0);
    tick_quest_progress(&mut progress, &quest_defs, &inventory, &skill_progress, "LADEMO002");
    assert_eq!(progress_of(&progress, "visit_quest")[0], 1);
    tick_quest_progress(&mut progress, &quest_defs, &inventory, &skill_progress, "LADEMO001");
    assert_eq!(progress_of(&progress, "visit_quest")[0], 1);
}

#[test]
fn learn_skill_objective_completes() {
    let quest_defs = tracker_quest_defs();
    let inventory = Inventory::new(16);
    let mut progress = QuestProgress::default();
    start_quest("skill_quest", &quest_defs, &mut progress).unwrap();
    let skill_progress = SkillProgress::default();
    tick_quest_progress(&mut progress, &quest_defs, &inventory, &skill_progress, "LADEMO001");
    assert_eq!(progress_of(&progress, "skill_quest")[0], 0);
    let skill_progress = SkillProgress { learned: vec!["cooking_1".to_string()], learning: None };
    tick_quest_progress(&mut progress, &quest_defs, &inventory, &skill_progress, "LADEMO001");
    assert_eq!(progress_of(&progress, "skill_quest")[0], 1);
}

#[test]
fn is_quest_ready_all_objectives() {
    let quest_defs = tracker_quest_defs();
    let item_defs = test_item_defs();
    let skill_progress = SkillProgress::default();
    let mut progress = QuestProgress::default();
    start_quest("fetch_quest", &quest_defs, &mut progress).unwrap();
    let mut inventory = Inventory::new(16);
    inventory.add("cherry", 2, &item_defs);
    assert!(!is_quest_ready("fetch_quest", &progress, &quest_defs, &inventory, &skill_progress));
    inventory.add("cherry", 1, &item_defs);
    assert!(is_quest_ready("fetch_quest", &progress, &quest_defs, &inventory, &skill_progress));
}

#[test]
fn is_quest_ready_not_active() {
    let quest_defs = tracker_quest_defs();
    let inventory = Inventory::new(16);
    let skill_progress = SkillProgress::default();
    let progress = QuestProgress::default();
    assert!(!is_quest_ready("fetch_quest", &progress, &quest_defs, &inventory, &skill_progress));
}

#[test]
fn tick_display_matches_cumulative_readiness() {
    let mut quest_defs = StrMap::new();
    quest_defs.insert(
        "double".to_string(),
        quest(
            "double",
            "Double",
            vec![
                QuestObjective::Fetch {
                    item_id: "cherry".to_string(),
                    count: 3,
                    description: "Collect 3 cherries".to_string(),
                },
                QuestObjective::Deliver {
                    item_id: "cherry".to_string(),
                    count: 2,
                    npc_id: "greeter".to_string(),
                    description: "Deliver 2 cherries".to_string(),
                },
            ],
            0,
            0,
        ),
    );
    let item_defs = test_item_defs();
    let skill_progress = SkillProgress::default();
    let mut progress = QuestProgress::default();
    start_quest("double", &quest_defs, &mut progress).unwrap();
    let mut inventory = Inventory::new(16);
    inventory.add("cherry", 4, &item_defs);
    tick_quest_progress(&mut progress, &quest_defs, &inventory, &skill_progress, "LADEMO001");
    assert_eq!(progress_of(&progress, "double"), vec![3, 1]);
    assert!(!is_quest_ready("double", &progress, &quest_defs, &inventory, &skill_progress));
    inventory.add("cherry", 1, &item_defs);
    tick_quest_progress(&mut progress, &quest_defs, &inventory, &skill_progress, "LADEMO001");
    assert_eq!(progress_of(&progress, "double"), vec![3, 2]);
    assert!(is_quest_ready("double", &progress, &quest_defs, &inventory, &skill_progress));
}

#[test]
fn assign_quest_ids_sets_ids_from_keys() {
    let mut defs = tracker_quest_defs();
    for e in defs.entries.iter_mut() {
        e.1.id = String::new();
    }
    harmony_glitch::quest::loader::assign_quest_ids(&mut defs);
    assert_eq!(defs.get("fetch_quest").unwrap().id, "fetch_quest");
    assert_eq!(defs.get("visit_quest").unwrap().id, "visit_quest");
    assert_eq!(defs.get("fetch_quest").unwrap().name, "Fetch Quest");
}
