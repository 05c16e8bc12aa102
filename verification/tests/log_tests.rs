use harmony_glitch::quest::log::quest_log;
use harmony_glitch::quest::types::{ActiveQuest, QuestDef, QuestDefs, QuestObjective, QuestProgress, QuestRewards};
use harmony_glitch::street::manifest::{street_list, StreetEntry, StreetManifest};
use harmony_glitch::strmap::StrMap;

fn quest(id: &str, name: &str, objectives: Vec<QuestObjective>) -> QuestDef {
    QuestDef {
        id: id.to_string(),
        name: name.to_string(),
        description: format!("{name}."),
        objectives,
        rewards: QuestRewards { currants: 0, imagination: 0, items: vec![] },
        turn_in_npc: "greeter".to_string(),
    }
}

fn defs() -> QuestDefs {
    let mut d = StrMap::new();
    d.insert(
        "zeta".to_string(),
        quest(
            "zeta",
            "Zeta Quest",
            vec![
                QuestObjective::Fetch { item_id: "cherry".into(), count: 3, description: "Collect 3 cherries".into() },
                QuestObjective::Visit { street_id: "LA1".into(), description: "Visit".into() },
            ],
        ),
    );
    d.insert("alpha".to_string(), quest("alpha", "Alpha Quest", vec![]));
    d.insert("done".to_string(), quest("done", "Done Quest", vec![]));
    d
}

#[test]
fn quest_log_sorts_active_by_name_and_shows_progress() {
    let d = defs();
    let mut p = QuestProgress::default();
    p.active.insert("zeta".into(), ActiveQuest { quest_id: "zeta".into(), objective_progress: vec![5] });
    p.active.insert("ghost".into(), ActiveQuest { quest_id: "ghost".into(), objective_progress: vec![] });
    p.active.insert("alpha".into(), ActiveQuest { quest_id: "alpha".into(), objective_progress: vec![] });
    p.completed.push("done".into());
    p.completed.push("unknown".into());
    let log = quest_log(&d, &p);
    let names: Vec<&str> = log.active.iter().map(|e| e.name.as_str()).collect();
    assert_eq!(names, vec!["Alpha Quest", "Zeta Quest"]);
    let z = &log.active[1];
    assert_eq!(z.quest_id, "zeta");
    assert_eq!(z.objectives.len(), 2);
    assert_eq!(z.objectives[0].current, 5);
    assert_eq!(z.objectives[0].target, 3);
    assert!(z.objectives[0].complete);
    assert_eq!(z.objectives[1].current, 0);
    assert_eq!(z.objectives[1].target, 1);
    assert!(!z.objectives[1].complete);
    assert_eq!(z.objectives[0].description, "Collect 3 cherries");
    assert_eq!(log.completed.len(), 1);
    assert_eq!(log.completed[0].quest_id, "done");
    assert_eq!(log.completed[0].name, "Done Quest");
}

#[test]
fn street_list_includes_demo_streets_sorted() {
    let mut m = StreetManifest::empty();
    m.streets.insert("LA5101HF7F429V5".into(), StreetEntry { name: "Empty Via 5".into(), filename: "a.xml".into() });
    m.streets.insert("LADEMO001".into(), StreetEntry { name: "Shadow".into(), filename: "b.xml".into() });
    m.streets.insert("LAB".into(), StreetEntry { name: "Aardvark Alley".into(), filename: "c.xml".into() });
    let list = street_list(&m);
    let names: Vec<&str> = list.iter().map(|e| e.name.as_str()).collect();
    assert_eq!(names, vec!["Aardvark Alley", "Demo Heights", "Demo Meadow", "Empty Via 5"]);
    assert_eq!(list[1].tsid, "LADEMO002");
    assert_eq!(list[3].tsid, "LA5101HF7F429V5");
}

#[test]
fn street_list_of_empty_manifest() {
    let list = street_list(&StreetManifest::empty());
    let tsids: Vec<&str> = list.iter().map(|e| e.tsid.as_str()).collect();
    assert_eq!(tsids, vec!["LADEMO002", "LADEMO001"]);
}
