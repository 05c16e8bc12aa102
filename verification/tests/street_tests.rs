use harmony_glitch::street::manifest::{demo_street, entity_placement_file, is_unsafe_file_name, street_file, DemoStreet, StreetEntry, StreetManifest};
use harmony_glitch::street::types::{blocks_from_left, blocks_from_right, solid_from_bottom, solid_from_top};

#[test]
fn load_empty_manifest() {
    let m = StreetManifest::empty();
    assert_eq!(m.version, 1);
    assert!(m.streets.is_empty());
}

#[test]
fn manifest_insert_and_lookup() {
    let mut m = StreetManifest::empty();
    m.streets.insert(
        "LA5101HF7F429V5".to_string(),
        StreetEntry {
            name: "Empty Via 5".to_string(),
            filename: "LA5101HF7F429V5.xml".to_string(),
        },
    );
    assert_eq!(m.streets.len(), 1);
    assert!(!m.streets.is_empty());
    assert_eq!(m.streets.get("LA5101HF7F429V5").unwrap().name, "Empty Via 5");
}

#[test]
fn platform_one_way_from_top() {
    let pc_perm = Some(-1);
    assert!(solid_from_top(pc_perm));
    assert!(!solid_from_bottom(pc_perm));
}

#[test]
fn platform_fully_solid() {
    let pc_perm = None;
    assert!(solid_from_top(pc_perm));
    assert!(solid_from_bottom(pc_perm));
}

#[test]
fn platform_pass_through_and_bottom_only() {
    assert!(!solid_from_top(Some(0)));
    assert!(!solid_from_bottom(Some(0)));
    assert!(!solid_from_top(Some(1)));
    assert!(solid_from_bottom(Some(1)));
    assert!(solid_from_top(Some(7)));
}

#[test]
fn wall_blocks_from_left() {
    assert!(blocks_from_left(None));
    assert!(blocks_from_left(Some(-1)));
    assert!(!blocks_from_left(Some(1)));
    assert!(!blocks_from_left(Some(0)));
}

#[test]
fn wall_blocks_from_right() {
    assert!(blocks_from_right(None));
    assert!(blocks_from_right(Some(1)));
    assert!(!blocks_from_right(Some(-1)));
    assert!(!blocks_from_right(Some(0)));
}

fn manifest_with(tsid: &str, filename: &str) -> StreetManifest {
    let mut m = StreetManifest::empty();
    m.streets.insert(
        tsid.to_string(),
        StreetEntry { name: "Somewhere".to_string(), filename: filename.to_string() },
    );
    m
}

#[test]
fn street_file_of_known_street() {
    let m = manifest_with("LA1", "LA1.xml");
    assert_eq!(street_file(&m, "LA1"), Ok("LA1.xml".to_string()));
}

#[test]
fn street_file_of_unknown_street() {
    let m = manifest_with("LA1", "LA1.xml");
    assert_eq!(street_file(&m, "LA2"), Err("Unknown street: LA2".to_string()));
}

#[test]
fn street_file_refuses_unsafe_names() {
    for bad in ["../x.xml", "a/b.xml", "a\\b.xml", "x..xml"] {
        let m = manifest_with("LA1", bad);
        assert_eq!(
            street_file(&m, "LA1"),
            Err("Manifest filename for LA1 contains unsafe path components".to_string())
        );
    }
    assert!(!is_unsafe_file_name("a.b.xml"));
    assert!(is_unsafe_file_name(".."));
}

#[test]
fn demo_streets_by_name_or_id() {
    assert_eq!(demo_street("demo_meadow"), Some(DemoStreet::Meadow));
    assert_eq!(demo_street("LADEMO001"), Some(DemoStreet::Meadow));
    assert_eq!(demo_street("demo_heights"), Some(DemoStreet::Heights));
    assert_eq!(demo_street("LADEMO002"), Some(DemoStreet::Heights));
    assert_eq!(demo_street("LA1"), None);
}

#[test]
fn entity_placement_files() {
    assert_eq!(entity_placement_file("LADEMO001"), Some("demo_meadow_entities.json".to_string()));
    assert_eq!(entity_placement_file("demo_heights"), Some("demo_heights_entities.json".to_string()));
    assert_eq!(entity_placement_file("LA1"), None);
}
