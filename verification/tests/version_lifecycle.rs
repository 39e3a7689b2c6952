//! The version lifecycle commands on the model disk.

use info_system::disk::Disk;
use info_system::errors::VdError;
use info_system::schema::placeholder_entries;

fn s(x: &str) -> String {
    x.to_string()
}

#[test]
fn create_then_read_defaults() {
    let mut disk = Disk::new();
    disk.create_version_directory(&s("data"), &s("v1")).unwrap();
    let expected = [
        ("building_recipes.json", r#"{"recipes":[]}"#),
        ("building_types.json", r#"{"buildingTypes":[]}"#),
        ("commodities.json", r#"{"commodities":[]}"#),
        ("worker_types.json", r#"{"workerTypes":[]}"#),
        ("work_categories.json", r#"{"workCategories":[]}"#),
        ("craving_system/dimension_definitions.json", "{}"),
        ("craving_system/character_classes.json", "{}"),
        ("craving_system/character_traits.json", "{}"),
        ("craving_system/fulfillment_vectors.json", "{}"),
        ("craving_system/enablement_rules.json", "{}"),
    ];
    for (rel, content) in expected.iter() {
        let path = format!("data/v1/{}", rel);
        assert_eq!(disk.read_json_file(&path).unwrap(), *content);
    }
}

#[test]
fn placeholder_entries_match_schema() {
    let entries = placeholder_entries();
    assert_eq!(entries.len(), 10);
    assert_eq!(entries[0].0, "building_recipes.json");
    assert_eq!(entries[0].1, r#"{"recipes":[]}"#);
    assert_eq!(entries[9].0, "craving_system/enablement_rules.json");
    assert_eq!(entries[9].1, "{}");
}

#[test]
fn create_makes_directories_and_ancestors() {
    let mut disk = Disk::new();
    disk.create_version_directory(&s("base/data"), &s("v1")).unwrap();
    assert!(disk.dir_exists(&s("base")));
    assert!(disk.dir_exists(&s("base/data")));
    assert!(disk.dir_exists(&s("base/data/v1")));
    assert!(disk.dir_exists(&s("base/data/v1/craving_system")));
    assert!(!disk.dir_exists(&s("base/data/v2")));
}

#[test]
fn create_twice_overwrites_placeholders() {
    let mut disk = Disk::new();
    disk.create_version_directory(&s("data"), &s("v1")).unwrap();
    disk.write_json_file(&s("data/v1/commodities.json"), s(r#"{"commodities":[1,2]}"#)).unwrap();
    disk.write_json_file(
        &s("data/v1/craving_system/character_traits.json"),
        s(r#"{"edited":true}"#),
    )
    .unwrap();
    disk.create_version_directory(&s("data"), &s("v1")).unwrap();
    assert_eq!(disk.read_json_file(&s("data/v1/commodities.json")).unwrap(), r#"{"commodities":[]}"#);
    assert_eq!(
        disk.read_json_file(&s("data/v1/craving_system/character_traits.json")).unwrap(),
        "{}"
    );
}

#[test]
fn clone_copies_every_file_and_directory() {
    let mut disk = Disk::new();
    disk.create_version_directory(&s("data"), &s("v1")).unwrap();
    disk.write_json_file(&s("data/v1/custom.json"), s("[1,2,3]")).unwrap();
    disk.clone_version_directory(&s("data"), &s("v1"), &s("v2")).unwrap();
    assert!(disk.dir_exists(&s("data/v2")));
    assert!(disk.dir_exists(&s("data/v2/craving_system")));
    let entries = placeholder_entries();
    for (rel, _) in entries.iter() {
        let src = format!("data/v1/{}", rel);
        let dst = format!("data/v2/{}", rel);
        assert_eq!(disk.read_json_file(&dst).unwrap(), disk.read_json_file(&src).unwrap());
    }
    assert_eq!(disk.read_json_file(&s("data/v2/custom.json")).unwrap(), "[1,2,3]");
    // the source tree is untouched
    assert_eq!(disk.read_json_file(&s("data/v1/custom.json")).unwrap(), "[1,2,3]");
}

#[test]
fn clone_missing_source_fails() {
    let mut disk = Disk::new();
    let r = disk.clone_version_directory(&s("data"), &s("missing"), &s("v2"));
    match r {
        Err(VdError::NotFound(x)) => assert_eq!(x, "missing"),
        _ => panic!("expected a not-found error"),
    }
}

#[test]
fn clone_existing_target_fails() {
    let mut disk = Disk::new();
    disk.create_version_directory(&s("data"), &s("v1")).unwrap();
    let r = disk.clone_version_directory(&s("data"), &s("v1"), &s("v1"));
    match r {
        Err(VdError::AlreadyExists(x)) => assert_eq!(x, "v1"),
        _ => panic!("expected an already-exists error"),
    }
}

#[test]
fn delete_then_absent() {
    let mut disk = Disk::new();
    disk.create_version_directory(&s("data"), &s("v1")).unwrap();
    assert!(disk.path_exists(&s("data/v1")));
    disk.delete_version_directory(&s("data"), &s("v1")).unwrap();
    assert!(!disk.path_exists(&s("data/v1")));
    assert!(!disk.path_exists(&s("data/v1/craving_system")));
    assert!(disk.read_json_file(&s("data/v1/commodities.json")).is_err());
    // the data directory itself stays
    assert!(disk.dir_exists(&s("data")));
    let r = disk.delete_version_directory(&s("data"), &s("v1"));
    match r {
        Err(VdError::NotFound(x)) => assert_eq!(x, "v1"),
        _ => panic!("expected a not-found error on the second delete"),
    }
}

#[test]
fn delete_missing_fails() {
    let mut disk = Disk::new();
    let r = disk.delete_version_directory(&s("data"), &s("nope"));
    match r {
        Err(VdError::NotFound(x)) => assert_eq!(x, "nope"),
        _ => panic!("expected a not-found error"),
    }
}

#[test]
fn delete_only_touches_the_named_version() {
    let mut disk = Disk::new();
    disk.create_version_directory(&s("data"), &s("v1")).unwrap();
    disk.create_version_directory(&s("data"), &s("v2")).unwrap();
    disk.delete_version_directory(&s("data"), &s("v1")).unwrap();
    assert!(!disk.path_exists(&s("data/v1")));
    assert_eq!(disk.read_json_file(&s("data/v2/commodities.json")).unwrap(), r#"{"commodities":[]}"#);
}

#[test]
fn error_messages_name_the_subject() {
    let mut disk = Disk::new();
    let r = disk.clone_version_directory(&s("data"), &s("missing"), &s("v2"));
    let e = r.err().unwrap();
    assert_eq!(e.message(), "not found: missing");
    disk.create_version_directory(&s("data"), &s("v1")).unwrap();
    let r2 = disk.clone_version_directory(&s("data"), &s("v1"), &s("v1"));
    assert_eq!(r2.err().unwrap().message(), "already exists: v1");
}
