//! Path arithmetic and data-directory resolution.

use info_system::errors::VdError;
use info_system::paths::get_data_dir;
use info_system::paths::parent_dir;
use info_system::paths::path_join;

fn s(x: &str) -> String {
    x.to_string()
}

#[test]
fn join_inserts_one_separator() {
    assert_eq!(path_join(&s("a"), &s("b")), "a/b");
    assert_eq!(path_join(&s("/home/u"), &s("data")), "/home/u/data");
    assert_eq!(path_join(&s(""), &s("b")), "/b");
}

#[test]
fn parent_dir_cases() {
    assert_eq!(parent_dir(&s("/home/u/proj")), Some(s("/home/u")));
    assert_eq!(parent_dir(&s("a/b")), Some(s("a")));
    assert_eq!(parent_dir(&s("/a")), Some(s("/")));
    assert_eq!(parent_dir(&s("/")), None);
    assert_eq!(parent_dir(&s("plain")), None);
    assert_eq!(parent_dir(&s("")), None);
}

#[test]
fn dev_mode_resolves_two_levels_up() {
    let manifest = s("/home/u/proj/app/src-tauri");
    let r = get_data_dir(true, &manifest, None).unwrap();
    assert_eq!(r, "/home/u/proj/data");
    assert!(r.ends_with("/data"));
}

#[test]
fn dev_mode_ignores_the_config_dir() {
    let manifest = s("/home/u/proj/app/src-tauri");
    let with_cfg = get_data_dir(true, &manifest, Some(&s("/somewhere/else"))).unwrap();
    let without_cfg = get_data_dir(true, &manifest, None).unwrap();
    assert_eq!(with_cfg, without_cfg);
}

#[test]
fn dev_mode_fails_without_two_parents() {
    match get_data_dir(true, &s("/"), None) {
        Err(VdError::NoParent) => {},
        _ => panic!("expected a no-parent error"),
    }
    // one parent step works, the second does not
    match get_data_dir(true, &s("/app"), None) {
        Err(VdError::NoParent) => {},
        _ => panic!("expected a no-parent error"),
    }
    match get_data_dir(true, &s("plain"), None) {
        Err(VdError::NoParent) => {},
        _ => panic!("expected a no-parent error"),
    }
}

#[test]
fn prod_mode_uses_the_config_dir() {
    let cfg = s("/home/u/.config/app");
    assert_eq!(get_data_dir(false, &s("/ignored"), Some(&cfg)).unwrap(), "/home/u/.config/app/data");
    match get_data_dir(false, &s("/ignored"), None) {
        Err(VdError::NoConfigDir) => {},
        _ => panic!("expected a no-config-dir error"),
    }
}

#[test]
fn error_messages_for_resolution_failures() {
    let e = get_data_dir(true, &s("/"), None).err().unwrap();
    assert_eq!(e.message(), "failed to get parent directory");
    let e2 = get_data_dir(false, &s("/x"), None).err().unwrap();
    assert_eq!(e2.message(), "failed to get app config directory");
}
