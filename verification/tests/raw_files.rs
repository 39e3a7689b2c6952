//! Raw read/write of arbitrary paths on the model disk.

use info_system::disk::Disk;
use info_system::errors::VdError;

fn s(x: &str) -> String {
    x.to_string()
}

#[test]
fn write_read_round_trip() {
    let mut disk = Disk::new();
    disk.write_json_file(&s("/tmp/x.json"), s(r#"{"a":1}"#)).unwrap();
    assert_eq!(disk.read_json_file(&s("/tmp/x.json")).unwrap(), r#"{"a":1}"#);
}

#[test]
fn write_read_round_trip_empty_and_non_ascii() {
    let mut disk = Disk::new();
    disk.write_json_file(&s("/tmp/empty.json"), s("")).unwrap();
    assert_eq!(disk.read_json_file(&s("/tmp/empty.json")).unwrap(), "");
    let content = s("{\"name\":\"h\u{e9}llo \u{65e5}\u{672c}\u{8a9e} \u{1f600}\"}");
    disk.write_json_file(&s("/tmp/unicode.json"), content.clone()).unwrap();
    assert_eq!(disk.read_json_file(&s("/tmp/unicode.json")).unwrap(), content);
}

#[test]
fn write_overwrites_previous_content() {
    let mut disk = Disk::new();
    disk.write_json_file(&s("/tmp/x.json"), s("first")).unwrap();
    disk.write_json_file(&s("/tmp/x.json"), s("second")).unwrap();
    assert_eq!(disk.read_json_file(&s("/tmp/x.json")).unwrap(), "second");
}

#[test]
fn read_missing_file_fails() {
    let disk = Disk::new();
    let r = disk.read_json_file(&s("/nope.json"));
    match r {
        Err(VdError::NotFound(x)) => {
            assert_eq!(x, "/nope.json");
        },
        _ => panic!("expected a not-found error"),
    }
    let e = disk.read_json_file(&s("/nope.json")).err().unwrap();
    assert_eq!(e.message(), "not found: /nope.json");
}
