use rocfl_listing::listing::{FileDetails, Listing, ObjectSummary, ObjectVersionView};
use rocfl_listing::command::{list_command, exec_command, AppArgs, Command, List, Query};
use rocfl_listing::order::Field;
use rocfl_listing::text::{join_chain, push_decimal, push_left_justified, push_right_justified, push_spaces};
use rocfl_listing::time::Timestamp;
use rocfl_listing::version::{parse_version, ListError, VersionId};

fn version(n: i64) -> VersionId {
    VersionId::from_integer(n).unwrap()
}

fn at(secs: i64) -> Timestamp {
    Timestamp::new(secs, 0, 0).unwrap()
}

fn request(object_id: Option<&str>, version: Option<i64>) -> List {
    List {
        long: false,
        physical: false,
        digest: false,
        version,
        sort: Field::Name,
        reverse: false,
        object_id: object_id.map(String::from),
    }
}

#[test]
fn version_zero_is_a_configuration_error() {
    assert!(matches!(VersionId::from_integer(0), Err(ListError::Configuration)));
}

#[test]
fn negative_version_is_a_configuration_error() {
    assert!(matches!(VersionId::from_integer(-1), Err(ListError::Configuration)));
    assert!(matches!(VersionId::from_integer(i64::MIN), Err(ListError::Configuration)));
}

#[test]
fn version_five_has_a_stable_text() {
    let a = VersionId::from_integer(5).unwrap();
    let b = VersionId::from_integer(5).unwrap();
    assert_eq!(a.number(), 5);
    assert_eq!(a.version_str(), "v5");
    assert_eq!(a.version_str(), a.version_str());
    assert_eq!(a.version_str(), b.version_str());
    assert_eq!(a, b);
}

#[test]
fn version_text_has_no_padding() {
    assert_eq!(version(1).version_str(), "v1");
    assert_eq!(version(10).version_str(), "v10");
    assert_eq!(version(1234567).version_str(), "v1234567");
    assert_eq!(version(i64::MAX).version_str(), "v9223372036854775807");
}

#[test]
fn parse_version_passes_absence_through() {
    assert!(matches!(parse_version(None), Ok(None)));
}

#[test]
fn parse_version_accepts_positive_numbers() {
    let v = parse_version(Some(3)).unwrap().unwrap();
    assert_eq!(v.number(), 3);
}

#[test]
fn parse_version_rejects_zero_and_below() {
    assert!(matches!(parse_version(Some(0)), Err(ListError::Configuration)));
    assert!(matches!(parse_version(Some(-7)), Err(ListError::Configuration)));
}

#[test]
fn decimal_numerals() {
    let mut out = String::new();
    push_decimal(&mut out, 0);
    out.push(' ');
    push_decimal(&mut out, 9);
    out.push(' ');
    push_decimal(&mut out, 10);
    out.push(' ');
    push_decimal(&mut out, 4075);
    out.push(' ');
    push_decimal(&mut out, u64::MAX);
    assert_eq!(out, "0 9 10 4075 18446744073709551615");
}

#[test]
fn padding_fills_up_to_the_width() {
    let mut out = String::from("[");
    push_left_justified(&mut out, "ab", 5);
    out.push_str("][");
    push_right_justified(&mut out, "ab", 5);
    out.push_str("][");
    push_spaces(&mut out, 3);
    out.push(']');
    assert_eq!(out, "[ab   ][   ab][   ]");
}

#[test]
fn padding_never_truncates() {
    let mut out = String::new();
    push_left_justified(&mut out, "abcdef", 3);
    push_right_justified(&mut out, "ghijkl", 6);
    push_right_justified(&mut out, "", 0);
    assert_eq!(out, "abcdefghijkl");
}

#[test]
fn padding_counts_characters_not_bytes() {
    let mut out = String::new();
    push_left_justified(&mut out, "héé", 5);
    out.push('|');
    assert_eq!(out, "héé  |");
}

#[test]
fn cause_chain_is_joined_outermost_first() {
    assert_eq!(join_chain(&vec![]), "");
    assert_eq!(join_chain(&vec![String::from("only")]), "only");
    assert_eq!(
        join_chain(&vec![String::from("outer"), String::from("middle"), String::from("root")]),
        "outer: middle: root"
    );
}

#[test]
fn timestamp_text_at_the_epoch() {
    let t = Timestamp::new(0, 0, 0).unwrap();
    assert_eq!(t.updated_str(), "1970-01-01 00:00:00");
    assert_eq!(t.timestamp(), 0);
    assert_eq!(t.subsec_nanos(), 0);
    assert_eq!(t.offset_seconds(), 0);
}

#[test]
fn timestamp_text_is_read_in_its_zone() {
    let utc = Timestamp::new(1577934245, 999_999_999, 0).unwrap();
    assert_eq!(utc.updated_str(), "2020-01-02 03:04:05");
    let east = Timestamp::new(1577934245, 0, 3600).unwrap();
    assert_eq!(east.updated_str(), "2020-01-02 04:04:05");
    let west = Timestamp::new(1577934245, 0, -5 * 3600).unwrap();
    assert_eq!(west.updated_str(), "2020-01-01 22:04:05");
    assert_eq!(west.timestamp(), 1577934245);
    assert_eq!(west.offset_seconds(), -18000);
}

#[test]
fn timestamp_outside_the_calendar_is_refused() {
    assert!(Timestamp::new(i64::MAX, 0, 0).is_none());
    assert!(Timestamp::new(i64::MIN, 0, 0).is_none());
    assert!(Timestamp::new(0, 2_000_000_000, 0).is_none());
    assert!(Timestamp::new(0, 0, 86_400).is_none());
    assert!(Timestamp::new(0, 0, -86_400).is_none());
    assert!(Timestamp::new(0, 0, 86_399).is_some());
}

#[test]
fn object_entry_has_no_digest() {
    let object = ObjectSummary {
        identifier: String::from("urn:example:1"),
        head_version: version(4),
        created: at(1000),
        root_path: String::from("a1b/2c3/obj"),
    };
    let entry = Listing::from_object(&object);
    assert_eq!(entry.name, "urn:example:1");
    assert_eq!(entry.version, version(4));
    assert_eq!(entry.updated.timestamp(), 1000);
    assert_eq!(entry.storage_path, "a1b/2c3/obj");
    assert!(entry.digest.is_none());
    assert!(entry.digest_algorithm.is_none());
}

#[test]
fn file_entry_carries_digest_and_algorithm() {
    let path = String::from("dir/file.txt");
    let algorithm = String::from("sha512");
    let details = FileDetails {
        last_update_version: version(2),
        last_update_created: at(2000),
        storage_path: String::from("obj/v2/content/dir/file.txt"),
        digest: String::from("abc123"),
    };
    let entry = Listing::new(&path, &details, &algorithm);
    assert_eq!(entry.name, "dir/file.txt");
    assert_eq!(entry.version.number(), 2);
    assert_eq!(entry.updated.timestamp(), 2000);
    assert_eq!(entry.storage_path, "obj/v2/content/dir/file.txt");
    assert_eq!(entry.digest.map(|s| s.as_str()), Some("abc123"));
    assert_eq!(entry.digest_algorithm.map(|s| s.as_str()), Some("sha512"));
}

#[test]
fn no_object_means_enumerating_all() {
    assert!(matches!(list_command(&request(None, None)), Ok(Query::ListObjects)));
}

#[test]
fn no_object_leaves_the_selector_unchecked() {
    assert!(matches!(list_command(&request(None, Some(0))), Ok(Query::ListObjects)));
}

#[test]
fn object_without_selector_is_looked_up_at_its_head() {
    match list_command(&request(Some("obj-1"), None)) {
        Ok(Query::GetObject { object_id, version }) => {
            assert_eq!(object_id, "obj-1");
            assert!(version.is_none());
        }
        other => panic!("unexpected: {:?}", other),
    }
}

#[test]
fn object_with_selector_is_looked_up_at_that_version() {
    match list_command(&request(Some("obj-1"), Some(7))) {
        Ok(Query::GetObject { object_id, version }) => {
            assert_eq!(object_id, "obj-1");
            assert_eq!(version.map(|v| v.number()), Some(7));
        }
        other => panic!("unexpected: {:?}", other),
    }
}

#[test]
fn invalid_selector_fails_before_any_query() {
    assert!(matches!(list_command(&request(Some("obj-1"), Some(0))), Err(ListError::Configuration)));
    assert!(matches!(list_command(&request(Some("obj-1"), Some(-1))), Err(ListError::Configuration)));
}

#[test]
fn exec_command_decides_as_its_subcommand() {
    let args = AppArgs { root: None, quiet: false, command: Command::List(request(Some("o"), Some(2))) };
    match exec_command(&args) {
        Ok(Query::GetObject { object_id, version }) => {
            assert_eq!(object_id, "o");
            assert_eq!(version.map(|v| v.number()), Some(2));
        }
        other => panic!("unexpected: {:?}", other),
    }
    let all = AppArgs { root: Some(String::from("/repo")), quiet: true, command: Command::List(request(None, None)) };
    assert!(matches!(exec_command(&all), Ok(Query::ListObjects)));
    let bad = AppArgs { root: None, quiet: false, command: Command::List(request(Some("o"), Some(0))) };
    assert!(matches!(exec_command(&bad), Err(ListError::Configuration)));
}

#[test]
fn inserting_files_keeps_arrival_order() {
    let mut view = ObjectVersionView::new(
        String::from("obj-1"),
        version(3),
        at(10),
        String::from("root/obj-1"),
        String::from("sha256"),
    );
    assert!(view.state.is_empty());
    assert_eq!(view.id, "obj-1");
    assert_eq!(view.version.number(), 3);
    assert_eq!(view.root, "root/obj-1");
    assert_eq!(view.digest_algorithm, "sha256");
    let file = |digest: &str| FileDetails {
        last_update_version: version(1),
        last_update_created: at(5),
        storage_path: String::from("p"),
        digest: String::from(digest),
    };
    assert!(view.insert(String::from("b"), file("d1")).is_none());
    assert!(view.insert(String::from("a"), file("d2")).is_none());
    let paths: Vec<&str> = view.state.iter().map(|e| e.path.as_str()).collect();
    assert_eq!(paths, vec!["b", "a"]);
}

#[test]
fn inserting_a_known_path_replaces_its_file() {
    let mut view = ObjectVersionView::new(
        String::from("obj-1"),
        version(3),
        at(10),
        String::from("root/obj-1"),
        String::from("sha256"),
    );
    let file = |digest: &str| FileDetails {
        last_update_version: version(1),
        last_update_created: at(5),
        storage_path: String::from("p"),
        digest: String::from(digest),
    };
    view.insert(String::from("b"), file("d1"));
    view.insert(String::from("a"), file("d2"));
    let replaced = view.insert(String::from("b"), file("d3"));
    assert_eq!(replaced.map(|d| d.digest), Some(String::from("d1")));
    let seen: Vec<(&str, &str)> =
        view.state.iter().map(|e| (e.path.as_str(), e.details.digest.as_str())).collect();
    assert_eq!(seen, vec![("b", "d3"), ("a", "d2")]);
}
