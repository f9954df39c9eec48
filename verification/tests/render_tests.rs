use minils::entry::{Entry, Metadata};
use minils::identity::IdentityCache;
use minils::render::{
    convert_system_time_to_seconds, render_diagnostic, render_file_target, render_header,
    render_long_list_item, stringify_date, ReadError, MAX_FORMATTABLE_SECS, MIN_FORMATTABLE_SECS,
};

#[test]
fn missing_timestamp_renders_unknown() {
    assert_eq!(stringify_date(None), "Unknown");
}

#[test]
fn epoch_renders_january_first_midnight() {
    assert_eq!(stringify_date(Some(0)), "Jan 01 00:00");
}

#[test]
fn known_timestamp_renders_month_day_and_time() {
    assert_eq!(stringify_date(Some(1431648000)), "May 15 00:00");
    assert_eq!(stringify_date(Some(1234567890)), "Feb 13 23:31");
}

#[test]
fn formattable_range_matches_the_calendar_bounds() {
    assert!(convert_system_time_to_seconds(MIN_FORMATTABLE_SECS).is_some());
    assert!(convert_system_time_to_seconds(MIN_FORMATTABLE_SECS - 1).is_none());
    assert!(convert_system_time_to_seconds(MAX_FORMATTABLE_SECS).is_some());
    assert!(convert_system_time_to_seconds(MAX_FORMATTABLE_SECS + 1).is_none());
    assert_eq!(stringify_date(Some(MAX_FORMATTABLE_SECS + 1)), "Unknown");
}

#[test]
fn stamps_are_twelve_characters() {
    for secs in [0i64, 1431648000, -86400, 951827696] {
        assert_eq!(stringify_date(Some(secs)).chars().count(), 12);
    }
}

#[test]
fn header_appends_colon_and_newline() {
    assert_eq!(render_header(&"some/dir".to_string()), "some/dir:\n");
}

#[test]
fn file_target_is_the_path_on_one_line() {
    assert_eq!(render_file_target(&"notes.txt".to_string()), "notes.txt\n");
}

#[test]
fn diagnostic_line_names_the_tool_the_path_and_the_message() {
    let err = ReadError::NotAccessible("No such file or directory (os error 2)".to_string());
    assert_eq!(
        render_diagnostic(&"missing".to_string(), &err),
        "ls: missing: No such file or directory (os error 2)\n"
    );
}

#[test]
fn detailed_line_is_tab_separated() {
    let e = Entry {
        name: Some("f".to_string()),
        path: b"f".to_vec(),
        is_dir: false,
        metadata: Some(Metadata {
            mode: 0o100644,
            nlink: 1,
            uid: 1000,
            gid: 1001,
            size: 5,
            blocks: 8,
            modified: Some(0),
        }),
        link_target: None,
    };
    let mut cache = IdentityCache::new();
    let line = render_long_list_item(&e, &mut cache);
    assert_eq!(line, "-rw-r--r--\t1\t1000\t1001\t5\tJan 01 00:00\tf\n");
}

#[test]
fn symlink_line_carries_the_arrow_suffix() {
    let e = Entry {
        name: Some("link".to_string()),
        path: b"link".to_vec(),
        is_dir: false,
        metadata: Some(Metadata {
            mode: 0o120777,
            nlink: 1,
            uid: 0,
            gid: 0,
            size: 6,
            blocks: 0,
            modified: None,
        }),
        link_target: Some("target".to_string()),
    };
    let mut cache = IdentityCache::new();
    let line = render_long_list_item(&e, &mut cache);
    assert_eq!(line, "lrwxrwxrwx\t1\t0\t0\t6\tUnknown\tlink -> target\n");
}

#[test]
fn entry_without_metadata_renders_no_detailed_line() {
    let e = Entry {
        name: Some("gone".to_string()),
        path: b"gone".to_vec(),
        is_dir: false,
        metadata: None,
        link_target: None,
    };
    let mut cache = IdentityCache::new();
    assert_eq!(render_long_list_item(&e, &mut cache), "");
}
