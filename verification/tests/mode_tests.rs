use minils::mode::stringify_mode;

#[test]
fn regular_file_with_common_permissions() {
    assert_eq!(stringify_mode(0o100644), "-rw-r--r--");
}

#[test]
fn directory_with_exec_permissions() {
    assert_eq!(stringify_mode(0o040755), "drwxr-xr-x");
}

#[test]
fn symlink_socket_block_char_fifo_types() {
    assert_eq!(stringify_mode(0o120777), "lrwxrwxrwx");
    assert_eq!(stringify_mode(0o140000), "s---------");
    assert_eq!(stringify_mode(0o060640), "brw-r-----");
    assert_eq!(stringify_mode(0o020666), "crw-rw-rw-");
    assert_eq!(stringify_mode(0o010600), "prw-------");
}

#[test]
fn unrecognised_type_renders_question_mark() {
    assert_eq!(stringify_mode(0o000777), "?rwxrwxrwx");
    assert_eq!(stringify_mode(0o170000), "?---------");
}

#[test]
fn output_is_always_ten_characters() {
    let samples: Vec<u32> = vec![0, 1, 0o777, 0o100644, 0o040755, 0xFFFF_FFFF, 0o123456];
    for mode in samples {
        let s = stringify_mode(mode);
        assert_eq!(s.chars().count(), 10);
        let first = s.chars().next().unwrap();
        assert!(matches!(first, 's' | 'b' | 'd' | '-' | 'l' | 'c' | 'p' | '?'));
    }
}

#[test]
fn setuid_and_sticky_bits_are_not_rendered() {
    assert_eq!(stringify_mode(0o104755), "-rwxr-xr-x");
    assert_eq!(stringify_mode(0o041777), "drwxrwxrwx");
}
