use minils::config::Config;
use minils::identity::IdentityCache;
use minils::numeral::{u32_to_decimal, u64_to_decimal};

#[test]
fn unresolvable_uid_falls_back_to_its_decimal_form() {
    let mut cache = IdentityCache::new();
    assert_eq!(cache.resolve_user(12345, None), "12345");
    assert_eq!(cache.resolve_group(0, None), "0");
}

#[test]
fn resolution_is_memoized_per_id() {
    let mut cache = IdentityCache::new();
    assert_eq!(cache.resolve_user(7, Some("alice".to_string())), "alice");
    assert!(cache.has_user(7));
    assert_eq!(cache.resolve_user(7, None), "alice");
    assert_eq!(cache.resolve_user(7, Some("other".to_string())), "alice");
    assert!(!cache.has_user(8));
}

#[test]
fn user_and_group_caches_are_separate() {
    let mut cache = IdentityCache::new();
    assert_eq!(cache.resolve_user(5, Some("u".to_string())), "u");
    assert!(!cache.has_group(5));
    assert_eq!(cache.resolve_group(5, None), "5");
    assert_eq!(cache.resolve_user(5, None), "u");
}

#[test]
fn decimal_rendering_of_numbers() {
    assert_eq!(u64_to_decimal(0), "0");
    assert_eq!(u64_to_decimal(7), "7");
    assert_eq!(u64_to_decimal(1234567890), "1234567890");
    assert_eq!(u64_to_decimal(u64::MAX), "18446744073709551615");
    assert_eq!(u32_to_decimal(u32::MAX), "4294967295");
}

#[test]
fn no_arguments_defaults_to_the_current_directory() {
    let c = Config::new(Vec::new());
    assert_eq!(c.directories, vec![".".to_string()]);
    assert!(!c.show_directory_name);
    assert!(!c.list_output);
}

#[test]
fn flag_alone_still_defaults_the_path() {
    let c = Config::new(vec!["-l".to_string()]);
    assert_eq!(c.directories, vec![".".to_string()]);
    assert!(c.list_output);
    assert!(!c.show_directory_name);
}

#[test]
fn single_path_is_not_announced() {
    let c = Config::new(vec!["one".to_string()]);
    assert_eq!(c.directories, vec!["one".to_string()]);
    assert!(!c.show_directory_name);
}

#[test]
fn several_paths_are_announced_in_order() {
    let c = Config::new(vec!["one".to_string(), "-l".to_string(), "two".to_string()]);
    assert_eq!(c.directories, vec!["one".to_string(), "two".to_string()]);
    assert!(c.show_directory_name);
    assert!(c.list_output);
}
