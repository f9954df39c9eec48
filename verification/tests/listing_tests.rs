use minils::entry::{is_dotfile, get_block_size, Entry, Metadata};
use minils::identity::IdentityCache;
use minils::listing::{partition_entries, filter_visible, total_block_count, prepare_entries};
use minils::render::render_listing;

fn plain_meta(blocks: u64) -> Metadata {
    Metadata {
        mode: 0o100644,
        nlink: 1,
        uid: 1000,
        gid: 1000,
        size: 0,
        blocks,
        modified: None,
    }
}

fn file_entry(name: &str, blocks: u64) -> Entry {
    Entry {
        name: Some(name.to_string()),
        path: name.as_bytes().to_vec(),
        is_dir: false,
        metadata: Some(plain_meta(blocks)),
        link_target: None,
    }
}

fn dir_entry(name: &str) -> Entry {
    Entry {
        name: Some(name.to_string()),
        path: name.as_bytes().to_vec(),
        is_dir: true,
        metadata: Some(plain_meta(8)),
        link_target: None,
    }
}

#[test]
fn dotfile_detection_is_on_the_first_character() {
    assert!(is_dotfile(&file_entry(".env", 0)));
    assert!(!is_dotfile(&file_entry("env.", 0)));
    assert!(!is_dotfile(&file_entry("", 0)));
}

#[test]
fn undecodable_name_is_not_hidden() {
    let e = Entry {
        name: None,
        path: vec![0xFF, 0xFE],
        is_dir: false,
        metadata: None,
        link_target: None,
    };
    assert!(!is_dotfile(&e));
}

#[test]
fn hidden_entries_are_filtered_out() {
    let entries = vec![file_entry(".env", 0), file_entry("env.", 0), file_entry(".git", 0)];
    let kept = filter_visible(entries);
    assert_eq!(kept.len(), 1);
    assert_eq!(kept[0].name.as_deref(), Some("env."));
}

#[test]
fn partition_is_exhaustive_and_exclusive() {
    let entries = vec![
        file_entry("a", 0),
        dir_entry("b"),
        file_entry("c", 0),
        dir_entry("d"),
        file_entry("e", 0),
    ];
    let total = entries.len();
    let (files, dirs) = partition_entries(entries);
    assert_eq!(files.len() + dirs.len(), total);
    assert!(files.iter().all(|e| !e.is_dir));
    assert!(dirs.iter().all(|e| e.is_dir));
    let file_names: Vec<_> = files.iter().map(|e| e.name.clone().unwrap()).collect();
    let dir_names: Vec<_> = dirs.iter().map(|e| e.name.clone().unwrap()).collect();
    assert_eq!(file_names, vec!["a", "c", "e"]);
    assert_eq!(dir_names, vec!["b", "d"]);
    assert!(!file_names.iter().any(|n| dir_names.contains(n)));
}

#[test]
fn prepared_partitions_are_sorted_by_path_bytes() {
    let entries = vec![
        file_entry("zebra", 0),
        dir_entry("beta"),
        file_entry("alpha", 0),
        dir_entry("Alpha"),
        file_entry("Beta", 0),
    ];
    let (files, dirs) = prepare_entries(entries);
    let file_names: Vec<_> = files.iter().map(|e| e.name.clone().unwrap()).collect();
    let dir_names: Vec<_> = dirs.iter().map(|e| e.name.clone().unwrap()).collect();
    assert_eq!(file_names, vec!["Beta", "alpha", "zebra"]);
    assert_eq!(dir_names, vec!["Alpha", "beta"]);
}

#[test]
fn repeated_preparation_gives_identical_partitions() {
    let make = || {
        vec![
            file_entry("b.txt", 8),
            dir_entry("a"),
            file_entry("c.txt", 16),
        ]
    };
    let (f1, d1) = prepare_entries(make());
    let (f2, d2) = prepare_entries(make());
    let names = |v: &Vec<Entry>| v.iter().map(|e| e.name.clone().unwrap()).collect::<Vec<_>>();
    assert_eq!(names(&f1), names(&f2));
    assert_eq!(names(&d1), names(&d2));
}

#[test]
fn block_total_counts_files_only() {
    let files = vec![file_entry("x", 8), file_entry("y", 16)];
    assert_eq!(total_block_count(&files), 24);
    let mut cache = IdentityCache::new();
    let entries = vec![file_entry("x", 8), file_entry("y", 16), dir_entry("sub")];
    let out = render_listing(entries, true, &mut cache);
    assert!(out.starts_with("total 24\n"));
}

#[test]
fn missing_metadata_contributes_zero_blocks() {
    let mut e = file_entry("x", 5);
    e.metadata = None;
    assert_eq!(get_block_size(&e), 0);
    let entries = vec![e, file_entry("y", 3)];
    assert_eq!(total_block_count(&entries), 3);
}

#[test]
fn compact_listing_lists_files_then_directories() {
    let entries = vec![
        file_entry("b.txt", 8),
        dir_entry("a"),
        file_entry(".hidden", 8),
    ];
    let mut cache = IdentityCache::new();
    let out = render_listing(entries, false, &mut cache);
    assert_eq!(out, "b.txt\ta\t\n");
    assert!(!out.contains(".hidden"));
}

#[test]
fn empty_directory_renders_bare_terminators() {
    let mut cache = IdentityCache::new();
    let out = render_listing(Vec::new(), false, &mut cache);
    assert_eq!(out, "\n");
    let mut cache = IdentityCache::new();
    let out = render_listing(Vec::new(), true, &mut cache);
    assert_eq!(out, "total 0\n\n");
}

#[test]
fn entry_without_metadata_is_excluded_entirely() {
    let mut ghostly = file_entry("ghostly", 8);
    ghostly.metadata = None;
    let entries = vec![ghostly, file_entry("real", 8), dir_entry("sub")];
    let (files, dirs) = prepare_entries(entries);
    assert_eq!(files.len(), 1);
    assert_eq!(dirs.len(), 1);
    assert_eq!(files[0].name.as_deref(), Some("real"));

    let mut unreadable_dir = dir_entry("lost");
    unreadable_dir.metadata = None;
    let entries = vec![unreadable_dir, file_entry("real", 8)];
    let mut cache = IdentityCache::new();
    let compact = render_listing(entries, false, &mut cache);
    assert_eq!(compact, "real\t\n");

    let mut unreadable = file_entry("gone", 8);
    unreadable.metadata = None;
    let entries = vec![unreadable, file_entry("kept", 4)];
    let mut cache = IdentityCache::new();
    let detailed = render_listing(entries, true, &mut cache);
    assert!(detailed.starts_with("total 4\n"));
    assert!(!detailed.contains("gone"));
}

#[test]
fn undecodable_name_is_skipped_in_compact_output() {
    let nameless = Entry {
        name: None,
        path: vec![0x01],
        is_dir: false,
        metadata: Some(plain_meta(0)),
        link_target: None,
    };
    let entries = vec![nameless, file_entry("seen", 0)];
    let mut cache = IdentityCache::new();
    let out = render_listing(entries, false, &mut cache);
    assert_eq!(out, "seen\t\n");
}
