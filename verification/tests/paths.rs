use terminator::paths::{
    is_hidden, kind_of, listing_of, remote_listing, local_home, posix_join, posix_name, posix_parent, safe_file_name,
    sort_entries, EntryKind, FileEntry, TransferMeter, PROGRESS_INTERVAL,
};

fn entry(name: &str, kind: EntryKind, size: u64) -> FileEntry {
    FileEntry {
        name: name.to_string(),
        path: format!("/d/{name}"),
        kind,
        size,
        modified: None,
        hidden: is_hidden(name),
        symlink: false,
    }
}

#[test]
fn posix_parent_stops_at_root() {
    assert_eq!(posix_parent("/home/user/docs"), Some("/home/user".into()));
    // The parent of a top-level directory is "/", not an empty string.
    assert_eq!(posix_parent("/home"), Some("/".into()));
    assert_eq!(posix_parent("/"), None);
    assert_eq!(posix_parent(""), None);
}

#[test]
fn posix_parent_ignores_trailing_slash() {
    assert_eq!(posix_parent("/home/user/"), Some("/home".into()));
}

#[test]
fn posix_join_handles_root_and_absolute() {
    assert_eq!(posix_join("/home", "f.txt"), "/home/f.txt");
    // Root already ends in a slash; naive joining yields "//f.txt".
    assert_eq!(posix_join("/", "f.txt"), "/f.txt");
    // An absolute name replaces the base rather than nesting under it.
    assert_eq!(posix_join("/home", "/etc/hosts"), "/etc/hosts");
}

#[test]
fn posix_name_returns_last_component() {
    assert_eq!(posix_name("/home/user/f.txt"), "f.txt");
    assert_eq!(posix_name("/home/user/"), "user");
}

#[test]
fn plain_names_pass_through() {
    assert_eq!(safe_file_name("report.csv").unwrap(), "report.csv");
    assert_eq!(safe_file_name("a b.tar.gz").unwrap(), "a b.tar.gz");
}

#[test]
fn traversal_is_stripped_or_rejected() {
    assert_eq!(safe_file_name("../../etc/passwd").unwrap(), "passwd");
    assert_eq!(safe_file_name("/etc/passwd").unwrap(), "passwd");
    assert!(safe_file_name("..").is_err());
    assert!(safe_file_name(".").is_err());
    assert!(safe_file_name("").is_err());
    assert!(safe_file_name("/").is_err());
}

#[test]
fn refused_names_are_quoted_in_the_message() {
    assert_eq!(safe_file_name("..").unwrap_err(), "unsafe file name: \"..\"");
}

#[test]
fn listing_sorts_dirs_first_then_case_insensitively() {
    let entries = vec![
        entry("Beta.txt", EntryKind::File, 1),
        entry("Zeta", EntryKind::Dir, 0),
        entry("apple.txt", EntryKind::File, 3),
        entry("alpha", EntryKind::Dir, 0),
    ];
    let listing = listing_of("/d".to_string(), Some("/".to_string()), entries);
    let names: Vec<_> = listing.entries.iter().map(|e| e.name.as_str()).collect();
    assert_eq!(names, vec!["alpha", "Zeta", "apple.txt", "Beta.txt"]);
    assert_eq!(listing.parent.as_deref(), Some("/"));
    let apple = listing.entries.iter().find(|e| e.name == "apple.txt").unwrap();
    assert_eq!(apple.size, 3);
    assert_eq!(apple.kind, EntryKind::File);
}

#[test]
fn an_empty_parent_is_no_parent() {
    let listing = listing_of("x".to_string(), Some(String::new()), Vec::new());
    assert_eq!(listing.parent, None);
    assert!(listing.entries.is_empty());
}

#[test]
fn hidden_entries_are_flagged_and_kept() {
    let mut v = vec![entry(".secret", EntryKind::File, 1), entry("b", EntryKind::File, 1)];
    sort_entries(&mut v);
    assert_eq!(v.len(), 2);
    assert_eq!(v[0].name, ".secret");
    assert!(v[0].hidden);
    assert!(!v[1].hidden);
}

#[test]
fn kinds_follow_the_resolved_target() {
    assert_eq!(kind_of(true, false), EntryKind::Dir);
    assert_eq!(kind_of(false, true), EntryKind::File);
    assert_eq!(kind_of(false, false), EntryKind::Other);
}

#[test]
fn home_falls_back_to_root() {
    assert_eq!(local_home(Some("/home/me".to_string())), "/home/me");
    assert_eq!(local_home(None), "/");
}

#[test]
fn progress_is_reported_every_interval_and_finishes_at_the_total() {
    let mut m = TransferMeter::new(0);
    assert!(m.advance(PROGRESS_INTERVAL - 1).is_none());
    let p = m.advance(1).expect("a report at the interval");
    assert_eq!((p.transferred, p.total), (PROGRESS_INTERVAL, 0));
    assert!(m.advance(10).is_none());
    let last = m.finish();
    // An unknown size settles on what was moved.
    assert_eq!((last.transferred, last.total), (PROGRESS_INTERVAL + 10, PROGRESS_INTERVAL + 10));
}

#[test]
fn entries_that_sort_level_keep_their_order() {
    let mut v = vec![entry("B", EntryKind::File, 1), entry("a", EntryKind::File, 2), entry("b", EntryKind::File, 3)];
    sort_entries(&mut v);
    let names: Vec<_> = v.iter().map(|e| e.name.as_str()).collect();
    assert_eq!(names, vec!["a", "B", "b"]);
    let mut w = vec![entry("b", EntryKind::File, 3), entry("B", EntryKind::File, 1)];
    sort_entries(&mut w);
    assert_eq!(w[0].name, "b");
}

#[test]
fn remote_listings_drop_the_dot_rows_and_go_up_posix_style() {
    let entries = vec![
        entry(".", EntryKind::Dir, 0),
        entry("file", EntryKind::File, 1),
        entry("..", EntryKind::Dir, 0),
        entry(".hidden", EntryKind::Dir, 0),
    ];
    let l = remote_listing("/home/me".to_string(), entries);
    let names: Vec<_> = l.entries.iter().map(|e| e.name.as_str()).collect();
    assert_eq!(names, vec![".hidden", "file"]);
    assert_eq!(l.parent.as_deref(), Some("/home"));
    assert_eq!(remote_listing("/".to_string(), Vec::new()).parent, None);
}

#[test]
fn going_up_and_back_down_rebuilds_the_path() {
    for p in ["/home/user/docs", "/home", "rel/dir/file", "/srv/data/"] {
        let parent = posix_parent(p).unwrap();
        let back = posix_join(&parent, &posix_name(p));
        assert_eq!(back, p.trim_end_matches('/'));
    }
}

#[test]
fn file_names_follow_path_components() {
    assert_eq!(safe_file_name("a/b/").unwrap(), "b");
    assert_eq!(safe_file_name("a//b").unwrap(), "b");
    assert_eq!(safe_file_name("a/.").unwrap(), "a");
    assert_eq!(safe_file_name("../../.ssh/authorized_keys").unwrap(), "authorized_keys");
    assert!(safe_file_name("a/..").is_err());
    assert!(safe_file_name("/").is_err());
    assert!(safe_file_name("./").is_err());
    assert!(safe_file_name("").is_err());
}

#[test]
fn joining_then_going_up_or_naming_undoes_the_join() {
    for base in ["/", "/home", "/home/user", "relative"] {
        let joined = posix_join(base, "file.txt");
        assert_eq!(posix_parent(&joined).as_deref(), Some(base));
        assert_eq!(posix_name(&joined), "file.txt");
    }
    assert_eq!(posix_name(&posix_join("/home/", "x")), "x");
    assert_eq!(posix_parent("/a"), Some("/".to_string()));
}
