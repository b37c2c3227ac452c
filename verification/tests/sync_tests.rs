use jconf::env::Env;
use jconf::sync::{count_path_components, run_config, should_sync, sync, sync_file, trim_base_path,
    Command, EntryKind, FsFile, FsTree, SyncError};

fn file(path: &str, mtime: u64, content: &[u8]) -> FsFile {
    FsFile { path: path.to_string(), kind: EntryKind::File, mtime, content: content.to_vec() }
}

fn tree(entries: Vec<FsFile>) -> FsTree {
    FsTree { entries }
}

fn lookup<'a>(t: &'a FsTree, path: &str) -> Option<&'a FsFile> {
    t.entries.iter().find(|e| e.path == path)
}

#[test]
fn should_sync_truth_table() {
    // forced, or destination missing, or source strictly newer
    assert!(should_sync(true, 1, Some(9)));
    assert!(should_sync(false, 1, None));
    assert!(should_sync(false, 9, Some(8)));
    assert!(!should_sync(false, 8, Some(8)));
    assert!(!should_sync(false, 7, Some(8)));
}

#[test]
fn pull_copies_missing_file_with_content_and_mtime() {
    // config { "shell": "~/.bashrc" } resolves to base ~/ and include
    // ".bashrc"; a pull then puts .bashrc under the linked tree with the
    // same bytes, and reports one file changed
    let origin = tree(vec![file(".bashrc", 100, b"export PATH\n")]);
    let mut linked = tree(vec![]);
    let n = sync(&origin, &mut linked, ".bashrc", &None, false).unwrap();
    assert_eq!(n, 1);
    let got = lookup(&linked, ".bashrc").unwrap();
    assert_eq!(got.content, b"export PATH\n".to_vec());
    assert_eq!(got.mtime, 100);
    assert!(matches!(got.kind, EntryKind::File));
}

#[test]
fn up_to_date_file_is_not_copied() {
    let origin = tree(vec![file("a.txt", 5, b"old")]);
    let mut linked = tree(vec![file("a.txt", 9, b"new")]);
    let n = sync(&origin, &mut linked, "**/*", &None, false).unwrap();
    assert_eq!(n, 0);
    assert_eq!(lookup(&linked, "a.txt").unwrap().content, b"new".to_vec());
}

#[test]
fn equal_mtimes_sync_in_neither_direction() {
    let mut origin = tree(vec![file("a.txt", 5, b"left")]);
    let mut linked = tree(vec![file("a.txt", 5, b"right")]);
    let (pulled, pushed) =
        run_config(&Command::Sync, &mut origin, &mut linked, "**/*", &None, false).unwrap();
    assert_eq!((pulled, pushed), (0, 0));
    assert_eq!(lookup(&origin, "a.txt").unwrap().content, b"left".to_vec());
    assert_eq!(lookup(&linked, "a.txt").unwrap().content, b"right".to_vec());
}

#[test]
fn force_overwrites_newer_destination() {
    // with force, a pull overwrites whatever the modification times say
    let origin = tree(vec![file("a.txt", 1, b"origin")]);
    let mut linked = tree(vec![file("a.txt", 99, b"linked")]);
    let n = sync(&origin, &mut linked, "**/*", &None, true).unwrap();
    assert_eq!(n, 1);
    let got = lookup(&linked, "a.txt").unwrap();
    assert_eq!(got.content, b"origin".to_vec());
    assert_eq!(got.mtime, 1);
}

#[test]
fn newer_linked_file_is_pushed_not_pulled() {
    // origin/a.txt at time 1, linked/a.txt at time 2: one sync pushes the
    // linked copy back and pulls nothing
    let mut origin = tree(vec![file("a.txt", 1, b"stale")]);
    let mut linked = tree(vec![file("a.txt", 2, b"fresh")]);
    let (pulled, pushed) =
        run_config(&Command::Sync, &mut origin, &mut linked, "**/*", &None, false).unwrap();
    assert_eq!((pulled, pushed), (0, 1));
    let got = lookup(&origin, "a.txt").unwrap();
    assert_eq!(got.content, b"fresh".to_vec());
    assert_eq!(got.mtime, 2);
}

#[test]
fn sync_twice_changes_nothing_the_second_time() {
    let mut origin = tree(vec![
        file("a.txt", 10, b"newest on origin"),
        file("sub/b.txt", 3, b"older on origin"),
        file("only-origin.txt", 7, b"origin only"),
    ]);
    let mut linked = tree(vec![
        file("a.txt", 4, b"older on linked"),
        file("sub/b.txt", 8, b"newest on linked"),
        file("only-linked.txt", 6, b"linked only"),
    ]);
    let first =
        run_config(&Command::Sync, &mut origin, &mut linked, "**/*", &None, false).unwrap();
    assert_eq!(first, (2, 2));
    let second =
        run_config(&Command::Sync, &mut origin, &mut linked, "**/*", &None, false).unwrap();
    assert_eq!(second, (0, 0));
    assert_eq!(lookup(&origin, "a.txt").unwrap().content, b"newest on origin".to_vec());
    assert_eq!(lookup(&linked, "sub/b.txt").unwrap().content, b"newest on linked".to_vec());
    assert_eq!(lookup(&origin, "only-linked.txt").unwrap().content, b"linked only".to_vec());
    assert_eq!(lookup(&linked, "only-origin.txt").unwrap().content, b"origin only".to_vec());
}

#[test]
fn excluded_file_is_never_copied() {
    // a file matching both the include and the exclude pattern stays put
    let origin = tree(vec![file("a.txt", 5, b"keep"), file("b.bak", 5, b"drop")]);
    let mut linked = tree(vec![]);
    let n = sync(&origin, &mut linked, "**/*", &Some("*.bak".to_string()), false).unwrap();
    assert_eq!(n, 1);
    assert!(lookup(&linked, "a.txt").is_some());
    assert!(lookup(&linked, "b.bak").is_none());
}

#[test]
fn include_pattern_narrows_the_pass() {
    let origin = tree(vec![file("c.toml", 5, b"t"), file("d.md", 5, b"m")]);
    let mut linked = tree(vec![]);
    let n = sync(&origin, &mut linked, "*.toml", &None, false).unwrap();
    assert_eq!(n, 1);
    assert!(lookup(&linked, "c.toml").is_some());
    assert!(lookup(&linked, "d.md").is_none());
}

#[test]
fn directories_and_symlinks_are_skipped() {
    let origin = tree(vec![
        FsFile { path: "sub".to_string(), kind: EntryKind::Dir, mtime: 1, content: vec![] },
        FsFile { path: "link".to_string(), kind: EntryKind::Symlink, mtime: 1, content: vec![] },
        file("sub/x.txt", 1, b"x"),
    ]);
    let mut linked = tree(vec![]);
    let n = sync(&origin, &mut linked, "**/*", &None, false).unwrap();
    assert_eq!(n, 1);
    assert!(lookup(&linked, "sub").is_none());
    assert!(lookup(&linked, "link").is_none());
    assert!(lookup(&linked, "sub/x.txt").is_some());
}

#[test]
fn malformed_pattern_fails_and_leaves_trees_alone() {
    let origin = tree(vec![file("a.txt", 5, b"a")]);
    let mut linked = tree(vec![]);
    let r = sync(&origin, &mut linked, "a[", &None, false);
    assert_eq!(r.unwrap_err(), SyncError::GlobPatternError);
    assert!(linked.entries.is_empty());
    let r2 = sync(&origin, &mut linked, "**/*", &Some("b[".to_string()), false);
    assert_eq!(r2.unwrap_err(), SyncError::GlobPatternError);
    assert!(linked.entries.is_empty());
}

#[test]
fn pull_and_push_honor_direction() {
    let mut origin = tree(vec![file("a.txt", 9, b"origin")]);
    let mut linked = tree(vec![file("a.txt", 1, b"linked")]);
    let counts =
        run_config(&Command::Pull, &mut origin, &mut linked, "**/*", &None, false).unwrap();
    assert_eq!(counts, (1, 0));
    assert_eq!(lookup(&linked, "a.txt").unwrap().content, b"origin".to_vec());

    let mut origin2 = tree(vec![file("a.txt", 1, b"origin")]);
    let mut linked2 = tree(vec![file("a.txt", 9, b"linked")]);
    let counts2 =
        run_config(&Command::Push, &mut origin2, &mut linked2, "**/*", &None, false).unwrap();
    assert_eq!(counts2, (0, 1));
    assert_eq!(lookup(&origin2, "a.txt").unwrap().content, b"linked".to_vec());
}

#[test]
fn sync_file_reports_whether_it_copied() {
    let origin = tree(vec![file("a.txt", 5, b"v2")]);
    let mut linked = tree(vec![file("a.txt", 3, b"v1")]);
    assert!(sync_file(&origin, &mut linked, "a.txt", false));
    assert_eq!(lookup(&linked, "a.txt").unwrap().content, b"v2".to_vec());
    assert!(!sync_file(&origin, &mut linked, "a.txt", false));
}

#[test]
fn trim_base_path_cuts_the_base_components() {
    assert_eq!(
        trim_base_path("/home/user/.config/helix/themes/a.toml", "/home/user/.config/helix", false),
        "themes/a.toml"
    );
    assert_eq!(trim_base_path("/home/user/.bashrc", "/home/user", false), ".bashrc");
}

#[test]
fn trim_base_path_of_a_file_base_keeps_its_name() {
    // when the base itself denotes a file, one component fewer is trimmed
    assert_eq!(trim_base_path("/home/user/.bashrc", "/home/user/.bashrc", true), ".bashrc");
}

#[test]
fn count_path_components_counts_runs() {
    assert_eq!(count_path_components("/home/user/.config"), 3);
    assert_eq!(count_path_components("a//b/"), 2);
    assert_eq!(count_path_components(""), 0);
    assert_eq!(count_path_components("/"), 0);
}

#[test]
fn env_lookup_finds_first_binding() {
    let env = Env {
        vars: vec![("A".to_string(), "1".to_string()), ("B".to_string(), "2".to_string())],
    };
    assert_eq!(env.lookup("B").map(|s| s.as_str()), Some("2"));
    assert!(env.lookup("C").is_none());
}
