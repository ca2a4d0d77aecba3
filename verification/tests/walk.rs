use rust_dir_nav::{DirEvent, DirNav, DirNode, DirState, Entry, IoError};

#[derive(Debug)]
struct ApplTest {
    rslt_store: Vec<String>,
}

impl DirEvent for ApplTest {
    fn do_dir(&mut self, _d: &str) {}

    fn do_file(&mut self, f: &str) {
        self.rslt_store.push((*f).to_string());
    }
}

impl Default for ApplTest {
    fn default() -> Self {
        ApplTest { rslt_store: Vec::<String>::new() }
    }
}

/// Keeps every notification, in the order in which it came.
#[derive(Debug, Default)]
struct Journal {
    lines: Vec<String>,
}

impl DirEvent for Journal {
    fn do_dir(&mut self, d: &str) {
        self.lines.push(format!("dir {}", d));
    }

    fn do_file(&mut self, f: &str) {
        self.lines.push(format!("file {}", f));
    }
}

fn file(name: &str) -> Entry {
    Entry::File(name.to_string())
}

fn dir(path: &str, entries: Vec<Entry>) -> DirNode {
    DirNode { path: path.to_string(), state: DirState::Listed(entries) }
}

fn test_dir() -> DirNode {
    dir(
        "./test_dir",
        vec![
            Entry::Dir(dir(
                "./test_dir/test_sub1_dir",
                vec![file("test_file1.rs"), file("test_file2.exe")],
            )),
            file("test_file.rs"),
            Entry::Dir(dir("./test_dir/test_sub2_dir", vec![file("test_file3.txt")])),
        ],
    )
}

/// `a.rs` at the root, `b.rs` and `c.exe` in `sub1`, `d.txt` in `sub2`.
fn small_tree() -> DirNode {
    dir(
        "root",
        vec![
            file("a.rs"),
            Entry::Dir(dir("root/sub1", vec![file("b.rs"), file("c.exe")])),
            Entry::Dir(dir("root/sub2", vec![file("d.txt")])),
        ],
    )
}

#[test]
fn test_walk() {
    let mut dn = DirNav::<ApplTest>::new();
    dn.add_pat("rs").add_pat("exe").add_pat("txt");
    let _ = dn.visit(&test_dir());
    let rl = &dn.get_app().rslt_store;
    println!("\n  {:?}", rl);

    // test for found files
    let l = |s: &str| -> String { s.to_string() };

    assert!(rl.contains(&l("test_file.rs")));
    assert!(rl.contains(&l("test_file1.rs")));
    assert!(rl.contains(&l("test_file2.exe")));
    assert!(rl.contains(&l("test_file3.txt")));
}

#[test]
fn test_patts() {
    let mut dn = DirNav::<ApplTest>::new();
    dn.add_pat("foo").add_pat("bar");
    assert_eq!(dn.get_patts().len(), 2);
    let pats = dn.get_patts();
    let mut foo_str = String::new();
    foo_str.push_str("foo");
    assert!(pats.contains(&foo_str));
    let mut bar_str = String::new();
    bar_str.push_str("bar");
    assert!(pats.contains(&bar_str));
    dn.clear();
    assert_eq!(dn.get_patts().len(), 0);
}

#[test]
fn walk_with_three_patterns_tells_all_four_files() {
    let mut dn = DirNav::<ApplTest>::new();
    dn.add_pat("rs").add_pat("exe").add_pat("txt");
    assert_eq!(dn.visit(&small_tree()), Ok(()));
    assert_eq!(dn.get_app().rslt_store, vec!["a.rs", "b.rs", "c.exe", "d.txt"]);
    assert_eq!(dn.get_files(), 4);
    assert_eq!(dn.get_dirs(), 3);
}

#[test]
fn walk_without_patterns_tells_every_file() {
    let mut dn = DirNav::<ApplTest>::new();
    assert_eq!(dn.visit(&small_tree()), Ok(()));
    assert_eq!(dn.get_app().rslt_store, vec!["a.rs", "b.rs", "c.exe", "d.txt"]);
    assert_eq!(dn.get_files(), 4);
}

#[test]
fn walk_without_recursion_stays_at_the_root() {
    let mut dn = DirNav::<ApplTest>::new();
    dn.add_pat("rs").add_pat("exe").add_pat("txt");
    dn.recurse(false);
    assert_eq!(dn.visit(&small_tree()), Ok(()));
    assert_eq!(dn.get_app().rslt_store, vec!["a.rs"]);
    assert_eq!(dn.get_dirs(), 1);
    assert_eq!(dn.get_files(), 1);
}

#[test]
fn visit_of_a_plain_file_fails() {
    let mut dn = DirNav::<Journal>::new();
    let plain = DirNode { path: "root/a.rs".to_string(), state: DirState::NotADirectory };
    assert_eq!(dn.visit(&plain), Err(IoError::NotADirectory));
    assert!(dn.get_app().lines.is_empty());
    assert_eq!(dn.get_dirs(), 1);
    assert_eq!(dn.get_files(), 0);
}

#[test]
fn only_files_with_a_stored_extension_are_told() {
    let mut dn = DirNav::<ApplTest>::new();
    dn.add_pat("rs");
    assert_eq!(dn.visit(&small_tree()), Ok(()));
    assert_eq!(dn.get_app().rslt_store, vec!["a.rs", "b.rs"]);
    assert_eq!(dn.get_files(), 4);
    assert_eq!(dn.get_dirs(), 3);
}

#[test]
fn files_come_before_subdirectories_whatever_the_listing_order() {
    let mut dn = DirNav::<Journal>::new();
    dn.add_pat("rs").add_pat("exe").add_pat("txt");
    assert_eq!(dn.visit(&test_dir()), Ok(()));
    assert_eq!(
        dn.get_app().lines,
        vec![
            "dir ./test_dir",
            "file test_file.rs",
            "dir ./test_dir/test_sub1_dir",
            "file test_file1.rs",
            "file test_file2.exe",
            "dir ./test_dir/test_sub2_dir",
            "file test_file3.txt",
        ]
    );
}

#[test]
fn directories_without_targets_are_hidden_by_default() {
    let mut dn = DirNav::<Journal>::new();
    dn.add_pat("exe");
    assert_eq!(dn.visit(&small_tree()), Ok(()));
    assert_eq!(dn.get_app().lines, vec!["dir root/sub1", "file c.exe"]);
    assert_eq!(dn.get_dirs(), 3);
}

#[test]
fn directories_without_targets_are_shown_on_request() {
    let mut dn = DirNav::<Journal>::new();
    dn.add_pat("exe");
    dn.hide_dirs(false);
    assert_eq!(dn.visit(&small_tree()), Ok(()));
    assert_eq!(
        dn.get_app().lines,
        vec!["dir root", "dir root/sub1", "file c.exe", "dir root/sub2"]
    );
}

#[test]
fn an_empty_directory_is_shown_only_when_nothing_is_hidden() {
    let empty = dir("void", vec![]);
    let mut dn = DirNav::<Journal>::new();
    assert_eq!(dn.visit(&empty), Ok(()));
    assert!(dn.get_app().lines.is_empty());
    dn.hide_dirs(false);
    assert_eq!(dn.visit(&empty), Ok(()));
    assert_eq!(dn.get_app().lines, vec!["dir void"]);
    assert_eq!(dn.get_dirs(), 2);
    assert_eq!(dn.get_files(), 0);
}

#[test]
fn the_directory_check_does_not_look_below() {
    let tree = dir("top", vec![Entry::Dir(dir("top/low", vec![file("x.rs")]))]);
    let mut dn = DirNav::<Journal>::new();
    dn.add_pat("rs");
    assert_eq!(dn.visit(&tree), Ok(()));
    assert_eq!(dn.get_app().lines, vec!["dir top/low", "file x.rs"]);
}

#[test]
fn clear_resets_counters_patterns_and_handler() {
    let mut dn = DirNav::<ApplTest>::new();
    dn.add_pat("rs");
    assert_eq!(dn.visit(&small_tree()), Ok(()));
    assert_eq!(dn.get_files(), 4);
    dn.clear();
    assert_eq!(dn.get_files(), 0);
    assert_eq!(dn.get_dirs(), 0);
    assert!(dn.get_patts().is_empty());
    assert!(dn.get_app().rslt_store.is_empty());

    dn.add_pat("txt");
    assert_eq!(dn.visit(&small_tree()), Ok(()));
    let mut fresh = DirNav::<ApplTest>::new();
    fresh.add_pat("txt");
    assert_eq!(fresh.visit(&small_tree()), Ok(()));
    assert_eq!(dn.get_app().rslt_store, vec!["d.txt"]);
    assert_eq!(dn.get_app().rslt_store, fresh.get_app().rslt_store);
    assert_eq!(dn.get_files(), fresh.get_files());
    assert_eq!(dn.get_dirs(), fresh.get_dirs());
}

#[test]
fn clear_keeps_the_switches() {
    let mut dn = DirNav::<Journal>::new();
    dn.recurse(false);
    dn.hide_dirs(false);
    dn.clear();
    assert_eq!(dn.visit(&small_tree()), Ok(()));
    assert_eq!(dn.get_app().lines, vec!["dir root", "file a.rs"]);
    assert_eq!(dn.get_dirs(), 1);
}

#[test]
fn a_second_visit_adds_the_same_again() {
    let mut dn = DirNav::<Journal>::new();
    dn.add_pat("rs").add_pat("txt");
    assert_eq!(dn.visit(&small_tree()), Ok(()));
    let first: Vec<String> = dn.get_app().lines.clone();
    let (files, dirs) = (dn.get_files(), dn.get_dirs());
    assert_eq!(dn.visit(&small_tree()), Ok(()));
    let both: Vec<String> = dn.get_app().lines.clone();
    assert_eq!(both.len(), 2 * first.len());
    assert_eq!(both[..first.len()], first[..]);
    assert_eq!(both[first.len()..], first[..]);
    assert_eq!(dn.get_files(), 2 * files);
    assert_eq!(dn.get_dirs(), 2 * dirs);
}

#[test]
fn counters_add_up_over_several_roots() {
    let mut dn = DirNav::<ApplTest>::new();
    assert_eq!(dn.visit(&small_tree()), Ok(()));
    assert_eq!(dn.visit(&test_dir()), Ok(()));
    assert_eq!(dn.get_files(), 8);
    assert_eq!(dn.get_dirs(), 6);
}

#[test]
fn a_listing_that_broke_off_fails_after_counting() {
    let broken = DirNode {
        path: "root".to_string(),
        state: DirState::Broken {
            seen: vec![file("a.rs"), Entry::Dir(dir("root/sub", vec![file("b.rs")])), file("c.rs")],
            code: 5,
        },
    };
    let mut dn = DirNav::<Journal>::new();
    dn.add_pat("rs");
    assert_eq!(dn.visit(&broken), Err(IoError::IoFailure(5)));
    assert!(dn.get_app().lines.is_empty());
    assert_eq!(dn.get_files(), 2);
    assert_eq!(dn.get_dirs(), 1);
}

#[test]
fn a_directory_that_cannot_be_read_fails_at_once() {
    let denied = DirNode {
        path: "root".to_string(),
        state: DirState::Broken { seen: vec![], code: 13 },
    };
    let mut dn = DirNav::<Journal>::new();
    assert_eq!(dn.visit(&denied), Err(IoError::IoFailure(13)));
    assert_eq!(dn.get_files(), 0);
    assert_eq!(dn.get_dirs(), 1);
}

#[test]
fn the_first_failure_below_ends_the_walk() {
    let tree = dir(
        "root",
        vec![
            file("a.rs"),
            Entry::Dir(dir("root/one", vec![file("b.rs")])),
            Entry::Dir(DirNode {
                path: "root/two".to_string(),
                state: DirState::Broken { seen: vec![file("c.rs")], code: 2 },
            }),
            Entry::Dir(dir("root/three", vec![file("d.rs")])),
            file("e.rs"),
        ],
    );
    let mut dn = DirNav::<Journal>::new();
    dn.add_pat("rs");
    assert_eq!(dn.visit(&tree), Err(IoError::IoFailure(2)));
    assert_eq!(
        dn.get_app().lines,
        vec!["dir root", "file a.rs", "file e.rs", "dir root/one", "file b.rs"]
    );
    assert_eq!(dn.get_files(), 4);
    assert_eq!(dn.get_dirs(), 3);
}

#[test]
fn a_subdirectory_that_vanished_ends_the_walk() {
    let tree = dir(
        "root",
        vec![
            Entry::Dir(DirNode { path: "root/gone".to_string(), state: DirState::NotADirectory }),
            Entry::Dir(dir("root/late", vec![file("x.rs")])),
        ],
    );
    let mut dn = DirNav::<Journal>::new();
    assert_eq!(dn.visit(&tree), Err(IoError::NotADirectory));
    assert!(dn.get_app().lines.is_empty());
    assert_eq!(dn.get_dirs(), 2);
}

#[test]
fn a_failing_subdirectory_is_not_met_without_recursion() {
    let tree = dir(
        "root",
        vec![
            file("a.rs"),
            Entry::Dir(DirNode { path: "root/gone".to_string(), state: DirState::NotADirectory }),
        ],
    );
    let mut dn = DirNav::<ApplTest>::new();
    dn.recurse(false);
    assert_eq!(dn.visit(&tree), Ok(()));
    assert_eq!(dn.get_app().rslt_store, vec!["a.rs"]);
    assert_eq!(dn.get_dirs(), 1);
}

#[test]
fn directory_paths_reach_the_handler_normalized() {
    let tree = dir("C:\\work\\src", vec![file("main.rs")]);
    let mut dn = DirNav::<Journal>::new();
    assert_eq!(dn.visit(&tree), Ok(()));
    assert_eq!(dn.get_app().lines, vec!["dir C:/work/src", "file main.rs"]);
}

#[test]
fn file_names_reach_the_handler_as_they_are() {
    let tree = dir("d", vec![file("odd\\name.rs")]);
    let mut dn = DirNav::<Journal>::new();
    dn.add_pat("rs");
    assert_eq!(dn.visit(&tree), Ok(()));
    assert_eq!(dn.get_app().lines, vec!["dir d", "file odd\\name.rs"]);
}

#[test]
fn get_app_lends_the_handler_for_change() {
    let mut dn = DirNav::<ApplTest>::new();
    dn.get_app().rslt_store.push("kept".to_string());
    assert_eq!(dn.visit(&dir("d", vec![file("a")])), Ok(()));
    assert_eq!(dn.get_app().rslt_store, vec!["kept", "a"]);
}
