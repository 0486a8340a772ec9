use ragd::gitignore::{path_is_ignored, IgnoreFile};
use ragd::watcher::{prune_is_needed, reconcile, PathState, Reconciliation};

fn names(path: &str) -> Vec<String> {
    path.split('/').filter(|s| !s.is_empty()).map(|s| s.to_string()).collect()
}

fn rules(files: &[(&str, &str)]) -> Vec<IgnoreFile> {
    files.iter().map(|(dir, content)| IgnoreFile::parse(names(dir), content)).collect()
}

fn file(path: &str) -> PathState {
    let names = names(path);
    PathState {
        file_name: names.last().cloned(),
        names: Some(names),
        is_dir: false,
        is_file: true,
    }
}

#[test]
fn a_new_file_is_indexed() {
    assert_eq!(
        reconcile(false, &Vec::new(), &file("a.rs")),
        Reconciliation::Index("rs".to_string())
    );
}

#[test]
fn a_deleted_file_is_pruned() {
    let mut gone = file("a.rs");
    gone.is_file = false;
    assert_eq!(reconcile(false, &Vec::new(), &gone), Reconciliation::Prune);
}

#[test]
fn a_nested_gitignore_applies_to_its_own_directory() {
    let files = rules(&[("vendor", "ignored.rs\n")]);
    assert_eq!(reconcile(false, &files, &file("vendor/ignored.rs")), Reconciliation::Prune);
    assert_eq!(
        reconcile(false, &files, &file("kept.rs")),
        Reconciliation::Index("rs".to_string())
    );
    // The file in `vendor` has no say elsewhere.
    assert_eq!(
        reconcile(false, &files, &file("ignored.rs")),
        Reconciliation::Index("rs".to_string())
    );
}

#[test]
fn nothing_is_reconciled_after_a_stop() {
    assert_eq!(reconcile(true, &Vec::new(), &file("a.rs")), Reconciliation::Stop);
}

#[test]
fn directories_strangers_and_binaries_are_pruned() {
    let mut directory = file("src");
    directory.is_dir = true;
    directory.is_file = false;
    assert_eq!(reconcile(false, &Vec::new(), &directory), Reconciliation::Prune);
    let mut outside = file("a.rs");
    outside.names = None;
    assert_eq!(reconcile(false, &Vec::new(), &outside), Reconciliation::Prune);
    assert_eq!(reconcile(false, &Vec::new(), &file("logo.png")), Reconciliation::Prune);
    assert_eq!(reconcile(false, &Vec::new(), &file("Cargo.lock")), Reconciliation::Prune);
}

#[test]
fn ignored_directories_take_their_files_along() {
    let files = rules(&[("", "# build output\n/target/\n*.log\n!keep.log\n")]);
    let ignored = |path: &str| path_is_ignored(&files, &names(path), false);
    assert!(ignored("target/debug/a.rs"));
    assert!(!ignored("src/target.rs"));
    assert!(!ignored("sub/target/a.rs"));
    assert!(ignored("deep/down/x.log"));
    assert!(!ignored("deep/down/keep.log"));
    assert!(!ignored("# build output"));
    assert!(path_is_ignored(&files, &names("target"), true));
    assert!(!path_is_ignored(&files, &names("target"), false));
}

#[test]
fn the_closest_file_has_the_last_word() {
    let files = rules(&[("", "*.md\n"), ("docs", "!*.md\n"), ("docs/old", "*.md\n")]);
    let ignored = |path: &str| path_is_ignored(&files, &names(path), false);
    assert!(ignored("a.md"));
    assert!(!ignored("docs/a.md"));
    assert!(ignored("docs/old/a.md"));
    assert!(!ignored("docs/new/a.md"));
    assert!(ignored("docsx/a.md"));
}

#[test]
fn nothing_is_kept_below_an_ignored_directory() {
    let files = rules(&[("", "build\n!keep.rs\n"), ("build", "!*.rs\n")]);
    assert_eq!(reconcile(false, &files, &file("build/keep.rs")), Reconciliation::Prune);
    assert_eq!(reconcile(false, &files, &file("build/sub/keep.rs")), Reconciliation::Prune);
    assert_eq!(
        reconcile(false, &files, &file("src/keep.rs")),
        Reconciliation::Index("rs".to_string())
    );
    // A directory that is kept can hold what is ignored.
    let files = rules(&[("", "*\n!*/\n!keep.rs\n")]);
    assert!(!path_is_ignored(&files, &names("build/keep.rs"), false));
    assert!(path_is_ignored(&files, &names("build/other.rs"), false));
}

#[test]
fn a_byte_order_mark_is_no_part_of_a_pattern() {
    let files = rules(&[("", "\u{feff}a.md\r\nb.md\r\n")]);
    assert!(path_is_ignored(&files, &names("a.md"), false));
    assert!(path_is_ignored(&files, &names("b.md"), false));
    assert!(!path_is_ignored(&files, &names("c.md"), false));
    assert!(!path_is_ignored(&files, &Vec::new(), true));
}

#[test]
fn lines_that_are_no_pattern_are_passed_over() {
    let files = rules(&[("", "{a\n*.md\n")]);
    assert!(path_is_ignored(&files, &names("x.md"), false));
}

#[test]
fn pruning_needs_something_stored() {
    assert!(!prune_is_needed(Some(0)));
    assert!(prune_is_needed(Some(2)));
    assert!(prune_is_needed(None));
}
