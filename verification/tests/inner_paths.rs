use archive_vfs::paths::{
    direct_child_path, file_stem, is_descendant, is_direct_child, normalise_inner,
};

#[test]
fn normalise_replaces_backslashes_and_trims_slashes() {
    assert_eq!(normalise_inner("a/b/c"), "a/b/c");
    assert_eq!(normalise_inner("\\a\\b\\"), "a/b");
    assert_eq!(normalise_inner("///a//b///"), "a//b");
    assert_eq!(normalise_inner("/"), "");
    assert_eq!(normalise_inner("\\\\"), "");
    assert_eq!(normalise_inner(""), "");
    assert_eq!(normalise_inner("dir/"), "dir");
    assert_eq!(normalise_inner("./x"), "./x");
    assert_eq!(normalise_inner("/é/ü/"), "é/ü");
}

#[test]
fn normalise_twice_is_normalise_once() {
    for p in ["", "/", "a", "/a/b/", "\\x\\y", "//a\\\\b//", "a/./b", "/é/"] {
        let once = normalise_inner(p);
        assert_eq!(normalise_inner(&once), once);
    }
}

#[test]
fn descendants_of_a_parent() {
    assert!(is_descendant("a/b", ""));
    assert!(is_descendant("", ""));
    assert!(is_descendant("a/b", "a/b"));
    assert!(is_descendant("a/b/c", "a/b"));
    assert!(!is_descendant("a/bc", "a/b"));
    assert!(!is_descendant("a", "a/b"));
    assert!(!is_descendant("a/x/y", "a/b"));
}

#[test]
fn direct_child_key_collapses_deep_entries() {
    assert_eq!(direct_child_path("a/b/c", "a"), "a/b");
    assert_eq!(direct_child_path("a/b/c", ""), "a");
    assert_eq!(direct_child_path("a/b/c", "a/b"), "a/b/c");
    assert_eq!(direct_child_path("top.txt", ""), "top.txt");
    assert_eq!(direct_child_path("a/b", "a"), "a/b");
    assert_eq!(direct_child_path("a//b", "a"), "a/");
}

#[test]
fn direct_children_are_one_segment_below() {
    assert!(is_direct_child("a", ""));
    assert!(!is_direct_child("a/b", ""));
    assert!(is_direct_child("a/b", "a"));
    assert!(!is_direct_child("a/b/c", "a"));
    assert!(!is_direct_child("a", "a"));
    assert!(!is_direct_child("ab/c", "a"));
}

#[test]
fn a_direct_child_is_its_own_key() {
    for (entry, parent) in [("a/b/c", "a"), ("x", ""), ("x/y/z", ""), ("p/q/r/s", "p/q")] {
        let key = direct_child_path(entry, parent);
        assert!(is_direct_child(&key, parent));
        assert_eq!(direct_child_path(&key, parent), key);
    }
}

#[test]
fn stem_of_a_file_name() {
    assert_eq!(file_stem("/tmp/notes.txt.gz"), "notes.txt");
    assert_eq!(file_stem("report.gz"), "report");
    assert_eq!(file_stem("C:\\data\\dump.sql.xz"), "dump.sql");
    assert_eq!(file_stem("/tmp/.gz"), ".gz");
    assert_eq!(file_stem("/tmp/plain"), "plain");
    assert_eq!(file_stem("/tmp/notes.gz/"), "notes");
    assert_eq!(file_stem("/tmp/"), "tmp");
    assert_eq!(file_stem("foo/.."), "file");
    assert_eq!(file_stem("."), "file");
    assert_eq!(file_stem("/"), "file");
    assert_eq!(file_stem(""), "file");
}
