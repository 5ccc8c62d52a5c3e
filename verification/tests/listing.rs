use fstree::entry::Entry;
use fstree::{run, Options};

/// The contents of the `_test` directory the listing is taken of: two
/// visible subdirectories, a hidden subdirectory, and one file.
fn test_entries() -> Vec<Entry> {
    vec![
        Entry::Dir { name: String::from(".foo2"), entries: Vec::new() },
        Entry::Dir { name: String::from("foo"), entries: Vec::new() },
        Entry::Dir { name: String::from("foo1"), entries: Vec::new() },
        Entry::File { name: String::from("foo.txt") },
    ]
}

#[test]
fn test_run() {
    let options = Options { dir: String::from("./_test"), all: false, count: false };
    let entries = test_entries();
    let result = run(&options, &entries);
    let expected = "|_test/\n|---foo/\n|---foo1/\n|---foo.txt\n";
    assert_eq!(result.tree, expected);
}

#[test]
fn test_run_with_hidden_true() {
    let options = Options { dir: String::from("./_test"), all: true, count: false };
    let entries = test_entries();
    let result = run(&options, &entries);
    let expected = "|_test/\n|---.foo2/\n|---foo/\n|---foo1/\n|---foo.txt\n";
    assert_eq!(result.tree, expected);
}

#[test]
fn test_run_with_count_true() {
    let options = Options { dir: String::from("./_test"), all: true, count: true };
    let entries = test_entries();
    let result = run(&options, &entries);
    let expected = "|_test/\n|---.foo2/\n|---foo/\n|---foo1/\n|---foo.txt\n";
    assert_eq!(result.tree, expected);
    assert_eq!(result.subdirs, 3);
    assert_eq!(result.files, 1);
}

#[test]
fn hidden_line_has_no_children() {
    // The hidden directory is empty: its line appears under `all`, with
    // the next line already back at the same depth.
    let options = Options { dir: String::from("./_test"), all: true, count: false };
    let entries = test_entries();
    let result = run(&options, &entries);
    assert!(result.tree.contains("|---.foo2/\n|---foo/"));
}

#[test]
fn counts_skip_hidden_entries() {
    let options = Options { dir: String::from("./_test"), all: false, count: true };
    let entries = test_entries();
    let result = run(&options, &entries);
    assert_eq!(result.subdirs, 2);
    assert_eq!(result.files, 1);
}

#[test]
fn nested_directories_indent_once_per_level() {
    let entries = vec![
        Entry::Dir {
            name: String::from("sub"),
            entries: vec![
                Entry::File { name: String::from("inner.txt") },
                Entry::Dir {
                    name: String::from("deeper"),
                    entries: vec![Entry::File { name: String::from("leaf") }],
                },
            ],
        },
        Entry::File { name: String::from("top.txt") },
    ];
    let options = Options { dir: String::from("root"), all: false, count: true };
    let result = run(&options, &entries);
    let expected = "|root/\n|---sub/\n|------inner.txt\n|------deeper/\n|---------leaf\n|---top.txt\n";
    assert_eq!(result.tree, expected);
    assert_eq!(result.subdirs, 2);
    assert_eq!(result.files, 3);
}

#[test]
fn hidden_directory_subtree_is_skipped_entirely() {
    let entries = vec![
        Entry::Dir {
            name: String::from(".secret"),
            entries: vec![
                Entry::File { name: String::from("visible-inside.txt") },
                Entry::Dir { name: String::from("also-visible"), entries: Vec::new() },
            ],
        },
        Entry::File { name: String::from("shown.txt") },
    ];
    let options = Options { dir: String::from("top"), all: false, count: true };
    let result = run(&options, &entries);
    assert_eq!(result.tree, "|top/\n|---shown.txt\n");
    assert_eq!(result.subdirs, 0);
    assert_eq!(result.files, 1);
}

#[test]
fn hidden_root_is_still_listed() {
    // Hidden filtering applies to entries, never to the root itself.
    let entries = vec![Entry::File { name: String::from("a") }];
    let options = Options { dir: String::from("./.config"), all: false, count: false };
    let result = run(&options, &entries);
    assert_eq!(result.tree, "|.config/\n|---a\n");
}

#[test]
fn empty_directory_lists_only_the_root() {
    let entries: Vec<Entry> = Vec::new();
    let options = Options { dir: String::from("empty"), all: true, count: true };
    let result = run(&options, &entries);
    assert_eq!(result.tree, "|empty/\n");
    assert_eq!(result.subdirs, 0);
    assert_eq!(result.files, 0);
}

#[test]
fn all_entries_listed_exactly_once_with_hidden_included() {
    let entries = vec![
        Entry::Dir {
            name: String::from(".hid"),
            entries: vec![Entry::File { name: String::from("inside") }],
        },
        Entry::File { name: String::from("plain") },
    ];
    let options = Options { dir: String::from("d"), all: true, count: true };
    let result = run(&options, &entries);
    assert_eq!(result.tree, "|d/\n|---.hid/\n|------inside\n|---plain\n");
    assert_eq!(result.tree.matches("inside").count(), 1);
    assert_eq!(result.tree.matches("plain").count(), 1);
    assert_eq!(result.subdirs, 1);
    assert_eq!(result.files, 2);
}
