use fstree::entry::Entry;
use fstree::names::{file_name_of, is_hidden_name};
use fstree::render::render;
use fstree::tree::{build, count_nodes, Node};
use fstree::DirData;

#[test]
fn file_name_of_takes_the_last_component() {
    assert_eq!(file_name_of("./_test"), "_test");
    assert_eq!(file_name_of("/usr/local"), "local");
    assert_eq!(file_name_of("name"), "name");
    assert_eq!(file_name_of("a/b/"), "b");
    assert_eq!(file_name_of("a//b"), "b");
}

#[test]
fn file_name_of_empty_when_no_component() {
    assert_eq!(file_name_of(""), "");
    assert_eq!(file_name_of("/"), "");
    assert_eq!(file_name_of("///"), "");
}

#[test]
fn is_hidden_name_checks_the_leading_period() {
    assert!(is_hidden_name(".foo2"));
    assert!(is_hidden_name("."));
    assert!(!is_hidden_name("foo"));
    assert!(!is_hidden_name(""));
    assert!(!is_hidden_name("foo.txt"));
}

fn sample_entries() -> Vec<Entry> {
    vec![
        Entry::Dir {
            name: String::from("sub"),
            entries: vec![Entry::File { name: String::from("inner") }],
        },
        Entry::File { name: String::from("note") },
    ]
}

#[test]
fn build_records_names_kinds_and_depths() {
    let entries = sample_entries();
    let root = build("base", &entries, false);
    match &root {
        Node::Dir { name, depth, children } => {
            assert_eq!(name, "base/");
            assert_eq!(*depth, 0);
            assert_eq!(children.len(), 2);
            match &children[0] {
                Node::Dir { name, depth, children } => {
                    assert_eq!(name, "sub/");
                    assert_eq!(*depth, 1);
                    assert_eq!(children.len(), 1);
                    match &children[0] {
                        Node::File { name, depth } => {
                            assert_eq!(name, "inner");
                            assert_eq!(*depth, 2);
                        }
                        Node::Dir { .. } => panic!("expected a file node"),
                    }
                }
                Node::File { .. } => panic!("expected a directory node"),
            }
            match &children[1] {
                Node::File { name, depth } => {
                    assert_eq!(name, "note");
                    assert_eq!(*depth, 1);
                }
                Node::Dir { .. } => panic!("expected a file node"),
            }
        }
        Node::File { .. } => panic!("the root must be a directory node"),
    }
}

#[test]
fn render_is_idempotent_on_a_fixed_tree() {
    let entries = sample_entries();
    let tree = build("base", &entries, true);
    let first = render(&tree);
    let second = render(&tree);
    assert_eq!(first, second);
    assert_eq!(first, "|base/\n|---sub/\n|------inner\n|---note\n");
}

#[test]
fn count_nodes_counts_the_root_too() {
    let entries = sample_entries();
    let tree = build("base", &entries, true);
    let (dirs, files) = count_nodes(&tree);
    assert_eq!(dirs, 2);
    assert_eq!(files, 2);
}

#[test]
fn dir_data_new_starts_with_zero_counts() {
    let data = DirData::new(String::from("|x/\n"));
    assert_eq!(data.tree, "|x/\n");
    assert_eq!(data.subdirs, 0);
    assert_eq!(data.files, 0);
}
