//! Renders the contents of a directory as an indented tree listing.
//!
//! The caller supplies a snapshot of a directory's contents as a value of
//! [`entry::Entry`]; the library builds a tree of [`tree::Node`]s from it
//! (optionally skipping hidden entries), renders the tree as text, one
//! line per entry with nesting shown by a repeated marker, and counts the
//! directories and files that were included.  Reading the file system, and
//! the command line around it, are the caller's business; everything here
//! is pure computation on the snapshot.

use vstd::prelude::*;

pub mod entry;
pub mod names;
pub mod render;
pub mod tree;

verus! {

use crate::entry::{entries_height, entry_views, Entry, EntryView};
use crate::render::{render, spec_render};
use crate::tree::{build, count_nodes, root_entry, spec_build, NodeView};

/// Options consumed when building a tree.
#[derive(Debug, PartialEq)]
pub struct Options {
    /// The path of the directory the snapshot was taken from; only its
    /// last component enters the output, as the root line's name.
    pub dir: String,
    /// Include hidden entries (names with a leading period).
    pub all: bool,
    /// Report the directory and file counts after the listing.
    pub count: bool,
}

/// The outcome of a walk: the rendered listing and the number of
/// directories and files it includes (the root is not counted).
pub struct DirData {
    pub tree: String,
    pub subdirs: u32,
    pub files: u32,
}

impl DirData {
    /// A result holding `tree` with both counts still at zero.
    pub fn new(tree: String) -> (d: DirData)
        ensures
            d.tree == tree,
            d.subdirs == 0,
            d.files == 0,
    {
        DirData { tree, subdirs: 0, files: 0 }
    }
}

/// The tree that `run` builds for the given options and snapshot: rooted
/// at the last component of the directory path, hidden entries kept only
/// when `all` is set.
pub open spec fn run_tree(dir: Seq<char>, es: Seq<EntryView>, all: bool) -> NodeView {
    spec_build(root_entry(dir, es), 0, all)
}

/// Builds the tree for the snapshot `entries` of the directory named by
/// `options.dir`, renders it, and counts what it holds: the rendered
/// listing, the number of directory nodes below the root, and the number
/// of file nodes.  The counts are always gathered; `options.count` only
/// tells the caller whether to show them.
pub fn run(options: &Options, entries: &Vec<Entry>) -> (d: DirData)
    requires
        entries_height(entry_views(entries@)) < u64::MAX,
        run_tree(options.dir@, entry_views(entries@), options.all).dir_nodes() <= u32::MAX,
        run_tree(options.dir@, entry_views(entries@), options.all).file_nodes() <= u32::MAX,
    ensures
        d.tree@ == spec_render(run_tree(options.dir@, entry_views(entries@), options.all)),
        d.subdirs == run_tree(options.dir@, entry_views(entries@), options.all).dir_nodes() - 1,
        d.files == run_tree(options.dir@, entry_views(entries@), options.all).file_nodes(),
{
    let t = build(options.dir.as_str(), entries, options.all);
    let text = render(&t);
    let (dirs, files) = count_nodes(&t);
    DirData { tree: text, subdirs: dirs - 1, files }
}

} // verus!
