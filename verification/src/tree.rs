//! The built tree: one [`Node`] per included entry, carrying the display
//! name (directories suffixed with a separator), the nesting depth, and,
//! for directories only, the ordered children.  The builder turns a
//! snapshot [`Entry`] into such a tree, skipping hidden entries unless
//! asked to keep them.

use vstd::prelude::*;

use crate::entry::{entries_height, entry_views, Entry, EntryView};
use crate::entry::{lemma_entries_height_ge, lemma_entry_views_index};
use crate::names::{file_name_of, hidden_name, is_hidden_name, root_name};

verus! {

/// One node of a built tree.  A file can carry no children: the variant
/// has no such field, which makes a "file with children" unrepresentable.
pub enum Node {
    Dir { name: String, depth: u64, children: Vec<Node> },
    File { name: String, depth: u64 },
}

/// The mathematical value of a [`Node`].
pub enum NodeView {
    Dir { name: Seq<char>, depth: nat, children: Seq<NodeView> },
    File { name: Seq<char>, depth: nat },
}

impl Node {
    pub open spec fn view(self) -> NodeView
        decreases self,
    {
        match self {
            Node::Dir { name, depth, children } => NodeView::Dir {
                name: name@,
                depth: depth as nat,
                children: node_views(children@),
            },
            Node::File { name, depth } => NodeView::File { name: name@, depth: depth as nat },
        }
    }
}

/// The values of a sequence of nodes, element by element.
pub open spec fn node_views(ns: Seq<Node>) -> Seq<NodeView>
    decreases ns,
{
    if ns.len() == 0 {
        Seq::empty()
    } else {
        node_views(ns.drop_last()).push(ns.last().view())
    }
}

/// `node_views` maps the sequence element by element.
pub proof fn lemma_node_views_index(ns: Seq<Node>)
    ensures
        node_views(ns).len() == ns.len(),
        forall|i: int| 0 <= i < ns.len() ==> node_views(ns)[i] == ns[i].view(),
    decreases ns,
{
    if ns.len() > 0 {
        lemma_node_views_index(ns.drop_last());
    }
}

impl NodeView {
    /// The display name on this node's line: for a directory the entry
    /// name with the trailing separator, for a file the bare entry name.
    pub open spec fn name(self) -> Seq<char> {
        match self {
            NodeView::Dir { name, .. } => name,
            NodeView::File { name, .. } => name,
        }
    }

    /// The nesting depth recorded on this node.
    pub open spec fn depth(self) -> nat {
        match self {
            NodeView::Dir { depth, .. } => depth,
            NodeView::File { depth, .. } => depth,
        }
    }

    /// Every node of this subtree records as its depth the number of its
    /// ancestors within the subtree plus `depth`: the depth of the
    /// subtree's root is `depth` itself, and children always record one
    /// more than their parent.
    pub open spec fn well_formed_at(self, depth: nat) -> bool
        decreases self,
    {
        &&& self.depth() == depth
        &&& match self {
            NodeView::Dir { children, .. } => all_well_formed_at(
                children,
                (depth + 1) as nat,
            ),
            NodeView::File { .. } => true,
        }
    }

    /// No node of this subtree, the root included, has a hidden name.
    pub open spec fn subtree_unhidden(self) -> bool
        decreases self,
    {
        &&& !hidden_name(self.name())
        &&& match self {
            NodeView::Dir { children, .. } => all_subtrees_unhidden(children),
            NodeView::File { .. } => true,
        }
    }

    /// The number of directory nodes in this subtree, the root included.
    pub open spec fn dir_nodes(self) -> nat
        decreases self,
    {
        match self {
            NodeView::Dir { children, .. } => 1 + list_dir_nodes(children),
            NodeView::File { .. } => 0,
        }
    }

    /// The number of file nodes in this subtree.
    pub open spec fn file_nodes(self) -> nat
        decreases self,
    {
        match self {
            NodeView::Dir { children, .. } => list_file_nodes(children),
            NodeView::File { .. } => 1,
        }
    }
}

pub open spec fn all_well_formed_at(ns: Seq<NodeView>, depth: nat) -> bool
    decreases ns,
{
    ns.len() == 0 || (all_well_formed_at(ns.drop_last(), depth) && ns.last().well_formed_at(
        depth,
    ))
}

pub open spec fn all_subtrees_unhidden(ns: Seq<NodeView>) -> bool
    decreases ns,
{
    ns.len() == 0 || (all_subtrees_unhidden(ns.drop_last()) && ns.last().subtree_unhidden())
}

pub open spec fn list_dir_nodes(ns: Seq<NodeView>) -> nat
    decreases ns,
{
    if ns.len() == 0 {
        0
    } else {
        list_dir_nodes(ns.drop_last()) + ns.last().dir_nodes()
    }
}

pub open spec fn list_file_nodes(ns: Seq<NodeView>) -> nat
    decreases ns,
{
    if ns.len() == 0 {
        0
    } else {
        list_file_nodes(ns.drop_last()) + ns.last().file_nodes()
    }
}

/// Whether an entry of this name is kept in the tree: hidden entries are
/// kept only when `include_hidden` is set.
pub open spec fn keeps(name: Seq<char>, include_hidden: bool) -> bool {
    include_hidden || !hidden_name(name)
}

/// The node a snapshot entry builds at nesting depth `depth`: a file
/// keeps its name; a directory gains a trailing separator, and its kept
/// entries build its children, in order, one level deeper.
pub open spec fn spec_build(e: EntryView, depth: nat, include_hidden: bool) -> NodeView
    decreases e,
{
    match e {
        EntryView::Dir { name, entries } => NodeView::Dir {
            name: name.push('/'),
            depth,
            children: spec_build_list(entries, (depth + 1) as nat, include_hidden),
        },
        EntryView::File { name } => NodeView::File { name, depth },
    }
}

/// The nodes a sequence of sibling entries builds: one node per kept
/// entry, skipped entries contributing nothing.
pub open spec fn spec_build_list(es: Seq<EntryView>, depth: nat, include_hidden: bool) -> Seq<
    NodeView,
>
    decreases es,
{
    if es.len() == 0 {
        Seq::empty()
    } else {
        let built = spec_build_list(es.drop_last(), depth, include_hidden);
        if keeps(es.last().name(), include_hidden) {
            built.push(spec_build(es.last(), depth, include_hidden))
        } else {
            built
        }
    }
}

/// Builds the node for one snapshot entry at the given depth.
pub fn build_entry(e: &Entry, depth: u64, include_hidden: bool) -> (n: Node)
    requires
        depth + e@.height() <= u64::MAX,
    ensures
        n@ == spec_build(e@, depth as nat, include_hidden),
    decreases e,
{
    match e {
        Entry::File { name } => Node::File { name: name.clone(), depth },
        Entry::Dir { name, entries } => {
            let mut display = name.clone();
            display.append("/");
            proof {
                reveal_strlit("/");
                assert(display@ =~= name@.push('/'));
            }
            let children = build_list(entries, depth + 1, include_hidden);
            Node::Dir { name: display, depth, children }
        },
    }
}

/// Builds the nodes for a sequence of sibling entries, all at depth
/// `depth`, keeping hidden ones only when `include_hidden` is set.
pub fn build_list(entries: &Vec<Entry>, depth: u64, include_hidden: bool) -> (ns: Vec<Node>)
    requires
        depth + entries_height(entry_views(entries@)) <= u64::MAX,
    ensures
        node_views(ns@) == spec_build_list(entry_views(entries@), depth as nat, include_hidden),
    decreases entries,
{
    let mut children: Vec<Node> = Vec::new();
    let mut i: usize = 0;
    proof {
        assert(entries@.subrange(0, 0) =~= Seq::<Entry>::empty());
        lemma_entry_views_index(entries@);
    }
    #[verifier::loop_isolation(false)]
    while i < entries.len()
        invariant
            i <= entries.len(),
            node_views(children@) == spec_build_list(
                entry_views(entries@.subrange(0, i as int)),
                depth as nat,
                include_hidden,
            ),
        decreases entries.len() - i,
    {
        let child = &entries[i];
        let child_name = match child {
            Entry::Dir { name, .. } => name,
            Entry::File { name } => name,
        };
        let ghost evs_i = entry_views(entries@.subrange(0, i as int));
        let ghost evs_next = entry_views(entries@.subrange(0, i as int + 1));
        proof {
            assert(entries@.subrange(0, i as int + 1).drop_last() =~= entries@.subrange(
                0,
                i as int,
            ));
            assert(evs_next.drop_last() =~= evs_i);
            assert(evs_next.last() == child@);
            assert(child@.name() == child_name@);
            lemma_entry_views_index(entries@);
            lemma_entries_height_ge(entry_views(entries@), i as int);
        }
        if include_hidden || !is_hidden_name(child_name.as_str()) {
            let node = build_entry(child, depth, include_hidden);
            let ghost prev = children@;
            children.push(node);
            proof {
                assert(children@.drop_last() =~= prev);
            }
        }
        i = i + 1;
    }
    proof {
        assert(entries@.subrange(0, entries@.len() as int) =~= entries@);
    }
    children
}

/// A prefix of a sequence of subtrees never counts more directories or
/// files than the whole sequence.
pub proof fn lemma_prefix_counts_le(ns: Seq<NodeView>, i: int)
    requires
        0 <= i <= ns.len(),
    ensures
        list_dir_nodes(ns.subrange(0, i)) <= list_dir_nodes(ns),
        list_file_nodes(ns.subrange(0, i)) <= list_file_nodes(ns),
    decreases ns.len() - i,
{
    if i == ns.len() {
        assert(ns.subrange(0, i) =~= ns);
    } else {
        lemma_prefix_counts_le(ns, i + 1);
        assert(ns.subrange(0, i + 1).drop_last() =~= ns.subrange(0, i));
    }
}

/// Counts the directory and file nodes of the subtree under `n`, the
/// subtree's own root included.
pub fn count_nodes(n: &Node) -> (c: (u32, u32))
    requires
        n@.dir_nodes() <= u32::MAX,
        n@.file_nodes() <= u32::MAX,
    ensures
        c.0 == n@.dir_nodes(),
        c.1 == n@.file_nodes(),
    decreases n,
{
    match n {
        Node::File { .. } => (0, 1),
        Node::Dir { children, .. } => {
            let mut dirs: u32 = 1;
            let mut files: u32 = 0;
            let mut i: usize = 0;
            proof {
                assert(node_views(children@).subrange(0, 0) =~= Seq::<NodeView>::empty());
                lemma_node_views_index(children@);
            }
            #[verifier::loop_isolation(false)]
            while i < children.len()
                invariant
                    i <= children.len(),
                    dirs == 1 + list_dir_nodes(node_views(children@).subrange(0, i as int)),
                    files == list_file_nodes(node_views(children@).subrange(0, i as int)),
                decreases children.len() - i,
            {
                let ghost prefix = node_views(children@).subrange(0, i as int);
                let ghost next = node_views(children@).subrange(0, i as int + 1);
                proof {
                    assert(next.drop_last() =~= prefix);
                    assert(next.last() == children@[i as int].view());
                    lemma_prefix_counts_le(node_views(children@), i as int + 1);
                }
                let (d, f) = count_nodes(&children[i]);
                dirs = dirs + d;
                files = files + f;
                i = i + 1;
            }
            proof {
                assert(node_views(children@).subrange(0, children@.len() as int) =~= node_views(
                    children@,
                ));
            }
            (dirs, files)
        },
    }
}

/// The tree built for an entry at `depth` is well-formed at `depth`:
/// every node of it records as its depth exactly the number of its
/// ancestors within the tree, counted from `depth` at the tree's root.
pub proof fn lemma_build_well_formed(e: EntryView, depth: nat, include_hidden: bool)
    ensures
        spec_build(e, depth, include_hidden).well_formed_at(depth),
    decreases e,
{
    match e {
        EntryView::Dir { entries, .. } => {
            lemma_build_list_well_formed(entries, (depth + 1) as nat, include_hidden);
        },
        EntryView::File { .. } => {},
    }
}

/// The nodes built for sibling entries at `depth` are all well-formed at
/// `depth`.
pub proof fn lemma_build_list_well_formed(es: Seq<EntryView>, depth: nat, include_hidden: bool)
    ensures
        all_well_formed_at(spec_build_list(es, depth, include_hidden), depth),
    decreases es,
{
    if es.len() > 0 {
        lemma_build_list_well_formed(es.drop_last(), depth, include_hidden);
        lemma_build_well_formed(es.last(), depth, include_hidden);
        if keeps(es.last().name(), include_hidden) {
            let built = spec_build_list(es.drop_last(), depth, include_hidden);
            let node = spec_build(es.last(), depth, include_hidden);
            assert(built.push(node).drop_last() =~= built);
        }
    }
}

/// With hidden entries excluded, nothing hidden is built: every subtree
/// standing under the built node — the built node itself, as the root of
/// the listing, is exempt — is free of hidden names.
pub proof fn lemma_build_excludes_hidden(e: EntryView, depth: nat)
    ensures
        spec_build(e, depth, false) matches NodeView::Dir { children, .. }
            ==> all_subtrees_unhidden(children),
        !hidden_name(e.name()) ==> spec_build(e, depth, false).subtree_unhidden(),
    decreases e,
{
    match e {
        EntryView::Dir { name, entries } => {
            lemma_build_list_excludes_hidden(entries, (depth + 1) as nat);
            if !hidden_name(name) {
                assert(!hidden_name(name.push('/')));
            }
        },
        EntryView::File { .. } => {},
    }
}

/// The nodes built for sibling entries with hidden ones excluded carry
/// no hidden name anywhere.
pub proof fn lemma_build_list_excludes_hidden(es: Seq<EntryView>, depth: nat)
    ensures
        all_subtrees_unhidden(spec_build_list(es, depth, false)),
    decreases es,
{
    if es.len() > 0 {
        lemma_build_list_excludes_hidden(es.drop_last(), depth);
        if keeps(es.last().name(), false) {
            lemma_build_excludes_hidden(es.last(), depth);
            let built = spec_build_list(es.drop_last(), depth, false);
            let node = spec_build(es.last(), depth, false);
            assert(built.push(node).drop_last() =~= built);
        }
    }
}

/// `n` is the faithful image of `e`: the same display name (a
/// directory's with the trailing separator added), and one child per
/// snapshot entry, in the same order.
pub open spec fn mirrors(n: NodeView, e: EntryView) -> bool
    decreases e,
{
    match e {
        EntryView::Dir { name, entries } => {
            &&& n matches NodeView::Dir { name: display, children, .. }
            &&& display == name.push('/')
            &&& children.len() == entries.len()
            &&& forall|i: int| 0 <= i < entries.len() ==> mirrors(children[i], entries[i])
        },
        EntryView::File { name } => {
            n matches NodeView::File { name: display, .. } && display == name
        },
    }
}

/// With hidden entries included, the built tree mirrors the snapshot:
/// every direct and transitive entry appears in it exactly once, in
/// order.
pub proof fn lemma_build_keeps_all(e: EntryView, depth: nat)
    ensures
        mirrors(spec_build(e, depth, true), e),
    decreases e,
{
    match e {
        EntryView::Dir { entries, .. } => {
            lemma_build_list_keeps_all(entries, (depth + 1) as nat);
        },
        EntryView::File { .. } => {},
    }
}

/// The nodes built for sibling entries with hidden ones included mirror
/// the entries one for one.
pub proof fn lemma_build_list_keeps_all(es: Seq<EntryView>, depth: nat)
    ensures
        spec_build_list(es, depth, true).len() == es.len(),
        forall|i: int| 0 <= i < es.len() ==> mirrors(spec_build_list(es, depth, true)[i], es[i]),
    decreases es,
{
    if es.len() > 0 {
        lemma_build_list_keeps_all(es.drop_last(), depth);
        lemma_build_keeps_all(es.last(), depth);
        let built = spec_build_list(es.drop_last(), depth, true);
        let node = spec_build(es.last(), depth, true);
        assert forall|i: int| 0 <= i < es.len() implies mirrors(
            spec_build_list(es, depth, true)[i],
            es[i],
        ) by {
            if i < es.len() - 1 {
                assert(built.push(node)[i] == built[i]);
                assert(es.drop_last()[i] == es[i]);
            } else {
                assert(built.push(node)[i] == node);
            }
        }
    }
}

/// The snapshot value that `build` treats as its root: a directory named
/// after the last component of `path`, holding the listed entries.
pub open spec fn root_entry(path: Seq<char>, es: Seq<EntryView>) -> EntryView {
    EntryView::Dir { name: root_name(path), entries: es }
}

/// Builds the tree for the directory at `path` whose direct contents are
/// `entries`: the root node carries the path's last component with a
/// trailing separator at depth zero, and its children are built from the
/// kept entries, one level deeper.  The result is well-formed at depth
/// zero: every node in it records as its depth its number of ancestors.
pub fn build(path: &str, entries: &Vec<Entry>, include_hidden: bool) -> (t: Node)
    requires
        entries_height(entry_views(entries@)) < u64::MAX,
    ensures
        t@ == spec_build(root_entry(path@, entry_views(entries@)), 0, include_hidden),
        t@.well_formed_at(0),
{
    proof {
        lemma_build_well_formed(root_entry(path@, entry_views(entries@)), 0, include_hidden);
    }
    let mut display = file_name_of(path);
    display.append("/");
    proof {
        reveal_strlit("/");
        assert(display@ =~= root_name(path@).push('/'));
    }
    let children = build_list(entries, 1, include_hidden);
    Node::Dir { name: display, depth: 0, children }
}

} // verus!
