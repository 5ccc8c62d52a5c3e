//! Deterministic rendering of a built tree: one line per node, in
//! pre-order, each line made of the marker character, one indent unit per
//! depth level, the node's display name, and a newline.

use vstd::prelude::*;

use crate::tree::{
    lemma_node_views_index, list_dir_nodes, list_file_nodes, node_views, Node, NodeView,
};

verus! {

/// The indent in front of a name: the three-character unit, once per
/// depth level.
pub open spec fn indent(depth: nat) -> Seq<char>
    decreases depth,
{
    if depth == 0 {
        Seq::empty()
    } else {
        indent((depth - 1) as nat) + seq!['-', '-', '-']
    }
}

/// The line one node contributes: marker, indent, display name, newline.
pub open spec fn spec_line(name: Seq<char>, depth: nat) -> Seq<char> {
    seq!['|'] + indent(depth) + name + seq!['\n']
}

/// The text of a subtree: the root's line first, then its children's
/// text, in the order the children stand in.
pub open spec fn spec_render(n: NodeView) -> Seq<char>
    decreases n,
{
    match n {
        NodeView::Dir { name, depth, children } => spec_line(name, depth) + spec_render_list(
            children,
        ),
        NodeView::File { name, depth } => spec_line(name, depth),
    }
}

/// The concatenated text of a sequence of subtrees, in order.
pub open spec fn spec_render_list(ns: Seq<NodeView>) -> Seq<char>
    decreases ns,
{
    if ns.len() == 0 {
        Seq::empty()
    } else {
        spec_render_list(ns.drop_last()) + spec_render(ns.last())
    }
}

/// Appends `depth` indent units to `out`.
fn push_indent(out: &mut String, depth: u64)
    ensures
        final(out)@ == old(out)@ + indent(depth as nat),
{
    proof {
        assert(old(out)@ + indent(0) =~= old(out)@);
    }
    let mut d: u64 = 0;
    #[verifier::loop_isolation(false)]
    while d < depth
        invariant
            d <= depth,
            out@ == old(out)@ + indent(d as nat),
        decreases depth - d,
    {
        out.append("---");
        proof {
            reveal_strlit("---");
            assert(old(out)@ + indent(d as nat) + "---"@ =~= old(out)@ + indent(
                (d + 1) as nat,
            ));
        }
        d = d + 1;
    }
}

/// Appends the text of the subtree under `n` to `out`.
pub fn render_into(n: &Node, out: &mut String)
    ensures
        final(out)@ == old(out)@ + spec_render(n@),
    decreases n,
{
    match n {
        Node::File { name, depth } => {
            out.append("|");
            push_indent(out, *depth);
            out.append(name.as_str());
            out.append("\n");
            proof {
                reveal_strlit("|");
                reveal_strlit("\n");
                assert(out@ =~= old(out)@ + spec_render(n@));
            }
        },
        Node::Dir { name, depth, children } => {
            out.append("|");
            push_indent(out, *depth);
            out.append(name.as_str());
            out.append("\n");
            let ghost line = spec_line(name@, *depth as nat);
            proof {
                reveal_strlit("|");
                reveal_strlit("\n");
                assert(out@ =~= old(out)@ + line);
                assert(node_views(children@).subrange(0, 0) =~= Seq::<NodeView>::empty());
                assert(out@ + spec_render_list(node_views(children@).subrange(0, 0)) =~= out@);
                lemma_node_views_index(children@);
            }
            let mut i: usize = 0;
            #[verifier::loop_isolation(false)]
            while i < children.len()
                invariant
                    i <= children.len(),
                    out@ == old(out)@ + line + spec_render_list(
                        node_views(children@).subrange(0, i as int),
                    ),
                decreases children.len() - i,
            {
                let ghost prefix = node_views(children@).subrange(0, i as int);
                let ghost next = node_views(children@).subrange(0, i as int + 1);
                proof {
                    assert(next.drop_last() =~= prefix);
                    assert(next.last() == children@[i as int].view());
                }
                render_into(&children[i], out);
                proof {
                    assert(out@ =~= old(out)@ + line + spec_render_list(next));
                }
                i = i + 1;
            }
            proof {
                assert(node_views(children@).subrange(0, children@.len() as int) =~= node_views(
                    children@,
                ));
                assert(out@ =~= old(out)@ + spec_render(n@));
            }
        },
    }
}

/// Renders the whole tree under `t` as its listing text.
pub fn render(t: &Node) -> (s: String)
    ensures
        s@ == spec_render(t@),
{
    let mut s = String::new();
    proof {
        assert(Seq::<char>::empty() + spec_render(t@) =~= spec_render(t@));
    }
    render_into(t, &mut s);
    s
}

/// How often `c` occurs in `s`.
pub open spec fn count_char(s: Seq<char>, c: char) -> nat
    decreases s,
{
    if s.len() == 0 {
        0
    } else {
        count_char(s.drop_last(), c) + if s.last() == c {
            1nat
        } else {
            0nat
        }
    }
}

/// Occurrences add up over concatenation.
pub proof fn lemma_count_char_add(a: Seq<char>, b: Seq<char>, c: char)
    ensures
        count_char(a + b, c) == count_char(a, c) + count_char(b, c),
    decreases b,
{
    if b.len() == 0 {
        assert(a + b =~= a);
    } else {
        lemma_count_char_add(a, b.drop_last(), c);
        assert((a + b).drop_last() =~= a + b.drop_last());
        assert((a + b).last() == b.last());
    }
}

/// An indent is made of dashes alone: no newline hides in it.
pub proof fn lemma_indent_no_newline(depth: nat)
    ensures
        count_char(indent(depth), '\n') == 0,
    decreases depth,
{
    if depth > 0 {
        lemma_indent_no_newline((depth - 1) as nat);
        lemma_count_char_add(indent((depth - 1) as nat), seq!['-', '-', '-'], '\n');
        assert(count_char(seq!['-', '-', '-'], '\n') == 0) by {
            reveal_with_fuel(count_char, 4);
            assert(seq!['-', '-', '-'].drop_last() =~= seq!['-', '-']);
            assert(seq!['-', '-'].drop_last() =~= seq!['-']);
            assert(seq!['-'].drop_last() =~= Seq::<char>::empty());
        }
    }
}

/// A line whose name holds no newline ends in its one newline.
pub proof fn lemma_line_single(name: Seq<char>, depth: nat)
    requires
        count_char(name, '\n') == 0,
    ensures
        count_char(spec_line(name, depth), '\n') == 1,
{
    lemma_indent_no_newline(depth);
    lemma_count_char_add(seq!['|'], indent(depth), '\n');
    lemma_count_char_add(seq!['|'] + indent(depth), name, '\n');
    lemma_count_char_add(seq!['|'] + indent(depth) + name, seq!['\n'], '\n');
    assert(count_char(seq!['|'], '\n') == 0) by {
        reveal_with_fuel(count_char, 2);
        assert(seq!['|'].drop_last() =~= Seq::<char>::empty());
    }
    assert(count_char(seq!['\n'], '\n') == 1) by {
        reveal_with_fuel(count_char, 2);
        assert(seq!['\n'].drop_last() =~= Seq::<char>::empty());
    }
}

/// No display name anywhere in the subtree under `n` holds a newline.
pub open spec fn names_newline_free(n: NodeView) -> bool
    decreases n,
{
    &&& count_char(n.name(), '\n') == 0
    &&& match n {
        NodeView::Dir { children, .. } => all_names_newline_free(children),
        NodeView::File { .. } => true,
    }
}

pub open spec fn all_names_newline_free(ns: Seq<NodeView>) -> bool
    decreases ns,
{
    ns.len() == 0 || (all_names_newline_free(ns.drop_last()) && names_newline_free(ns.last()))
}

/// One line per node: when no display name holds a newline itself, the
/// rendered text has exactly as many lines — counted by their newline
/// terminators — as the tree has nodes, so every included entry stands
/// in the listing exactly once.
pub proof fn lemma_render_one_line_per_node(n: NodeView)
    requires
        names_newline_free(n),
    ensures
        count_char(spec_render(n), '\n') == n.dir_nodes() + n.file_nodes(),
    decreases n,
{
    match n {
        NodeView::Dir { name, depth, children } => {
            lemma_line_single(name, depth);
            lemma_render_list_one_line_per_node(children);
            lemma_count_char_add(spec_line(name, depth), spec_render_list(children), '\n');
        },
        NodeView::File { name, depth } => {
            lemma_line_single(name, depth);
        },
    }
}

pub proof fn lemma_render_list_one_line_per_node(ns: Seq<NodeView>)
    requires
        all_names_newline_free(ns),
    ensures
        count_char(spec_render_list(ns), '\n') == list_dir_nodes(ns) + list_file_nodes(ns),
    decreases ns,
{
    if ns.len() > 0 {
        lemma_render_list_one_line_per_node(ns.drop_last());
        lemma_render_one_line_per_node(ns.last());
        lemma_count_char_add(spec_render_list(ns.drop_last()), spec_render(ns.last()), '\n');
    }
}

/// Rendering is deterministic, hence idempotent: any two renderings of
/// the same tree are the same text, character for character.
pub proof fn lemma_render_deterministic(t: NodeView, s1: Seq<char>, s2: Seq<char>)
    requires
        s1 == spec_render(t),
        s2 == spec_render(t),
    ensures
        s1 == s2,
{
}

} // verus!
