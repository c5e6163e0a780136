//! The directory tree assembled while walking a codebase: each walked
//! path's components are merged into a tree of labelled nodes, one node
//! per distinct component, children kept in insertion order, and the
//! whole rendered as an indented listing with box-drawing guides.

use vstd::prelude::*;

verus! {

use vstd::string::StringExecFns;
use crate::text::{append_vec, from_chars, to_chars};

/// One node of the assembled tree.
#[derive(Debug)]
pub struct Tree {
    pub root: String,
    pub leaves: Vec<Tree>,
}

/// A tree node, abstractly.
#[verifier::ext_equal]
pub struct TreeView {
    pub root: Seq<char>,
    pub leaves: Seq<TreeView>,
}

/// The abstract tree of a node.
pub open spec fn tree_view(t: Tree) -> TreeView
    decreases t, 1int,
{
    TreeView { root: t.root@, leaves: children_views(t.leaves@) }
}

/// The abstract trees of a list of nodes.
pub open spec fn children_views(cs: Seq<Tree>) -> Seq<TreeView>
    decreases cs, 0int,
{
    if cs.len() == 0 {
        Seq::<TreeView>::empty()
    } else {
        seq![tree_view(cs[0])] + children_views(cs.drop_first())
    }
}

/// The abstract children are the children, abstractly: same count, each
/// node viewed in place.
pub proof fn lemma_children_views(cs: Seq<Tree>)
    ensures
        children_views(cs).len() == cs.len(),
        forall|i: int| 0 <= i < cs.len() ==> children_views(cs)[i] == tree_view(cs[i]),
    decreases cs.len(),
{
    if cs.len() > 0 {
        lemma_children_views(cs.drop_first());
        assert forall|i: int| 0 <= i < cs.len() implies children_views(cs)[i] == tree_view(
            cs[i],
        ) by {
            if i > 0 {
                assert(children_views(cs.drop_first())[i - 1] == tree_view(cs.drop_first()[i - 1]));
                assert(cs.drop_first()[i - 1] == cs[i]);
            }
        }
    }
}

/// The position of the first child labelled `c`, or the child count when
/// none is.
pub open spec fn spec_find_child(ls: Seq<TreeView>, c: Seq<char>) -> int
    decreases ls.len(),
{
    if ls.len() == 0 {
        0
    } else if ls[0].root == c {
        0
    } else {
        1 + spec_find_child(ls.drop_first(), c)
    }
}

proof fn lemma_find_child_at(ls: Seq<TreeView>, c: Seq<char>, j: int)
    requires
        0 <= j <= ls.len(),
        forall|k: int| 0 <= k < j ==> ls[k].root != c,
        j < ls.len() ==> ls[j].root == c,
    ensures
        spec_find_child(ls, c) == j,
    decreases j,
{
    if ls.len() == 0 {
    } else if j == 0 {
    } else {
        assert(ls[0].root != c);
        assert forall|k: int| 0 <= k < j - 1 implies ls.drop_first()[k].root != c by {
            assert(ls.drop_first()[k] == ls[k + 1]);
        }
        if j - 1 < ls.drop_first().len() {
            assert(ls.drop_first()[j - 1] == ls[j]);
        }
        lemma_find_child_at(ls.drop_first(), c, j - 1);
    }
}

/// The tree after one path's components from index `i` on are merged in:
/// each component descends into the first child of that label, or opens a
/// fresh last child.
pub open spec fn spec_insert_path(tv: TreeView, comps: Seq<Seq<char>>, i: int) -> TreeView
    decreases comps.len() - i when 0 <= i <= comps.len()
{
    if i >= comps.len() {
        tv
    } else {
        let c = comps[i];
        let j = spec_find_child(tv.leaves, c);
        if j < tv.leaves.len() {
            TreeView {
                root: tv.root,
                leaves: tv.leaves.update(j, spec_insert_path(tv.leaves[j], comps, i + 1)),
            }
        } else {
            TreeView {
                root: tv.root,
                leaves: tv.leaves.push(
                    spec_insert_path(TreeView { root: c, leaves: Seq::<TreeView>::empty() },
                    comps, i + 1),
                ),
            }
        }
    }
}

impl Tree {
    /// A leafless node with the given label.
    pub fn new(root: &str) -> (r: Tree)
        ensures
            tree_view(r) == (TreeView { root: root@, leaves: Seq::<TreeView>::empty() }),
    {
        let r = Tree { root: String::from_str(root), leaves: Vec::new() };
        proof {
            assert(tree_view(r) =~= TreeView { root: root@, leaves: Seq::<TreeView>::empty() });
        }
        r
    }

    /// Merge one path's components, from index `i` on, into this tree.
    pub fn insert_path(self, comps: &Vec<String>, i: usize) -> (r: Tree)
        requires
            i <= comps@.len(),
        ensures
            tree_view(r) == spec_insert_path(
                tree_view(self),
                comps@.map_values(|s: String| s@),
                i as int,
            ),
        decreases comps@.len() - i,
    {
        let mut t = self;
        let ghost cs = comps@.map_values(|s: String| s@);
        if i == comps.len() {
            return t;
        }
        let ghost old_view = tree_view(t);
        let target = &comps[i];
        proof {
            assert(cs[i as int] == target@);
            lemma_children_views(t.leaves@);
        }
        let mut j: usize = 0;
        while j < t.leaves.len() && !(t.leaves[j].root == *target)
            invariant
                j <= t.leaves@.len(),
                forall|k: int| 0 <= k < j ==> tree_view(t.leaves@[k]).root != target@,
            decreases t.leaves@.len() - j,
        {
            j = j + 1;
        }
        proof {
            assert forall|k: int| 0 <= k < j implies old_view.leaves[k].root != target@ by {
                assert(old_view.leaves[k] == tree_view(t.leaves@[k]));
            }
            if j < t.leaves@.len() {
                assert(old_view.leaves[j as int] == tree_view(t.leaves@[j as int]));
            }
            lemma_find_child_at(old_view.leaves, target@, j as int);
        }
        if j < t.leaves.len() {
            let ghost leaves0 = t.leaves@;
            let child = t.leaves.remove(j);
            let child = child.insert_path(comps, i + 1);
            t.leaves.insert(j, child);
            proof {
                assert(t.leaves@ =~= leaves0.update(j as int, child));
                lemma_children_views(t.leaves@);
                assert(tree_view(t).leaves =~= old_view.leaves.update(
                    j as int,
                    spec_insert_path(old_view.leaves[j as int], cs, i as int + 1),
                ));
                assert(tree_view(t) =~= spec_insert_path(old_view, cs, i as int));
            }
        } else {
            let fresh = Tree::new(target.as_str());
            let fresh = fresh.insert_path(comps, i + 1);
            t.leaves.push(fresh);
            proof {
                lemma_children_views(t.leaves@);
                assert(tree_view(t).leaves =~= old_view.leaves.push(
                    spec_insert_path(
                        TreeView { root: target@, leaves: Seq::<TreeView>::empty() },
                        cs,
                        i as int + 1,
                    ),
                ));
                assert(tree_view(t) =~= spec_insert_path(old_view, cs, i as int));
            }
        }
        t
    }
}

/// The guide glyphs before a child: a tee for one with later siblings, an
/// elbow for the last.
pub open spec fn spec_connector(last: bool) -> Seq<char> {
    if last {
        "\u{2514}\u{2500}\u{2500} "@
    } else {
        "\u{251c}\u{2500}\u{2500} "@
    }
}

/// The guide continuation under a child: a bar while later siblings
/// follow, blanks under the last.
pub open spec fn spec_extension(last: bool) -> Seq<char> {
    if last {
        "    "@
    } else {
        "\u{2502}   "@
    }
}

/// The rendering of a child list under a guide prefix: each child on its
/// own line behind the prefix and its connector, its subtree beneath it
/// with the prefix extended.
pub open spec fn spec_render_children(ls: Seq<TreeView>, prefix: Seq<char>) -> Seq<char>
    decreases ls,
{
    if ls.len() == 0 {
        Seq::<char>::empty()
    } else {
        let last = ls.len() == 1;
        prefix + spec_connector(last) + ls[0].root + "\n"@ + spec_render_children(
            ls[0].leaves,
            prefix + spec_extension(last),
        ) + spec_render_children(ls.drop_first(), prefix)
    }
}

/// The rendered tree: the root label on its own line, the children below.
pub open spec fn spec_render_tree(tv: TreeView) -> Seq<char> {
    tv.root + "\n"@ + spec_render_children(tv.leaves, Seq::<char>::empty())
}

/// The rendering of the tail of a child list, unfolded one child.
proof fn lemma_render_children_unfold(ls: Seq<TreeView>, prefix: Seq<char>, k: int)
    requires
        0 <= k < ls.len(),
    ensures
        spec_render_children(ls.skip(k), prefix) == prefix + spec_connector(k == ls.len() - 1)
            + ls[k].root + "\n"@ + spec_render_children(
            ls[k].leaves,
            prefix + spec_extension(k == ls.len() - 1),
        ) + spec_render_children(ls.skip(k + 1), prefix),
{
    let t = ls.skip(k);
    assert(t[0] == ls[k]);
    assert(t.drop_first() =~= ls.skip(k + 1));
    assert((t.len() == 1) == (k == ls.len() - 1));
}

/// Append the rendering of each node of `cs` under the guide prefix.
fn render_children(cs: &Vec<Tree>, prefix: &Vec<char>, out: &mut Vec<char>)
    ensures
        final(out)@ == old(out)@ + spec_render_children(children_views(cs@), prefix@),
    decreases cs@,
{
    let ghost all = children_views(cs@);
    let n = cs.len();
    let mut k: usize = 0;
    proof {
        assert(all.skip(0) =~= all);
    }
    while k < n
        invariant
            n == cs@.len(),
            k <= n,
            all == children_views(cs@),
            old(out)@ + spec_render_children(all, prefix@) =~= out@ + spec_render_children(
                all.skip(k as int),
                prefix@,
            ),
        decreases n - k,
    {
        let ghost out0 = out@;
        proof {
            lemma_children_views(cs@);
            lemma_render_children_unfold(all, prefix@, k as int);
        }
        let last = k + 1 == n;
        append_vec(out, prefix);
        let conn = to_chars(if last {
            "\u{2514}\u{2500}\u{2500} "
        } else {
            "\u{251c}\u{2500}\u{2500} "
        });
        append_vec(out, &conn);
        let root_chars = to_chars(cs[k].root.as_str());
        append_vec(out, &root_chars);
        out.push('\n');
        let mut child_prefix = crate::text::sub_vec(prefix, 0, prefix.len());
        let ext = to_chars(if last {
            "    "
        } else {
            "\u{2502}   "
        });
        append_vec(&mut child_prefix, &ext);
        proof {
            reveal_strlit("\n");
            assert("\n"@ =~= seq!['\n']);
            assert(prefix@.subrange(0, prefix@.len() as int) =~= prefix@);
            assert(child_prefix@ == prefix@ + spec_extension(k == n - 1));
            assert(conn@ == spec_connector(k == n - 1));
            assert(out@ =~= out0 + prefix@ + spec_connector(k == n - 1) + all[k as int].root
                + "\n"@);
            assert(all[k as int].leaves == children_views(cs@[k as int].leaves@));
        }
        render_children(&cs[k].leaves, &child_prefix, out);
        k = k + 1;
        proof {
            assert(old(out)@ + spec_render_children(all, prefix@) =~= out@
                + spec_render_children(all.skip(k as int), prefix@));
        }
    }
    proof {
        lemma_children_views(cs@);
        assert(all.skip(n as int) =~= Seq::<TreeView>::empty());
        assert(spec_render_children(all.skip(n as int), prefix@) == Seq::<char>::empty());
        assert(out@ + Seq::<char>::empty() =~= out@);
    }
}

/// Render the whole tree as its indented listing.
pub fn render_tree(t: &Tree) -> (r: String)
    ensures
        r@ == spec_render_tree(tree_view(*t)),
{
    let mut out = to_chars(t.root.as_str());
    out.push('\n');
    proof {
        reveal_strlit("\n");
        assert(out@ =~= t.root@ + "\n"@);
    }
    let empty_prefix: Vec<char> = Vec::new();
    render_children(&t.leaves, &empty_prefix, &mut out);
    proof {
        assert(t.root@ + "\n"@ + spec_render_children(children_views(t.leaves@), empty_prefix@)
            =~= spec_render_tree(tree_view(*t)));
    }
    from_chars(&out)
}

} // verus!
