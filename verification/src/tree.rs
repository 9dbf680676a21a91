use vstd::prelude::*;

verus! {

/// A node of the ordered, rooted n-ary tree: a text label and the children
/// in insertion order. The root of a whole tree carries an empty label and
/// stands for the forest of top-level path segments; it is never rendered.
pub struct Tree {
    pub value: String,
    pub children: Vec<Tree>,
}

/// The mathematical model of a tree node: the label as a sequence of
/// characters and the models of the children, in the same order.
pub ghost struct TreeV {
    pub label: Seq<char>,
    pub children: Seq<TreeV>,
}

/// Whether every node of `t` has at most `usize::MAX` children, so that
/// every child index fits the coordinate entries' type. The view of any
/// tree held in memory satisfies this; `lemma_tree_view_bounded` shows it.
pub open spec fn tree_bounded(t: TreeV) -> bool
    decreases t,
{
    t.children.len() <= usize::MAX && (forall|i: int|
        0 <= i < t.children.len() ==> tree_bounded(#[trigger] t.children[i]))
}

/// `tree_bounded`, stated of a sequence of sibling subtrees.
pub open spec fn forest_bounded(forest: Seq<TreeV>) -> bool {
    forest.len() <= usize::MAX && (forall|i: int|
        0 <= i < forest.len() ==> tree_bounded(#[trigger] forest[i]))
}

/// The view of a tree held in memory is bounded: a `Vec` never holds more
/// than `usize::MAX` children.
pub proof fn lemma_tree_view_bounded(t: Tree)
    ensures
        tree_bounded(t@),
    decreases t,
{
    vstd::std_specs::vec::axiom_spec_len(&t.children);
    assert forall|i: int| 0 <= i < t@.children.len() implies tree_bounded(
        #[trigger] t@.children[i],
    ) by {
        lemma_tree_view_bounded(t.children@[i]);
        assert(t@.children[i] == t.children@[i]@);
    }
}

/// Whether the coordinate `c` addresses a node of `t`: each entry in turn
/// must be a child index in range, starting among `t`'s children. The
/// empty coordinate addresses `t` itself.
pub open spec fn coord_in_tree(t: TreeV, c: Seq<usize>) -> bool
    decreases c.len(),
{
    c.len() == 0 || (c[0] < t.children.len() && coord_in_tree(
        t.children[c[0] as int],
        c.drop_first(),
    ))
}

/// The node of `t` that the coordinate `c` addresses. Meaningful only
/// when `coord_in_tree(t, c)` holds.
pub open spec fn node_at(t: TreeV, c: Seq<usize>) -> TreeV
    decreases c.len(),
{
    if c.len() == 0 {
        t
    } else {
        node_at(t.children[c[0] as int], c.drop_first())
    }
}

impl View for Tree {
    type V = TreeV;

    open spec fn view(&self) -> TreeV
        decreases self,
    {
        TreeV {
            label: self.value@,
            children: Seq::new(
                self.children@.len(),
                |i: int|
                    if 0 <= i < self.children@.len() {
                        self.children@[i].view()
                    } else {
                        TreeV { label: Seq::empty(), children: Seq::empty() }
                    },
            ),
        }
    }
}

} // verus!
