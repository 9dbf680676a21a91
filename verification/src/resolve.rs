use vstd::prelude::*;

use crate::collapse::CollapseState;
use crate::tree::{Tree, TreeV};

verus! {

/// Number of lines that the nodes `forest[k..]` contribute to the rendered
/// view, when `forest` holds the children of the node at coordinate `coord`
/// and `cs` is the set of collapsed coordinates. A collapsed node
/// contributes exactly one line, whatever its subtree holds; a visible one
/// contributes its own line and those of its children.
pub open spec fn count_from(
    forest: Seq<TreeV>,
    cs: Set<Seq<usize>>,
    coord: Seq<usize>,
    k: int,
) -> nat
    decreases forest, forest.len() - k,
{
    if k < 0 || k >= forest.len() {
        0
    } else {
        let here = coord.push(k as usize);
        (if cs.contains(here) {
            1nat
        } else {
            1nat + count_from(forest[k].children, cs, here, 0)
        }) + count_from(forest, cs, coord, k + 1)
    }
}

/// Number of lines that the node `n`, standing at coordinate `coord`,
/// contributes together with its visible descendants.
pub open spec fn count_node(n: TreeV, cs: Set<Seq<usize>>, coord: Seq<usize>) -> nat {
    if cs.contains(coord) {
        1
    } else {
        1 + count_from(n.children, cs, coord, 0)
    }
}

/// Coordinate of the node that produces the line with index `i` among the
/// lines contributed by `forest[k..]`, where `forest` holds the children
/// of the node at coordinate `coord`. The walk mirrors the emission order
/// of the renderer: lines of earlier siblings come first, each sibling
/// contributes `count_node` lines, and a collapsed sibling contributes a
/// single line. Meaningful only while `i` stays below the remaining count.
pub open spec fn resolve_from(
    forest: Seq<TreeV>,
    cs: Set<Seq<usize>>,
    coord: Seq<usize>,
    k: int,
    i: nat,
) -> Seq<usize>
    decreases forest, forest.len() - k,
{
    if k < 0 || k >= forest.len() {
        coord
    } else {
        let here = coord.push(k as usize);
        let c = count_node(forest[k], cs, here);
        if i < c {
            if i == 0 {
                here
            } else {
                resolve_from(forest[k].children, cs, here, 0, (i - 1) as nat)
            }
        } else {
            resolve_from(forest, cs, coord, k + 1, (i - c) as nat)
        }
    }
}

/// Coordinate of the line with index `i` in the block of lines that the
/// node `n` at coordinate `coord` contributes: index 0 is the node's own
/// line, the rest fall to its children.
pub open spec fn resolve_node(n: TreeV, cs: Set<Seq<usize>>, coord: Seq<usize>, i: nat) -> Seq<
    usize,
> {
    if i == 0 {
        coord
    } else {
        resolve_from(n.children, cs, coord, 0, (i - 1) as nat)
    }
}

/// Sibling blocks further to the right never count more lines than the
/// whole run: `count_from` shrinks as its start index grows.
pub proof fn lemma_count_from_le(
    forest: Seq<TreeV>,
    cs: Set<Seq<usize>>,
    coord: Seq<usize>,
    k1: int,
    k2: int,
)
    requires
        0 <= k1 <= k2,
    ensures
        count_from(forest, cs, coord, k2) <= count_from(forest, cs, coord, k1),
    decreases k2 - k1,
{
    if k1 < k2 {
        lemma_count_from_le(forest, cs, coord, k1 + 1, k2);
    }
}

impl Tree {
    /// How many lines this node and its visible descendants contribute,
    /// when the node stands at coordinate `coords`. The coordinate vector
    /// is used as scratch space during the walk and is restored before
    /// returning, as its callers rely on.
    pub fn count(&self, coords: &mut Vec<usize>, collapsed: &CollapseState) -> (r: usize)
        requires
            count_node(self@, collapsed@, old(coords)@) <= usize::MAX,
        ensures
            final(coords)@ == old(coords)@,
            r as nat == count_node(self@, collapsed@, old(coords)@),
        decreases *self,
    {
        if collapsed.is_collapsed(coords) {
            return 1;
        }
        let mut res: usize = 1;
        let mut j: usize = 0;
        while j < self.children.len()
            invariant
                coords@ == old(coords)@,
                !collapsed@.contains(coords@),
                0 <= j <= self.children@.len(),
                count_node(self@, collapsed@, coords@) <= usize::MAX,
                res as nat + count_from(self@.children, collapsed@, coords@, j as int)
                    == count_node(self@, collapsed@, coords@),
            decreases self.children@.len() - j,
        {
            coords.push(j);
            proof {
                assert(self@.children[j as int] == self.children@[j as int]@);
            }
            let c = self.children[j].count(coords, collapsed);
            coords.pop();
            proof {
                assert(coords@ =~= old(coords)@);
            }
            res = res + c;
            j = j + 1;
        }
        res
    }
}

} // verus!
