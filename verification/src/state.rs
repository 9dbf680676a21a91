use vstd::prelude::*;

use crate::collapse::CollapseState;
use crate::ingest::{append_path, empty_tree, ingest_all};
use crate::render::rendered;
use crate::resolve::{count_from, count_node, resolve_from, resolve_node, lemma_count_from_le};
use crate::tree::{Tree, TreeV};

verus! {

/// The whole engine state: the tree built from the ingested paths and the
/// set of collapsed coordinates. The tree is read-only once built; the
/// collapse state is mutated by the host between renders.
pub struct State {
    pub tree: Tree,
    pub collapsed: CollapseState,
}

/// Coordinate of the node addressed by index `i`, where index 0 stands for
/// the root itself and index `i >= 1` addresses the node whose line is the
/// `i - 1`-th of the rendered sequence.
pub open spec fn spec_coords(t: TreeV, cs: Set<Seq<usize>>, i: nat) -> Seq<usize> {
    resolve_node(t, cs, Seq::empty(), i)
}

/// Build the engine state at startup: ingest the already-read input lines
/// in order into a fresh tree, with nothing collapsed yet.
pub fn init_state(lines: &Vec<String>, separator: &str) -> (r: State)
    ensures
        r.tree@ == ingest_all(empty_tree(), lines.deep_view(), separator@),
        r.collapsed@ == Set::<Seq<usize>>::empty(),
{
    let mut tree = Tree { value: String::new(), children: Vec::new() };
    proof {
        assert(tree@.children =~= Seq::<TreeV>::empty());
        assert(tree@.label =~= Seq::<char>::empty());
        assert(tree@ == empty_tree());
    }
    let ghost all = lines.deep_view();
    let ghost sep = separator@;
    let mut idx: usize = 0;
    proof {
        assert(all.skip(0) =~= all);
    }
    while idx < lines.len()
        invariant
            all == lines.deep_view(),
            sep == separator@,
            0 <= idx <= lines@.len(),
            ingest_all(empty_tree(), all, sep) == ingest_all(tree@, all.skip(idx as int), sep),
        decreases lines@.len() - idx,
    {
        proof {
            assert(all.skip(idx as int)[0] == lines@[idx as int]@);
            assert(all.skip(idx as int).drop_first() =~= all.skip(idx + 1));
        }
        append_path(&mut tree, lines[idx].as_str(), separator);
        idx = idx + 1;
    }
    proof {
        assert(all.skip(lines@.len() as int) =~= Seq::empty());
    }
    State { tree, collapsed: CollapseState::new() }
}

impl State {
    /// The rendered sequence of display lines of the whole tree under the
    /// current collapse state, in pre-order; the root contributes none.
    pub fn lines(&self) -> (r: Vec<String>)
        ensures
            r.deep_view() == rendered(self.tree@, self.collapsed@),
    {
        let empty_coord: Vec<usize> = Vec::new();
        let r = self.tree.prefixed_lines("", "", "", &self.collapsed, &empty_coord);
        proof {
            reveal_strlit("");
            assert(""@ =~= Seq::<char>::empty());
            assert(""@ + ""@ =~= Seq::<char>::empty());
            assert(r.deep_view() =~= rendered(self.tree@, self.collapsed@));
        }
        r
    }

    #[verifier::loop_isolation(false)]
    fn recursive_coords(&self, tree: &Tree, i: usize, coords: Vec<usize>) -> (r: Vec<usize>)
        requires
            i == 0 || (((i - 1) as nat) < count_from(tree@.children, self.collapsed@, coords@, 0)
                && count_from(tree@.children, self.collapsed@, coords@, 0) <= usize::MAX),
        ensures
            r@ == resolve_node(tree@, self.collapsed@, coords@, i as nat),
        decreases *tree,
    {
        if i == 0 {
            return coords;
        }
        let ghost base = coords@;
        let ghost cs = self.collapsed@;
        let ghost kids = tree@.children;
        let mut rem: usize = i - 1;
        let mut coords = coords;
        let mut j: usize = 0;
        let n = tree.children.len();
        loop
            invariant
                n as nat == kids.len(),
                coords@ == base,
                0 <= j <= kids.len(),
                (rem as nat) < count_from(kids, cs, base, j as int),
                count_from(kids, cs, base, 0) <= usize::MAX,
                resolve_from(kids, cs, base, j as int, rem as nat) == resolve_from(
                    kids,
                    cs,
                    base,
                    0,
                    (i - 1) as nat,
                ),
                kids == tree@.children,
                cs == self.collapsed@,
            decreases kids.len() - j,
        {
            proof {
                // count_from is zero past the end, so a positive remaining
                // count means a child is left to inspect.
                assert(j < kids.len());
                lemma_count_from_le(kids, cs, base, 0, j as int);
                assert(kids[j as int] == tree.children@[j as int]@);
            }
            coords.push(j);
            let cnt = tree.children[j].count(&mut coords, &self.collapsed);
            if rem < cnt {
                proof {
                    let here = base.push(j);
                    let child = kids[j as int];
                    assert(cnt as nat == count_node(child, cs, here));
                    if !cs.contains(here) {
                        assert(count_node(child, cs, here) == 1 + count_from(
                            child.children,
                            cs,
                            here,
                            0,
                        ));
                    }
                    // The target line falls inside this child's block, so
                    // the sibling walk resolves through this child.
                    assert(resolve_from(kids, cs, base, j as int, rem as nat) == resolve_node(
                        child,
                        cs,
                        here,
                        rem as nat,
                    ));
                }
                return self.recursive_coords(&tree.children[j], rem, coords);
            }
            coords.pop();
            proof {
                assert(coords@ =~= base);
            }
            rem = rem - cnt;
            j = j + 1;
        }
    }

    /// Resolve a rendered line index to the coordinate of the node that
    /// produced the line, or `None` when the current render has no such
    /// line: an out-of-range index signals a desynchronized host and is
    /// answered loudly rather than with a silently wrong coordinate.
    pub fn resolve_coordinate(&self, line: usize) -> (r: Option<Vec<usize>>)
        requires
            count_from(self.tree@.children, self.collapsed@, Seq::empty(), 0) <= usize::MAX,
        ensures
            ({
                let total = count_from(self.tree@.children, self.collapsed@, Seq::empty(), 0);
                &&& (line as nat) < total ==> (r matches Some(c) && c@ == spec_coords(
                    self.tree@,
                    self.collapsed@,
                    (line + 1) as nat,
                ))
                &&& (line as nat) >= total ==> r is None
            }),
    {
        let ghost kids = self.tree@.children;
        let ghost cs = self.collapsed@;
        let mut scratch: Vec<usize> = Vec::new();
        let mut acc: usize = 0;
        let mut j: usize = 0;
        let n = self.tree.children.len();
        #[verifier::loop_isolation(false)]
        while j < n
            invariant
                n as nat == kids.len(),
                0 <= j <= n,
                scratch@ == Seq::<usize>::empty(),
                acc as nat + count_from(kids, cs, Seq::empty(), j as int) == count_from(
                    kids,
                    cs,
                    Seq::empty(),
                    0,
                ),
            decreases n - j,
        {
            proof {
                lemma_count_from_le(kids, cs, Seq::empty(), 0, j as int);
                assert(kids[j as int] == self.tree.children@[j as int]@);
            }
            scratch.push(j);
            let c = self.tree.children[j].count(&mut scratch, &self.collapsed);
            scratch.pop();
            proof {
                assert(scratch@ =~= Seq::<usize>::empty());
            }
            acc = acc + c;
            j = j + 1;
        }
        if line < acc {
            Some(self.coords(line + 1))
        } else {
            None
        }
    }

    /// Resolve the index `i` to a tree coordinate: 0 names the root (the
    /// empty coordinate), and `i >= 1` names the node whose line is the
    /// `i - 1`-th line of the rendered sequence. The index must address a
    /// line the current render produces.
    pub fn coords(&self, i: usize) -> (r: Vec<usize>)
        requires
            i == 0 || (((i - 1) as nat) < count_from(
                self.tree@.children,
                self.collapsed@,
                Seq::empty(),
                0,
            ) && count_from(self.tree@.children, self.collapsed@, Seq::empty(), 0)
                <= usize::MAX),
        ensures
            r@ == spec_coords(self.tree@, self.collapsed@, i as nat),
    {
        let start: Vec<usize> = Vec::new();
        self.recursive_coords(&self.tree, i, start)
    }
}

} // verus!
