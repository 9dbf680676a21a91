use vstd::prelude::*;

use crate::collapse::CollapseState;
use crate::tree::{Tree, TreeV};

verus! {

/// Connector glyph of a visible node: a corner for the last child of its
/// parent, a tee for any other child.
pub open spec fn connector(last: bool) -> Seq<char> {
    if last {
        "└─ "@
    } else {
        "├─ "@
    }
}

/// Connector glyph of a collapsed node: as `connector`, with a boxed
/// marker in place of the dash to signal hidden children.
pub open spec fn connector_collapsed(last: bool) -> Seq<char> {
    if last {
        "└⊞ "@
    } else {
        "├⊞ "@
    }
}

/// Continuation token a node appends to the ancestor prefix of its
/// children: blank below a last child, a vertical bar below any other.
pub open spec fn continuation(last: bool) -> Seq<char> {
    if last {
        "   "@
    } else {
        "│  "@
    }
}

/// The lines contributed, in order, by the nodes `forest[k..]` and their
/// visible descendants, where `forest` holds the children of the node at
/// coordinate `coord` and `prefix` is the ancestor prefix those children
/// inherit. A collapsed node contributes one line with the boxed
/// connector; a visible one contributes its own line and, below it, the
/// lines of its children under the extended prefix.
pub open spec fn render_from(
    forest: Seq<TreeV>,
    cs: Set<Seq<usize>>,
    coord: Seq<usize>,
    prefix: Seq<char>,
    k: int,
) -> Seq<Seq<char>>
    decreases forest, forest.len() - k,
{
    if k < 0 || k >= forest.len() {
        Seq::empty()
    } else {
        let here = coord.push(k as usize);
        let last = k == forest.len() - 1;
        let seg: Seq<Seq<char>> = if cs.contains(here) {
            seq![prefix + connector_collapsed(last) + forest[k].label]
        } else {
            seq![prefix + connector(last) + forest[k].label] + render_from(
                forest[k].children,
                cs,
                here,
                prefix + continuation(last),
                0,
            )
        };
        seg + render_from(forest, cs, coord, prefix, k + 1)
    }
}

/// The full rendered sequence of a tree under a collapse state: the root
/// emits no line of its own, its children are rendered in order with an
/// empty ancestor prefix.
pub open spec fn rendered(t: TreeV, cs: Set<Seq<usize>>) -> Seq<Seq<char>> {
    render_from(t.children, cs, Seq::empty(), Seq::empty(), 0)
}

/// The lines contributed by one node when its caller has already chosen
/// the glyphs: `conn` is the connector put before the node's own label
/// (empty for the synthetic root, which then emits no line) and `suffix`
/// the continuation token the node's children inherit on top of `prefix`.
pub open spec fn render_node_with(
    t: TreeV,
    cs: Set<Seq<usize>>,
    coord: Seq<usize>,
    prefix: Seq<char>,
    conn: Seq<char>,
    suffix: Seq<char>,
) -> Seq<Seq<char>> {
    let own: Seq<Seq<char>> = if conn.len() == 0 {
        Seq::empty()
    } else {
        seq![prefix + conn + t.label]
    };
    own + render_from(t.children, cs, coord, prefix + suffix, 0)
}

impl Tree {
    /// The lines of this node and its visible descendants, eagerly
    /// materialized in emission order. `parent_prefix` is the accumulated
    /// ancestor prefix, `immediate_prefix` the connector for this node's
    /// own line (empty suppresses the line, as for the root),
    /// `parent_suffix` the continuation token its children inherit, and
    /// `current` this node's coordinate.
    pub fn prefixed_lines(
        &self,
        parent_prefix: &str,
        immediate_prefix: &str,
        parent_suffix: &str,
        collapsed: &CollapseState,
        current: &Vec<usize>,
    ) -> (r: Vec<String>)
        ensures
            r.deep_view() == render_node_with(
                self@,
                collapsed@,
                current@,
                parent_prefix@,
                immediate_prefix@,
                parent_suffix@,
            ),
        decreases *self,
    {
        let ghost target = render_node_with(
            self@,
            collapsed@,
            current@,
            parent_prefix@,
            immediate_prefix@,
            parent_suffix@,
        );
        let mut out: Vec<String> = Vec::new();
        if !immediate_prefix.is_empty() {
            let mut line = parent_prefix.to_owned();
            line.append(immediate_prefix);
            line.append(self.value.as_str());
            out.push(line);
        }
        let mut sub = parent_prefix.to_owned();
        sub.append(parent_suffix);
        proof {
            assert(out.deep_view() =~= render_node_with(
                self@,
                collapsed@,
                current@,
                parent_prefix@,
                immediate_prefix@,
                parent_suffix@,
            ).take(out.deep_view().len() as int));
            assert(target =~= out.deep_view() + render_from(
                self@.children,
                collapsed@,
                current@,
                sub@,
                0,
            ));
        }
        let n = self.children.len();
        let mut k: usize = 0;
        while k < n
            invariant
                n as nat == self.children@.len(),
                0 <= k <= n,
                sub@ == parent_prefix@ + parent_suffix@,
                target == render_node_with(
                    self@,
                    collapsed@,
                    current@,
                    parent_prefix@,
                    immediate_prefix@,
                    parent_suffix@,
                ),
                target == out.deep_view() + render_from(
                    self@.children,
                    collapsed@,
                    current@,
                    sub@,
                    k as int,
                ),
            decreases n - k,
        {
            let ghost kids = self@.children;
            let ghost cs = collapsed@;
            let ghost done = out.deep_view();
            proof {
                assert(kids[k as int] == self.children@[k as int]@);
            }
            let mut ccur = crate::collapse::coord_clone(current);
            ccur.push(k);
            let last = k + 1 == n;
            if collapsed.is_collapsed(&ccur) {
                let mut line = sub.clone();
                line.append(if last {
                    "└⊞ "
                } else {
                    "├⊞ "
                });
                line.append(self.children[k].value.as_str());
                out.push(line);
                proof {
                    assert(line@ == sub@ + connector_collapsed(last) + kids[k as int].label);
                    assert(out.deep_view() =~= done.push(line@));
                    assert(done.push(line@) =~= done + seq![
                        sub@ + connector_collapsed(last) + kids[k as int].label,
                    ]);
                }
            } else {
                let mut seg = self.children[k].prefixed_lines(
                    sub.as_str(),
                    if last {
                        "└─ "
                    } else {
                        "├─ "
                    },
                    if last {
                        "   "
                    } else {
                        "│  "
                    },
                    collapsed,
                    &ccur,
                );
                let ghost segv = seg.deep_view();
                proof {
                    reveal_strlit("└─ ");
                    reveal_strlit("├─ ");
                    assert(connector(last).len() == 3);
                    assert(segv == render_node_with(
                        kids[k as int],
                        cs,
                        current@.push(k),
                        sub@,
                        connector(last),
                        continuation(last),
                    ));
                    assert(segv =~= seq![sub@ + connector(last) + kids[k as int].label]
                        + render_from(
                        kids[k as int].children,
                        cs,
                        current@.push(k),
                        sub@ + continuation(last),
                        0,
                    ));
                }
                out.append(&mut seg);
                proof {
                    assert(out.deep_view() =~= done + segv);
                }
            }
            k = k + 1;
        }
        out
    }
}

} // verus!
