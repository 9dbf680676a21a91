use vstd::prelude::*;

use crate::ingest::ingest_all;
use crate::render::{connector, connector_collapsed, continuation, render_from, rendered};
use crate::resolve::{count_from, count_node, resolve_from};
use crate::state::spec_coords;
use crate::tree::{coord_in_tree, forest_bounded, node_at, tree_bounded, TreeV};

verus! {

/// The renderer emits exactly as many lines as the resolver counts: the
/// lines contributed by `forest[k..]` are `count_from` many.
pub proof fn lemma_render_from_len(
    forest: Seq<TreeV>,
    cs: Set<Seq<usize>>,
    coord: Seq<usize>,
    prefix: Seq<char>,
    k: int,
)
    ensures
        render_from(forest, cs, coord, prefix, k).len() == count_from(forest, cs, coord, k),
    decreases forest, forest.len() - k,
{
    if 0 <= k < forest.len() {
        let here = coord.push(k as usize);
        let last = k == forest.len() - 1;
        if !cs.contains(here) {
            lemma_render_from_len(forest[k].children, cs, here, prefix + continuation(last), 0);
        }
        lemma_render_from_len(forest, cs, coord, prefix, k + 1);
    }
}

/// A rendered tree shows one line for every visible node the counting
/// walk sees.
pub proof fn lemma_rendered_len(t: TreeV, cs: Set<Seq<usize>>)
    ensures
        rendered(t, cs).len() == count_from(t.children, cs, Seq::empty(), 0),
{
    lemma_render_from_len(t.children, cs, Seq::empty(), Seq::empty(), 0);
}

/// Collapsed subtree suppression: a node whose coordinate is collapsed
/// contributes exactly one line to the rendered view, however many
/// descendants it has.
pub proof fn lemma_collapsed_contributes_one(n: TreeV, cs: Set<Seq<usize>>, coord: Seq<usize>)
    requires
        cs.contains(coord),
    ensures
        count_node(n, cs, coord) == 1,
{
}

/// Render/resolve consistency over one sibling run: for a line index `i`
/// inside the block of lines contributed by `forest[k..]` (the children
/// of the node at `coord`, rendered under `prefix`), the resolver names a
/// coordinate below `coord`, that coordinate addresses a node inside the
/// run, and the rendered line is that node's label behind three glyph
/// characters per coordinate entry.
pub proof fn lemma_resolve_from_renders(
    forest: Seq<TreeV>,
    cs: Set<Seq<usize>>,
    coord: Seq<usize>,
    prefix: Seq<char>,
    k: int,
    i: nat,
)
    requires
        forest_bounded(forest),
        prefix.len() == 3 * coord.len(),
        0 <= k <= forest.len(),
        i < count_from(forest, cs, coord, k),
    ensures
        ({
            let r = resolve_from(forest, cs, coord, k, i);
            let line = render_from(forest, cs, coord, prefix, k)[i as int];
            &&& r.len() > coord.len()
            &&& r.take(coord.len() as int) == coord
            &&& k <= r[coord.len() as int] < forest.len()
            &&& coord_in_tree(forest[r[coord.len() as int] as int], r.skip(coord.len() as int + 1))
            &&& line.len() == 3 * r.len() + node_at(
                forest[r[coord.len() as int] as int],
                r.skip(coord.len() as int + 1),
            ).label.len()
            &&& line.skip(3 * r.len() as int) == node_at(
                forest[r[coord.len() as int] as int],
                r.skip(coord.len() as int + 1),
            ).label
        }),
    decreases forest, forest.len() - k,
{
    reveal_strlit("└─ ");
    reveal_strlit("├─ ");
    reveal_strlit("└⊞ ");
    reveal_strlit("├⊞ ");
    reveal_strlit("   ");
    reveal_strlit("│  ");
    let l = coord.len() as int;
    let here = coord.push(k as usize);
    let last = k == forest.len() - 1;
    let c_k = count_node(forest[k], cs, here);
    let child = forest[k];
    let r = resolve_from(forest, cs, coord, k, i);
    let seg: Seq<Seq<char>> = if cs.contains(here) {
        seq![prefix + connector_collapsed(last) + child.label]
    } else {
        seq![prefix + connector(last) + child.label] + render_from(
            child.children,
            cs,
            here,
            prefix + continuation(last),
            0,
        )
    };
    if !cs.contains(here) {
        lemma_render_from_len(child.children, cs, here, prefix + continuation(last), 0);
    }
    assert(seg.len() == c_k);
    if i < c_k {
        assert(here.take(l) =~= coord);
        assert(here.skip(l + 1) =~= Seq::<usize>::empty());
        if i == 0 {
            let conn = if cs.contains(here) {
                connector_collapsed(last)
            } else {
                connector(last)
            };
            let line = prefix + conn + child.label;
            assert(render_from(forest, cs, coord, prefix, k)[0] == line);
            assert(conn.len() == 3);
            assert(line.skip(3 * here.len() as int) =~= child.label);
            assert(node_at(child, here.skip(l + 1)) == child);
        } else {
            // The line lies inside this child's rendered subtree.
            let sub = prefix + continuation(last);
            assert(tree_bounded(child));
            assert(forest_bounded(child.children));
            lemma_resolve_from_renders(child.children, cs, here, sub, 0, (i - 1) as nat);
            let rr = resolve_from(child.children, cs, here, 0, (i - 1) as nat);
            assert(r == rr);
            assert(rr.take(l + 1) == here);
            assert(rr.take(l) =~= rr.take(l + 1).take(l));
            assert(here.take(l) =~= coord);
            assert(rr[l] == here[l]);
            let j = rr[l + 1];
            assert(rr.skip(l + 1)[0] == j);
            assert(rr.skip(l + 1).drop_first() =~= rr.skip(l + 2));
            assert(coord_in_tree(child, rr.skip(l + 1)));
            assert(node_at(child, rr.skip(l + 1)) == node_at(
                child.children[j as int],
                rr.skip(l + 2),
            ));
            let line = render_from(forest, cs, coord, prefix, k)[i as int];
            assert(line == seg[i as int]);
            assert(seg[i as int] == render_from(child.children, cs, here, sub, 0)[i - 1]);
        }
    } else {
        lemma_resolve_from_renders(forest, cs, coord, prefix, k + 1, (i - c_k) as nat);
        lemma_render_from_len(forest, cs, coord, prefix, k + 1);
        assert(render_from(forest, cs, coord, prefix, k)[i as int] == render_from(
            forest,
            cs,
            coord,
            prefix,
            k + 1,
        )[i - c_k]);
    }
}

/// Render/resolve consistency: for every index `i` the current render
/// produces, resolving the addressed position `i + 1` (position 0 names
/// the root) yields the coordinate of a node of the tree, and the `i`-th
/// rendered line carries exactly that node's label behind its glyphs:
/// three prefix and connector characters per coordinate entry.
pub proof fn lemma_render_resolve_consistent(t: TreeV, cs: Set<Seq<usize>>, i: int)
    requires
        tree_bounded(t),
        0 <= i < rendered(t, cs).len(),
    ensures
        ({
            let c = spec_coords(t, cs, (i + 1) as nat);
            &&& c.len() >= 1
            &&& coord_in_tree(t, c)
            &&& rendered(t, cs)[i].len() == 3 * c.len() + node_at(t, c).label.len()
            &&& rendered(t, cs)[i].skip(3 * c.len() as int) == node_at(t, c).label
        }),
{
    lemma_rendered_len(t, cs);
    lemma_resolve_from_renders(t.children, cs, Seq::empty(), Seq::empty(), 0, i as nat);
    let c = spec_coords(t, cs, (i + 1) as nat);
    assert(c == resolve_from(t.children, cs, Seq::empty(), 0, i as nat));
    assert(c.skip(1) =~= c.drop_first());
    assert(c.take(0) =~= Seq::<usize>::empty());
    assert(node_at(t, c) == node_at(t.children[c[0] as int], c.drop_first()));
}

/// Collapse idempotence: collapsing a coordinate a second time leaves the
/// collapse state exactly as one collapse left it.
pub proof fn lemma_collapse_idempotent(cs: Set<Seq<usize>>, c: Seq<usize>)
    ensures
        cs.insert(c).insert(c) == cs.insert(c),
{
    assert(cs.insert(c).insert(c) =~= cs.insert(c));
}

/// Expanding a freshly collapsed coordinate restores the rendered output
/// exactly: collapse followed by expand renders as if neither happened.
pub proof fn lemma_expand_restores_render(t: TreeV, cs: Set<Seq<usize>>, c: Seq<usize>)
    requires
        !cs.contains(c),
    ensures
        rendered(t, cs.insert(c).remove(c)) == rendered(t, cs),
{
    assert(cs.insert(c).remove(c) =~= cs);
}

/// Ingestion determinism: growing equal trees with the same paths and the
/// same separator yields equal trees — the result is a function of the
/// inputs alone, so two runs from an empty tree agree.
pub proof fn lemma_ingest_deterministic(
    t1: TreeV,
    t2: TreeV,
    paths: Seq<Seq<char>>,
    sep: Seq<char>,
)
    requires
        t1 == t2,
    ensures
        ingest_all(t1, paths, sep) == ingest_all(t2, paths, sep),
{
}

} // verus!
