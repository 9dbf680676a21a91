use vstd::prelude::*;

use crate::tree::{Tree, TreeV};

verus! {

/// The non-empty segments of `p` split by the separator `sep`, while the
/// characters `cur` of the current segment are already accumulated. The
/// scan takes separator occurrences from the left; empty segments, as
/// arise from leading, trailing or doubled separators, are skipped.
pub open spec fn segments_rec(p: Seq<char>, sep: Seq<char>, cur: Seq<char>) -> Seq<Seq<char>>
    decreases p.len(),
{
    if sep.len() == 0 || p.len() == 0 {
        if cur.len() > 0 {
            seq![cur]
        } else {
            Seq::empty()
        }
    } else if p.len() >= sep.len() && p.take(sep.len() as int) == sep {
        (if cur.len() > 0 {
            seq![cur]
        } else {
            Seq::empty()
        }) + segments_rec(p.skip(sep.len() as int), sep, Seq::empty())
    } else {
        segments_rec(p.skip(1), sep, cur.push(p[0]))
    }
}

/// The non-empty segments of a path under a separator. An empty separator
/// splits between every pair of characters, so each character becomes a
/// segment of its own; an empty path has no segments.
pub open spec fn segments(p: Seq<char>, sep: Seq<char>) -> Seq<Seq<char>> {
    if sep.len() == 0 {
        Seq::new(p.len(), |i: int| seq![p[i]])
    } else {
        segments_rec(p, sep, Seq::empty())
    }
}

/// The tree that ingesting the path with segments `segs` grows out of
/// `t`: walking down from `t`, a segment equal to the label of the last
/// existing child descends into that child, any other segment appends a
/// fresh child and descends into it. Only the last child is ever reused;
/// that the same label elsewhere among the siblings is not merged is part
/// of the observable grouping behaviour.
pub open spec fn spec_ingest(t: TreeV, segs: Seq<Seq<char>>) -> TreeV
    decreases segs.len(),
{
    if segs.len() == 0 {
        t
    } else {
        let rest = segs.drop_first();
        if t.children.len() > 0 && t.children.last().label == segs[0] {
            TreeV {
                label: t.label,
                children: t.children.update(
                    t.children.len() - 1,
                    spec_ingest(t.children.last(), rest),
                ),
            }
        } else {
            TreeV {
                label: t.label,
                children: t.children.push(
                    spec_ingest(TreeV { label: segs[0], children: Seq::empty() }, rest),
                ),
            }
        }
    }
}

/// The model of a freshly created tree: the sentinel root alone, with an
/// empty label and no children.
pub open spec fn empty_tree() -> TreeV {
    TreeV { label: Seq::empty(), children: Seq::empty() }
}

/// The tree grown from `t` by ingesting every path of `paths`, in order.
pub open spec fn ingest_all(t: TreeV, paths: Seq<Seq<char>>, sep: Seq<char>) -> TreeV
    decreases paths.len(),
{
    if paths.len() == 0 {
        t
    } else {
        ingest_all(spec_ingest(t, segments(paths[0], sep)), paths.drop_first(), sep)
    }
}

/// Whether the characters of `sep` occur in `path` starting at index `i`.
fn match_at(path: &str, i: usize, sep: &str) -> (r: bool)
    requires
        i + sep@.len() <= path@.len(),
        path@.len() <= usize::MAX,
    ensures
        r <==> path@.subrange(i as int, i + sep@.len()) == sep@,
{
    let slen = sep.unicode_len();
    let mut j: usize = 0;
    while j < slen
        invariant
            slen as nat == sep@.len(),
            i + sep@.len() <= path@.len(),
            path@.len() <= usize::MAX,
            0 <= j <= slen,
            forall|m: int| 0 <= m < j ==> path@[i + m] == sep@[m],
        decreases slen - j,
    {
        if path.get_char(i + j) != sep.get_char(j) {
            proof {
                assert(path@.subrange(i as int, i + sep@.len())[j as int] != sep@[j as int]);
            }
            return false;
        }
        j = j + 1;
    }
    proof {
        assert(path@.subrange(i as int, i + sep@.len()) =~= sep@);
    }
    true
}

/// Split a path into its non-empty segments.
pub fn split_segments(path: &str, separator: &str) -> (r: Vec<String>)
    ensures
        r.deep_view() == segments(path@, separator@),
{
    let plen = path.unicode_len();
    let slen = separator.unicode_len();
    let mut out: Vec<String> = Vec::new();
    if slen == 0 {
        let mut i: usize = 0;
        while i < plen
            invariant
                slen == 0,
                plen as nat == path@.len(),
                0 <= i <= plen,
                out.deep_view() =~= Seq::new(i as nat, |j: int| seq![path@[j]]),
            decreases plen - i,
        {
            let ghost done = out.deep_view();
            let piece = path.substring_char(i, i + 1).to_owned();
            out.push(piece);
            proof {
                assert(piece@ =~= seq![path@[i as int]]);
                assert(out.deep_view() =~= done.push(piece@));
                assert(out.deep_view() =~= Seq::new((i + 1) as nat, |j: int| seq![path@[j]]));
            }
            i = i + 1;
        }
        return out;
    }
    let ghost p = path@;
    let ghost sep = separator@;
    let mut i: usize = 0;
    let mut seg_start: usize = 0;
    proof {
        assert(p.skip(0) =~= p);
        assert(p.subrange(0, 0) =~= Seq::<char>::empty());
        assert(Seq::<Seq<char>>::empty() + segments_rec(p, sep, Seq::<char>::empty())
            =~= segments_rec(p, sep, Seq::<char>::empty()));
    }
    while i < plen
        invariant
            plen as nat == p.len(),
            slen as nat == sep.len(),
            slen >= 1,
            p == path@,
            sep == separator@,
            0 <= seg_start <= i <= plen,
            segments(p, sep) == out.deep_view() + segments_rec(
                p.skip(i as int),
                sep,
                p.subrange(seg_start as int, i as int),
            ),
        decreases plen - i,
    {
        let ghost done = out.deep_view();
        let ghost cur = p.subrange(seg_start as int, i as int);
        if slen <= plen - i && match_at(path, i, separator) {
            proof {
                assert(p.skip(i as int).take(slen as int) =~= p.subrange(i as int, i + slen));
                assert(p.skip(i as int).skip(slen as int) =~= p.skip(i + slen));
            }
            if seg_start < i {
                let piece = path.substring_char(seg_start, i).to_owned();
                out.push(piece);
                proof {
                    assert(out.deep_view() =~= done.push(cur));
                    assert(done.push(cur) =~= done + seq![cur]);
                }
            } else {
                proof {
                    assert(done + Seq::<Seq<char>>::empty() =~= done);
                }
            }
            i = i + slen;
            seg_start = i;
            proof {
                assert(p.subrange(seg_start as int, i as int) =~= Seq::<char>::empty());
            }
        } else {
            proof {
                // No separator starts here: either too few characters are
                // left or the comparison failed.
                if p.skip(i as int).len() >= sep.len() {
                    if i + slen <= plen {
                        assert(p.skip(i as int).take(slen as int) =~= p.subrange(
                            i as int,
                            i + slen,
                        ));
                    }
                }
                assert(p.skip(i as int).skip(1) =~= p.skip(i + 1));
                assert(cur.push(p[i as int]) =~= p.subrange(seg_start as int, i + 1));
                assert(p.skip(i as int)[0] == p[i as int]);
            }
            i = i + 1;
        }
    }
    proof {
        assert(p.skip(plen as int).len() == 0);
    }
    if seg_start < plen {
        let ghost done = out.deep_view();
        let piece = path.substring_char(seg_start, plen).to_owned();
        out.push(piece);
        proof {
            assert(out.deep_view() =~= done.push(p.subrange(seg_start as int, plen as int)));
            assert(done.push(p.subrange(seg_start as int, plen as int)) =~= done + seq![
                p.subrange(seg_start as int, plen as int),
            ]);
        }
    } else {
        proof {
            assert(p.subrange(seg_start as int, plen as int).len() == 0);
            assert(out.deep_view() + Seq::<Seq<char>>::empty() =~= out.deep_view());
        }
    }
    out
}

/// Grow the tree by one path: split it by the separator and descend,
/// reusing the last child at each level when its label equals the next
/// segment, appending a fresh child otherwise. A path with no non-empty
/// segments changes nothing.
pub fn append_path(t: &mut Tree, path: &str, separator: &str)
    ensures
        final(t)@ == spec_ingest(old(t)@, segments(path@, separator@)),
{
    let segs = split_segments(path, separator);
    ingest_segments(t, &segs, 0);
    proof {
        assert(segs.deep_view().skip(0) =~= segs.deep_view());
    }
}

/// Descend with the segments `segs[k..]`, reusing or appending the last
/// child at each level.
fn ingest_segments(t: &mut Tree, segs: &Vec<String>, k: usize)
    requires
        k <= segs@.len(),
    ensures
        final(t)@ == spec_ingest(old(t)@, segs.deep_view().skip(k as int)),
    decreases segs@.len() - k,
{
    let ghost tv = t@;
    let ghost rest = segs.deep_view().skip(k as int);
    if k == segs.len() {
        proof {
            assert(rest =~= Seq::empty());
        }
        return;
    }
    proof {
        assert(rest[0] == segs@[k as int]@);
        assert(rest.drop_first() =~= segs.deep_view().skip(k + 1));
    }
    let n = t.children.len();
    let matched = n > 0 && t.children[n - 1].value.eq(&segs[k]);
    if matched {
        proof {
            assert(tv.children[n - 1] == t.children@[n - 1 as int]@);
            assert(tv.children.last().label == rest[0]);
        }
        let mut child = t.children.pop().unwrap();
        ingest_segments(&mut child, segs, k + 1);
        t.children.push(child);
        proof {
            assert(t@.children =~= tv.children.update(
                tv.children.len() - 1,
                spec_ingest(tv.children.last(), rest.drop_first()),
            ));
            assert(t@ == spec_ingest(tv, rest));
        }
    } else {
        proof {
            if n > 0 {
                assert(tv.children[n - 1] == t.children@[n - 1 as int]@);
                assert(tv.children.last().label != rest[0]);
            }
        }
        let mut fresh = Tree { value: segs[k].clone(), children: Vec::new() };
        proof {
            assert(fresh@.children =~= Seq::<TreeV>::empty());
            assert(fresh@ == TreeV { label: rest[0], children: Seq::empty() });
        }
        ingest_segments(&mut fresh, segs, k + 1);
        t.children.push(fresh);
        proof {
            assert(t@.children =~= tv.children.push(
                spec_ingest(TreeV { label: rest[0], children: Seq::empty() }, rest.drop_first()),
            ));
            assert(t@ == spec_ingest(tv, rest));
        }
    }
}

} // verus!
