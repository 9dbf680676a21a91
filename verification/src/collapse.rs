use vstd::prelude::*;

verus! {

/// The set of coordinates the user has collapsed. A node is collapsed
/// exactly when its coordinate is a member. The host inserts and removes
/// coordinates in response to user actions; both operations are idempotent.
/// A coordinate that addresses no node of the tree is harmless: the
/// renderer never looks it up.
pub struct CollapseState {
    items: Vec<Vec<usize>>,
}

impl View for CollapseState {
    type V = Set<Seq<usize>>;

    closed spec fn view(&self) -> Set<Seq<usize>> {
        Set::new(
            |s: Seq<usize>|
                exists|j: int| 0 <= j < self.items@.len() && self.items@[j]@ == s,
        )
    }
}

/// An owned copy of a coordinate vector.
pub(crate) fn coord_clone(v: &Vec<usize>) -> (r: Vec<usize>)
    ensures
        r@ == v@,
{
    let mut r: Vec<usize> = Vec::new();
    let mut k: usize = 0;
    while k < v.len()
        invariant
            0 <= k <= v@.len(),
            r@ == v@.take(k as int),
        decreases v@.len() - k,
    {
        r.push(v[k]);
        proof {
            assert(r@ =~= v@.take(k + 1));
        }
        k = k + 1;
    }
    proof {
        assert(v@.take(v@.len() as int) =~= v@);
    }
    r
}

/// Elementwise equality of two stored coordinates.
fn coord_eq(a: &Vec<usize>, b: &Vec<usize>) -> (r: bool)
    ensures
        r <==> a@ == b@,
{
    if a.len() != b.len() {
        return false;
    }
    let mut k: usize = 0;
    while k < a.len()
        invariant
            a@.len() == b@.len(),
            0 <= k <= a@.len(),
            forall|m: int| 0 <= m < k ==> a@[m] == b@[m],
        decreases a@.len() - k,
    {
        if a[k] != b[k] {
            return false;
        }
        k = k + 1;
    }
    proof {
        assert(a@ =~= b@);
    }
    true
}

impl CollapseState {
    /// A fresh, empty collapse state: nothing is collapsed.
    pub fn new() -> (r: CollapseState)
        ensures
            r@ == Set::<Seq<usize>>::empty(),
    {
        let r = CollapseState { items: Vec::new() };
        proof {
            assert(r@ =~= Set::<Seq<usize>>::empty());
        }
        r
    }

    /// Whether the coordinate `c` is currently collapsed.
    pub fn is_collapsed(&self, c: &Vec<usize>) -> (r: bool)
        ensures
            r <==> self@.contains(c@),
    {
        let mut j: usize = 0;
        while j < self.items.len()
            invariant
                0 <= j <= self.items@.len(),
                forall|m: int| 0 <= m < j ==> self.items@[m]@ != c@,
            decreases self.items@.len() - j,
        {
            if coord_eq(&self.items[j], c) {
                return true;
            }
            j = j + 1;
        }
        false
    }

    /// Mark the coordinate `c` as collapsed. Collapsing a coordinate that
    /// is already collapsed changes nothing.
    pub fn collapse(&mut self, c: Vec<usize>)
        ensures
            final(self)@ == old(self)@.insert(c@),
    {
        if self.is_collapsed(&c) {
            proof {
                assert(self@ =~= old(self)@.insert(c@));
            }
        } else {
            let ghost before = self@;
            self.items.push(c);
            proof {
                assert forall|s: Seq<usize>| #[trigger] self@.contains(s)
                    implies before.insert(c@).contains(s) by {
                    let j = choose|j: int|
                        0 <= j < self.items@.len() && self.items@[j]@ == s;
                    if j < self.items@.len() - 1 {
                        assert(before.contains(s));
                    }
                }
                assert forall|s: Seq<usize>| #[trigger] before.insert(c@).contains(s)
                    implies self@.contains(s) by {
                    if s == c@ {
                        assert(self.items@[self.items@.len() - 1]@ == s);
                    } else {
                        let j = choose|j: int|
                            0 <= j < old(self).items@.len() && old(self).items@[j]@ == s;
                        assert(self.items@[j]@ == s);
                    }
                }
                assert(self@ =~= before.insert(c@));
            }
        }
    }

    /// Mark the coordinate `c` as no longer collapsed. Expanding a
    /// coordinate that is not collapsed changes nothing.
    pub fn expand(&mut self, c: &Vec<usize>)
        ensures
            final(self)@ == old(self)@.remove(c@),
    {
        let ghost orig = self.items@;
        let mut kept: Vec<Vec<usize>> = Vec::new();
        while !self.items.is_empty()
            invariant
                self.items@.len() <= orig.len(),
                self.items@ == orig.take(self.items@.len() as int),
                forall|k: int| 0 <= k < kept@.len() ==> #[trigger] kept@[k]@ != c@,
                forall|k: int| 0 <= k < kept@.len()
                    ==> exists|m: int|
                        self.items@.len() <= m < orig.len() && orig[m]@ == #[trigger] kept@[k]@,
                forall|m: int|
                    self.items@.len() <= m < orig.len() && (#[trigger] orig[m])@ != c@
                        ==> exists|k: int| 0 <= k < kept@.len() && kept@[k]@ == orig[m]@,
            decreases self.items@.len(),
        {
            let ghost pre = self.items@;
            let x = self.items.pop().unwrap();
            proof {
                assert(x == pre[pre.len() - 1]);
                assert(self.items@ =~= orig.take(self.items@.len() as int));
            }
            if !coord_eq(&x, c) {
                let ghost kept_pre = kept@;
                kept.push(x);
                proof {
                    assert forall|k: int| 0 <= k < kept@.len()
                        implies exists|m: int|
                            self.items@.len() <= m < orig.len()
                                && orig[m]@ == #[trigger] kept@[k]@ by {
                        if k == kept@.len() - 1 {
                            assert(orig[pre.len() - 1]@ == kept@[k]@);
                        } else {
                            assert(kept_pre[k]@ == kept@[k]@);
                            let m = choose|m: int|
                                pre.len() <= m < orig.len() && orig[m]@ == kept_pre[k]@;
                            assert(orig[m]@ == kept@[k]@);
                        }
                    }
                    assert forall|m: int|
                        self.items@.len() <= m < orig.len() && (#[trigger] orig[m])@ != c@
                        implies exists|k: int| 0 <= k < kept@.len() && kept@[k]@ == orig[m]@ by {
                        if m == pre.len() - 1 {
                            assert(kept@[kept@.len() - 1]@ == orig[m]@);
                        } else {
                            let k = choose|k: int|
                                0 <= k < kept_pre.len() && kept_pre[k]@ == orig[m]@;
                            assert(kept@[k]@ == orig[m]@);
                        }
                    }
                }
            } else {
                proof {
                    assert forall|m: int|
                        self.items@.len() <= m < orig.len() && (#[trigger] orig[m])@ != c@
                        implies exists|k: int| 0 <= k < kept@.len() && kept@[k]@ == orig[m]@ by {
                        if m == pre.len() - 1 {
                            assert(orig[m]@ == x@);
                        }
                    }
                }
            }
        }
        self.items = kept;
        proof {
            assert forall|s: Seq<usize>| #[trigger] self@.contains(s)
                implies old(self)@.remove(c@).contains(s) by {
                let k = choose|k: int|
                    0 <= k < self.items@.len() && self.items@[k]@ == s;
                let m = choose|m: int| 0 <= m < orig.len() && orig[m]@ == s;
                assert(old(self)@.contains(s));
            }
            assert forall|s: Seq<usize>| #[trigger] old(self)@.remove(c@).contains(s)
                implies self@.contains(s) by {
                let m = choose|m: int| 0 <= m < orig.len() && orig[m]@ == s;
            }
            assert(self@ =~= old(self)@.remove(c@));
        }
    }
}

} // verus!
