use vstd::prelude::*;

verus! {

/// Pattern `a` is tried before pattern `b`: it has the greater benefit, or the same benefit
/// and was added first.
pub open spec fn tried_before(benefits: Seq<u64>, a: usize, b: usize) -> bool {
    benefits[a as int] > benefits[b as int] || (benefits[a as int] == benefits[b as int] && a < b)
}

/// Pattern `i` applies to operations named `name`: it has no root, or that root.
pub open spec fn applies_to(roots: Seq<Option<Seq<char>>>, i: int, name: Seq<char>) -> bool {
    match roots[i] {
        None => true,
        Some(r) => r == name,
    }
}

/// The type conversion patterns added so far, by position: the operation name each is rooted
/// at, if any, and its benefit. The patterns themselves are kept by the caller in the same
/// order.
#[derive(Debug)]
pub struct TypeConversionPatternStorage {
    patterns: Vec<(Option<String>, u64)>,
}

pub struct StorageView {
    pub roots: Seq<Option<Seq<char>>>,
    pub benefits: Seq<u64>,
}

impl View for TypeConversionPatternStorage {
    type V = StorageView;

    closed spec fn view(&self) -> StorageView {
        StorageView {
            roots: self.patterns@.map_values(|p: (Option<String>, u64)| match p.0 {
                Some(s) => Some(s@),
                None => None,
            }),
            benefits: self.patterns@.map_values(|p: (Option<String>, u64)| p.1),
        }
    }
}

impl TypeConversionPatternStorage {
    pub fn new() -> (r: TypeConversionPatternStorage)
        ensures
            r@.roots.len() == 0,
            r@.benefits.len() == 0,
    {
        let r = TypeConversionPatternStorage { patterns: Vec::new() };
        proof {
            assert(r@.roots.len() == 0);
        }
        r
    }

    pub fn len(&self) -> (r: usize)
        ensures
            r == self@.roots.len(),
            r == self@.benefits.len(),
    {
        self.patterns.len()
    }

    /// Adds a pattern rooted at `root` (or at any operation) with a benefit.
    pub fn add(&mut self, root: Option<&str>, benefit: u64)
        ensures
            final(self)@.roots == old(self)@.roots.push(
                match root {
                    Some(s) => Some(s@),
                    None => None,
                },
            ),
            final(self)@.benefits == old(self)@.benefits.push(benefit),
    {
        let entry = match root {
            Some(s) => Some(s.to_string()),
            None => None,
        };
        self.patterns.push((entry, benefit));
        proof {
            assert(self@.roots =~= old(self)@.roots.push(
                match root {
                    Some(s) => Some(s@),
                    None => None,
                },
            ));
            assert(self@.benefits =~= old(self)@.benefits.push(benefit));
        }
    }

    /// The patterns to try on an operation named `name`, by position: those that apply to it,
    /// greatest benefit first and, among equal benefits, in the order they were added.
    pub fn candidates(&self, name: &str) -> (r: Vec<usize>)
        ensures
            forall|k: int| 0 <= k < r@.len() ==> (#[trigger] r@[k] as int) < self@.roots.len() && applies_to(self@.roots, r@[k] as int, name@),
            forall|i: int| 0 <= i < self@.roots.len() && applies_to(self@.roots, i, name@) ==> r@.contains(i as usize),
            forall|k: int, l: int| 0 <= k < l < r@.len() ==> tried_before(self@.benefits, #[trigger] r@[k], #[trigger] r@[l]),
    {
        let ghost roots = self@.roots;
        let ghost bs = self@.benefits;
        let key = name.to_string();
        let mut r: Vec<usize> = Vec::new();
        let mut j: usize = 0;
        while j < self.patterns.len()
            invariant
                0 <= j <= self.patterns@.len(),
                self.patterns@.len() == roots.len(),
                roots == self@.roots,
                bs == self@.benefits,
                bs.len() == roots.len(),
                key@ == name@,
                forall|k: int| 0 <= k < r@.len() ==> (#[trigger] r@[k]) < j && applies_to(roots, r@[k] as int, name@),
                forall|i: int| 0 <= i < j && applies_to(roots, i, name@) ==> r@.contains(i as usize),
                forall|k: int, l: int| 0 <= k < l < r@.len() ==> tried_before(bs, #[trigger] r@[k], #[trigger] r@[l]),
            decreases self.patterns@.len() - j,
        {
            let applies = match &self.patterns[j].0 {
                None => true,
                Some(root) => *root == key,
            };
            proof {
                assert(roots[j as int] == match self.patterns@[j as int].0 {
                    Some(s) => Some(s@),
                    None => None::<Seq<char>>,
                });
            }
            if applies {
                let b = self.patterns[j].1;
                let mut p: usize = 0;
                while p < r.len() && self.patterns[r[p]].1 >= b
                    invariant
                        0 <= p <= r@.len(),
                        self.patterns@.len() == bs.len(),
                        bs == self@.benefits,
                        b == bs[j as int],
                        j < bs.len(),
                        forall|k: int| 0 <= k < r@.len() ==> (#[trigger] r@[k]) < j,
                        forall|k: int| 0 <= k < p ==> bs[(#[trigger] r@[k]) as int] >= b,
                    decreases r@.len() - p,
                {
                    p = p + 1;
                }
                let ghost before = r@;
                proof {
                    if p < before.len() {
                        assert(bs[before[p as int] as int] < b);
                        assert forall|k: int| p <= k < before.len() implies bs[(#[trigger] before[k]) as int] < b by {
                            if k > p {
                                assert(tried_before(bs, before[p as int], before[k]));
                            }
                        }
                    }
                }
                r.insert(p, j);
                proof {
                    assert(r@ =~= before.insert(p as int, j));
                    assert forall|k: int, l: int| 0 <= k < l < r@.len() implies tried_before(bs, #[trigger] r@[k], #[trigger] r@[l]) by {
                        if l < p {
                            assert(r@[k] == before[k] && r@[l] == before[l]);
                        } else if l == p {
                            assert(r@[k] == before[k]);
                        } else if k < p {
                            assert(r@[k] == before[k] && r@[l] == before[l - 1]);
                            assert(tried_before(bs, before[k], before[l - 1]));
                        } else if k == p {
                            assert(r@[l] == before[l - 1]);
                        } else {
                            assert(r@[k] == before[k - 1] && r@[l] == before[l - 1]);
                            assert(tried_before(bs, before[k - 1], before[l - 1]));
                        }
                    }
                    assert forall|i: int| 0 <= i < j + 1 && applies_to(roots, i, name@) implies r@.contains(i as usize) by {
                        if i < j {
                            let t = choose|t: int| 0 <= t < before.len() && before[t] == i as usize;
                            if t < p {
                                assert(r@[t] == i as usize);
                            } else {
                                assert(r@[t + 1] == i as usize);
                            }
                        } else {
                            assert(r@[p as int] == j);
                        }
                    }
                    assert forall|k: int| 0 <= k < r@.len() implies (#[trigger] r@[k]) < j + 1 && applies_to(roots, r@[k] as int, name@) by {
                        if k < p {
                            assert(r@[k] == before[k]);
                        } else if k > p {
                            assert(r@[k] == before[k - 1]);
                        }
                    }
                }
            } else {
                proof {
                    assert(!applies_to(roots, j as int, name@));
                }
            }
            j = j + 1;
        }
        r
    }
}

} // verus!
