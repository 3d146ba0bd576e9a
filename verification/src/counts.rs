//! A small count table from position hashes to visit counts.
//!
//! This is the repetition table behind a [`crate::game::Game`]: it maps each
//! position hash seen so far on the current line to the number of times the
//! position was visited. It is kept as an association vector with unique
//! keys, viewed as a `Map<u64, u32>`.

use vstd::prelude::*;

verus! {

/// A map from position hashes to visit counts, every count at least one.
#[derive(Clone)]
pub struct CountTable {
    entries: Vec<(u64, u32)>,
}

impl View for CountTable {
    type V = Map<u64, u32>;

    closed spec fn view(&self) -> Map<u64, u32> {
        Map::new(
            |h: u64| exists|i: int| 0 <= i < self.entries@.len() && self.entries@[i].0 == h,
            |h: u64|
                self.entries@[choose|i: int|
                    0 <= i < self.entries@.len() && self.entries@[i].0 == h].1,
        )
    }
}

impl CountTable {
    /// Keys are unique and every stored count is positive.
    pub closed spec fn wf(&self) -> bool {
        &&& forall|i: int, j: int|
            0 <= i < j < self.entries@.len() ==> (#[trigger] self.entries@[i]).0 != (
            #[trigger] self.entries@[j]).0
        &&& forall|i: int| 0 <= i < self.entries@.len() ==> (#[trigger] self.entries@[i]).1 >= 1
    }

    pub fn new() -> (r: CountTable)
        ensures
            r.wf(),
            r@ == Map::<u64, u32>::empty(),
    {
        let r = CountTable { entries: Vec::new() };
        proof {
            assert(r@ =~= Map::<u64, u32>::empty());
        }
        r
    }

    /// The count stored for `h`, or zero when `h` was never seen.
    pub fn get(&self, h: u64) -> (c: u32)
        requires
            self.wf(),
        ensures
            c == (if self@.contains_key(h) {
                self@[h]
            } else {
                0u32
            }),
    {
        let n = self.entries.len();
        let mut i: usize = 0;
        while i < n
            invariant
                n == self.entries@.len(),
                0 <= i <= n,
                self.wf(),
                forall|k: int| 0 <= k < i ==> (#[trigger] self.entries@[k]).0 != h,
            decreases n - i,
        {
            if self.entries[i].0 == h {
                proof {
                    assert(self@.contains_key(h));
                    let j = choose|j: int|
                        0 <= j < self.entries@.len() && self.entries@[j].0 == h;
                    assert(j == i);
                }
                return self.entries[i].1;
            }
            i = i + 1;
        }
        proof {
            assert(!self@.contains_key(h));
        }
        0
    }

    /// Whether any position was visited three times or more.
    pub fn has_triple(&self) -> (r: bool)
        requires
            self.wf(),
        ensures
            r == exists|h: u64| self@.contains_key(h) && self@[h] >= 3,
    {
        let n = self.entries.len();
        let mut i: usize = 0;
        while i < n
            invariant
                n == self.entries@.len(),
                0 <= i <= n,
                self.wf(),
                forall|k: int| 0 <= k < i ==> (#[trigger] self.entries@[k]).1 < 3,
            decreases n - i,
        {
            if self.entries[i].1 >= 3 {
                proof {
                    let h = self.entries@[i as int].0;
                    assert(self@.contains_key(h));
                    let j = choose|j: int|
                        0 <= j < self.entries@.len() && self.entries@[j].0 == h;
                    assert(j == i);
                    assert(self@[h] >= 3);
                }
                return true;
            }
            i = i + 1;
        }
        proof {
            if exists|h: u64| self@.contains_key(h) && self@[h] >= 3 {
                let h = choose|h: u64| self@.contains_key(h) && self@[h] >= 3;
                let j = choose|j: int| 0 <= j < self.entries@.len() && self.entries@[j].0 == h;
                assert(self.entries@[j].1 < 3);
            }
        }
        false
    }

    /// What the table holds after one more visit of `h`.
    pub open spec fn bumped(m: Map<u64, u32>, h: u64) -> Map<u64, u32> {
        m.insert(
            h,
            if m.contains_key(h) {
                (m[h] + 1) as u32
            } else {
                1u32
            },
        )
    }

    /// Record one more visit of `h`.
    pub fn increment(&mut self, h: u64)
        requires
            old(self).wf(),
            old(self)@.contains_key(h) ==> old(self)@[h] < u32::MAX,
        ensures
            final(self).wf(),
            final(self)@ == Self::bumped(old(self)@, h),
    {
        let n = self.entries.len();
        let mut i: usize = 0;
        while i < n
            invariant
                n == self.entries@.len(),
                0 <= i <= n,
                self.wf(),
                *self == *old(self),
                old(self)@.contains_key(h) ==> old(self)@[h] < u32::MAX,
                forall|k: int| 0 <= k < i ==> (#[trigger] self.entries@[k]).0 != h,
            decreases n - i,
        {
            if self.entries[i].0 == h {
                proof {
                    assert(self@.contains_key(h));
                    let j = choose|j: int|
                        0 <= j < self.entries@.len() && self.entries@[j].0 == h;
                    assert(j == i);
                }
                let c = self.entries[i].1;
                self.entries[i] = (h, c + 1);
                proof {
                    assert forall|g: u64| self@.contains_key(g) <==> Self::bumped(
                        old(self)@,
                        h,
                    ).contains_key(g) by {
                        if self@.contains_key(g) {
                            let j = choose|j: int|
                                0 <= j < self.entries@.len() && self.entries@[j].0 == g;
                            if j == i {
                                assert(old(self).entries@[j].0 == g);
                            } else {
                                assert(old(self).entries@[j].0 == g);
                            }
                            assert(old(self)@.contains_key(g));
                        }
                        if Self::bumped(old(self)@, h).contains_key(g) {
                            assert(old(self)@.contains_key(g) || g == h);
                            if g == h {
                                assert(self.entries@[i as int].0 == g);
                            } else {
                                let j0 = choose|j: int|
                                    0 <= j < old(self).entries@.len() && old(self).entries@[j].0
                                        == g;
                                assert(self.entries@[j0].0 == g);
                            }
                        }
                    }
                    assert forall|g: u64| self@.contains_key(g) implies self@[g] == Self::bumped(
                        old(self)@,
                        h,
                    )[g] by {
                        let j = choose|j: int|
                            0 <= j < self.entries@.len() && self.entries@[j].0 == g;
                        let j0 = choose|j: int|
                            0 <= j < old(self).entries@.len() && old(self).entries@[j].0 == g;
                        if g == h {
                            assert(j == i);
                        } else {
                            assert(j == j0);
                        }
                    }
                    assert(self@ =~= Self::bumped(old(self)@, h));
                }
                return ;
            }
            i = i + 1;
        }
        self.entries.push((h, 1));
        proof {
            assert(!old(self)@.contains_key(h));
            let m = self.entries@.len() - 1;
            assert(self.entries@[m] == (h, 1u32));
            assert forall|g: u64| self@.contains_key(g) <==> Self::bumped(
                old(self)@,
                h,
            ).contains_key(g) by {
                if self@.contains_key(g) {
                    let j = choose|j: int|
                        0 <= j < self.entries@.len() && self.entries@[j].0 == g;
                    if j < m {
                        assert(old(self).entries@[j].0 == g);
                        assert(old(self)@.contains_key(g));
                    } else {
                        assert(g == h);
                    }
                }
                if Self::bumped(old(self)@, h).contains_key(g) {
                    if g == h {
                        assert(self.entries@[m].0 == g);
                    } else {
                        let j0 = choose|j: int|
                            0 <= j < old(self).entries@.len() && old(self).entries@[j].0 == g;
                        assert(self.entries@[j0].0 == g);
                    }
                }
            }
            assert forall|g: u64| self@.contains_key(g) implies self@[g] == Self::bumped(
                old(self)@,
                h,
            )[g] by {
                let j = choose|j: int| 0 <= j < self.entries@.len() && self.entries@[j].0 == g;
                if g != h {
                    assert(old(self).entries@[j] == self.entries@[j]);
                    let j0 = choose|j: int|
                        0 <= j < old(self).entries@.len() && old(self).entries@[j].0 == g;
                    assert(j == j0);
                }
            }
            assert(self@ =~= Self::bumped(old(self)@, h));
        }
    }

    /// A fresh table with the same contents.
    pub fn duplicate(&self) -> (r: CountTable)
        requires
            self.wf(),
        ensures
            r.wf(),
            r@ == self@,
    {
        let n = self.entries.len();
        let mut entries: Vec<(u64, u32)> = Vec::new();
        let mut i: usize = 0;
        while i < n
            invariant
                n == self.entries@.len(),
                0 <= i <= n,
                entries@ == self.entries@.take(i as int),
            decreases n - i,
        {
            entries.push(self.entries[i]);
            proof {
                assert(entries@ =~= self.entries@.take(i as int + 1));
            }
            i = i + 1;
        }
        proof {
            assert(entries@ =~= self.entries@);
        }
        let r = CountTable { entries };
        proof {
            assert(r@ =~= self@);
        }
        r
    }
}

} // verus!
