//! Sparse size vectors keyed by source type, the unit of account of the
//! split-chunks optimization.

use vstd::prelude::*;

verus! {

/// The closed set of source categories a chunk can carry bytes for.
/// A key absent from a size vector means "no known size for that type",
/// which is distinct from a size of zero.
#[derive(Clone, Copy, PartialEq, Eq, Structural, Hash, Debug)]
pub enum SourceType {
    JavaScript,
    Css,
    Wasm,
    Asset,
    Runtime,
    Unknown,
}

/// The mapping a size-vector entry list denotes.
pub open spec fn sizes_map(s: Seq<(SourceType, i64)>) -> Map<SourceType, i64> {
    Map::new(
        |ty: SourceType| exists|i: int| 0 <= i < s.len() && (#[trigger] s[i]).0 == ty,
        |ty: SourceType| s[choose|i: int| 0 <= i < s.len() && (#[trigger] s[i]).0 == ty].1,
    )
}

/// No key occurs twice in the entry list.
pub open spec fn entries_wf(s: Seq<(SourceType, i64)>) -> bool {
    forall|i: int, j: int| 0 <= i < j < s.len() ==> (#[trigger] s[i]).0 != (#[trigger] s[j]).0
}

/// In a well-formed entry list, every entry speaks for its key.
pub proof fn lemma_sizes_map_entry(s: Seq<(SourceType, i64)>, i: int)
    requires
        entries_wf(s),
        0 <= i < s.len(),
    ensures
        sizes_map(s).dom().contains(s[i].0),
        sizes_map(s)[s[i].0] == s[i].1,
{
    assert(0 <= i < s.len() && s[i].0 == s[i].0);
    let j = choose|j: int| 0 <= j < s.len() && (#[trigger] s[j]).0 == s[i].0;
    assert(j == i);
}

/// A key no entry carries is absent from the mapping.
pub proof fn lemma_sizes_map_absent(s: Seq<(SourceType, i64)>, ty: SourceType)
    requires
        forall|i: int| 0 <= i < s.len() ==> (#[trigger] s[i]).0 != ty,
    ensures
        !sizes_map(s).dom().contains(ty),
{
}

/// The sum of two sizes stays representable.
pub open spec fn sum_fits(a: i64, b: i64) -> bool {
    i64::MIN <= a + b <= i64::MAX
}

/// The difference of two sizes stays representable.
pub open spec fn diff_fits(a: i64, b: i64) -> bool {
    i64::MIN <= a - b <= i64::MAX
}

/// A sparse vector of byte counts keyed by source type.
pub struct SplitChunkSizes {
    entries: Vec<(SourceType, i64)>,
}

impl SplitChunkSizes {
    /// The mapping this vector denotes.
    pub closed spec fn view(&self) -> Map<SourceType, i64> {
        sizes_map(self.entries@)
    }

    pub closed spec fn wf(&self) -> bool {
        entries_wf(self.entries@)
    }

    /// A vector with no known sizes.
    pub fn empty() -> (r: SplitChunkSizes)
        ensures
            r.wf(),
            r@ == Map::<SourceType, i64>::empty(),
    {
        let r = SplitChunkSizes { entries: Vec::new() };
        proof {
            assert(r@ =~= Map::<SourceType, i64>::empty());
        }
        r
    }

    /// A vector giving each listed type the same initial byte count.
    pub fn with_initial_value(default_size_types: &[SourceType], initial_bytes: i64) -> (r:
        SplitChunkSizes)
        ensures
            r.wf(),
            forall|ty: SourceType|
                #[trigger] r@.dom().contains(ty) <==> default_size_types@.contains(ty),
            forall|ty: SourceType| r@.dom().contains(ty) ==> r@[ty] == initial_bytes,
    {
        let mut r = SplitChunkSizes::empty();
        let mut i: usize = 0;
        while i < default_size_types.len()
            invariant
                0 <= i <= default_size_types@.len(),
                r.wf(),
                forall|ty: SourceType|
                    #[trigger] r@.dom().contains(ty) <==> default_size_types@.subrange(
                        0,
                        i as int,
                    ).contains(ty),
                forall|ty: SourceType| r@.dom().contains(ty) ==> r@[ty] == initial_bytes,
            decreases default_size_types@.len() - i,
        {
            let ty = default_size_types[i];
            r.insert(ty, initial_bytes);
            proof {
                let sub1 = default_size_types@.subrange(0, i as int + 1);
                let sub0 = default_size_types@.subrange(0, i as int);
                assert(sub1.drop_last() =~= sub0);
                assert forall|t: SourceType| #[trigger] sub1.contains(t) implies r@.dom().contains(
                    t,
                ) by {
                    let j = choose|j: int| 0 <= j < sub1.len() && sub1[j] == t;
                    if j < i {
                        assert(sub0[j] == t);
                        assert(sub0.contains(t));
                    }
                }
                assert forall|t: SourceType| #[trigger] r@.dom().contains(t) implies sub1.contains(
                    t,
                ) by {
                    if sub0.contains(t) {
                        let j = choose|j: int| 0 <= j < sub0.len() && sub0[j] == t;
                        assert(sub1[j] == t);
                    } else {
                        assert(sub1[i as int] == t);
                    }
                }
            }
            i += 1;
        }
        proof {
            assert(default_size_types@.subrange(0, default_size_types@.len() as int)
                =~= default_size_types@);
        }
        r
    }

    /// First entry holding `ty`.
    fn find(&self, ty: SourceType) -> (r: Option<usize>)
        ensures
            match r {
                Some(i) => i < self.entries@.len() && self.entries@[i as int].0 == ty,
                None => forall|j: int|
                    0 <= j < self.entries@.len() ==> (#[trigger] self.entries@[j]).0 != ty,
            },
    {
        let mut i: usize = 0;
        while i < self.entries.len()
            invariant
                0 <= i <= self.entries@.len(),
                forall|j: int| 0 <= j < i ==> (#[trigger] self.entries@[j]).0 != ty,
            decreases self.entries@.len() - i,
        {
            if self.entries[i].0 == ty {
                return Some(i);
            }
            i += 1;
        }
        None
    }

    /// The known size for `ty`, if any.
    pub fn get(&self, ty: SourceType) -> (r: Option<i64>)
        requires
            self.wf(),
        ensures
            match r {
                Some(v) => self@.dom().contains(ty) && self@[ty] == v,
                None => !self@.dom().contains(ty),
            },
    {
        match self.find(ty) {
            Some(i) => {
                proof {
                    lemma_sizes_map_entry(self.entries@, i as int);
                }
                Some(self.entries[i].1)
            }
            None => {
                proof {
                    lemma_sizes_map_absent(self.entries@, ty);
                }
                None
            }
        }
    }

    /// Whether a size is known for `ty`.
    pub fn contains_key(&self, ty: SourceType) -> (r: bool)
        requires
            self.wf(),
        ensures
            r == self@.dom().contains(ty),
    {
        match self.get(ty) {
            Some(_) => true,
            None => false,
        }
    }

    /// Sets the size for `ty`.
    pub fn insert(&mut self, ty: SourceType, bytes: i64)
        requires
            old(self).wf(),
        ensures
            final(self).wf(),
            final(self)@ == old(self)@.insert(ty, bytes),
    {
        let ghost s0 = self.entries@;
        match self.find(ty) {
            Some(i) => {
                self.entries.set(i, (ty, bytes));
                proof {
                    let s1 = self.entries@;
                    assert(s1 == s0.update(i as int, (ty, bytes)));
                    assert(entries_wf(s1)) by {
                        assert forall|p: int, q: int| 0 <= p < q < s1.len() implies (
                        #[trigger] s1[p]).0 != (#[trigger] s1[q]).0 by {
                            assert(s1[p].0 == s0[p].0);
                            assert(s1[q].0 == s0[q].0);
                        }
                    }
                    assert forall|k: SourceType| true implies #[trigger] sizes_map(s1).dom()
                        .contains(k) == old(self)@.insert(ty, bytes).dom().contains(k) by {
                        if sizes_map(s1).dom().contains(k) {
                            let j = choose|j: int| 0 <= j < s1.len() && (#[trigger] s1[j]).0 == k;
                            if j != i {
                                lemma_sizes_map_entry(s0, j);
                            }
                        }
                        if old(self)@.insert(ty, bytes).dom().contains(k) {
                            if k == ty {
                                assert(s1[i as int].0 == k);
                            } else {
                                let j = choose|j: int|
                                    0 <= j < s0.len() && (#[trigger] s0[j]).0 == k;
                                assert(s1[j].0 == k);
                            }
                        }
                    }
                    assert forall|k: SourceType| sizes_map(s1).dom().contains(k) implies sizes_map(
                        s1,
                    )[k] == old(self)@.insert(ty, bytes)[k] by {
                        if k == ty {
                            lemma_sizes_map_entry(s1, i as int);
                        } else {
                            let j = choose|j: int| 0 <= j < s1.len() && (#[trigger] s1[j]).0 == k;
                            assert(j != i);
                            assert(s0[j] == s1[j]);
                            lemma_sizes_map_entry(s0, j);
                            lemma_sizes_map_entry(s1, j);
                        }
                    }
                    assert(sizes_map(s1) =~= old(self)@.insert(ty, bytes));
                }
            }
            None => {
                self.entries.push((ty, bytes));
                proof {
                    let s1 = self.entries@;
                    assert(s1 == s0.push((ty, bytes)));
                    assert(entries_wf(s1)) by {
                        assert forall|p: int, q: int| 0 <= p < q < s1.len() implies (
                        #[trigger] s1[p]).0 != (#[trigger] s1[q]).0 by {
                            if q == s1.len() - 1 {
                                assert(s1[p] == s0[p]);
                            } else {
                                assert(s1[p] == s0[p]);
                                assert(s1[q] == s0[q]);
                            }
                        }
                    }
                    assert forall|k: SourceType| true implies #[trigger] sizes_map(s1).dom()
                        .contains(k) == old(self)@.insert(ty, bytes).dom().contains(k) by {
                        if sizes_map(s1).dom().contains(k) {
                            let j = choose|j: int| 0 <= j < s1.len() && (#[trigger] s1[j]).0 == k;
                            if j < s0.len() {
                                lemma_sizes_map_entry(s0, j);
                            }
                        }
                        if old(self)@.insert(ty, bytes).dom().contains(k) {
                            if k == ty {
                                assert(s1[s1.len() - 1].0 == k);
                            } else {
                                let j = choose|j: int|
                                    0 <= j < s0.len() && (#[trigger] s0[j]).0 == k;
                                assert(s1[j].0 == k);
                            }
                        }
                    }
                    assert forall|k: SourceType| sizes_map(s1).dom().contains(k) implies sizes_map(
                        s1,
                    )[k] == old(self)@.insert(ty, bytes)[k] by {
                        if k == ty {
                            lemma_sizes_map_entry(s1, s1.len() - 1);
                        } else {
                            let j = choose|j: int| 0 <= j < s1.len() && (#[trigger] s1[j]).0 == k;
                            assert(j < s0.len());
                            lemma_sizes_map_entry(s0, j);
                            lemma_sizes_map_entry(s1, j);
                        }
                    }
                    assert(sizes_map(s1) =~= old(self)@.insert(ty, bytes));
                }
            }
        }
    }
}


impl SplitChunkSizes {
    /// Folds `other` into `self` asymmetrically: keys already present keep
    /// their value, keys only `other` knows are taken over.
    pub fn merge(self, other: &Self) -> (r: SplitChunkSizes)
        requires
            self.wf(),
            other.wf(),
        ensures
            r.wf(),
            r@ == other@.union_prefer_right(self@),
    {
        let ghost selfv = self@;
        let ghost ov = other.entries@;
        let mut result = self;
        let mut i: usize = 0;
        proof {
            assert(sizes_map(ov.subrange(0, 0)) =~= Map::<SourceType, i64>::empty());
            assert(result@ =~= sizes_map(ov.subrange(0, 0)).union_prefer_right(selfv));
        }
        while i < other.entries.len()
            invariant
                0 <= i <= ov.len(),
                ov == other.entries@,
                entries_wf(ov),
                result.wf(),
                result@ == sizes_map(ov.subrange(0, i as int)).union_prefer_right(selfv),
            decreases ov.len() - i,
        {
            let e = other.entries[i];
            let ghost before = result@;
            proof {
                let sub0 = ov.subrange(0, i as int);
                let sub1 = ov.subrange(0, i as int + 1);
                assert(sub1.drop_last() =~= sub0);
                assert(sub1.last() == ov[i as int]);
                assert forall|j: int| 0 <= j < sub0.len() implies (#[trigger] sub0[j]).0
                    != e.0 by {
                    assert(sub0[j] == ov[j]);
                }
                lemma_sizes_map_absent(sub0, e.0);
                // sizes_map(sub1) == sizes_map(sub0).insert(e.0, e.1)
                assert forall|k: SourceType| true implies #[trigger] sizes_map(sub1).dom()
                    .contains(k) == sizes_map(sub0).insert(e.0, e.1).dom().contains(k) by {
                    if sizes_map(sub1).dom().contains(k) {
                        let j = choose|j: int| 0 <= j < sub1.len() && (#[trigger] sub1[j]).0 == k;
                        if j < sub0.len() {
                            lemma_sizes_map_entry(sub0, j);
                        }
                    }
                    if sizes_map(sub0).insert(e.0, e.1).dom().contains(k) {
                        if k == e.0 {
                            assert(sub1[sub1.len() - 1].0 == k);
                        } else {
                            let j = choose|j: int|
                                0 <= j < sub0.len() && (#[trigger] sub0[j]).0 == k;
                            assert(sub1[j].0 == k);
                        }
                    }
                }
                assert(entries_wf(sub1)) by {
                    assert forall|p: int, q: int| 0 <= p < q < sub1.len() implies (
                    #[trigger] sub1[p]).0 != (#[trigger] sub1[q]).0 by {
                        assert(sub1[p] == ov[p]);
                        assert(sub1[q] == ov[q]);
                    }
                }
                assert forall|k: SourceType| sizes_map(sub1).dom().contains(k) implies sizes_map(
                    sub1,
                )[k] == sizes_map(sub0).insert(e.0, e.1)[k] by {
                    if k == e.0 {
                        lemma_sizes_map_entry(sub1, sub1.len() - 1);
                    } else {
                        let j = choose|j: int| 0 <= j < sub1.len() && (#[trigger] sub1[j]).0 == k;
                        assert(j < sub0.len());
                        lemma_sizes_map_entry(sub0, j);
                        lemma_sizes_map_entry(sub1, j);
                    }
                }
                assert(sizes_map(sub1) =~= sizes_map(sub0).insert(e.0, e.1));
            }
            if !result.contains_key(e.0) {
                result.insert(e.0, e.1);
                proof {
                    assert(result@ =~= sizes_map(ov.subrange(0, i as int + 1))
                        .union_prefer_right(selfv));
                }
            } else {
                proof {
                    assert(result@ =~= sizes_map(ov.subrange(0, i as int + 1))
                        .union_prefer_right(selfv));
                }
            }
            i += 1;
        }
        proof {
            assert(ov.subrange(0, ov.len() as int) =~= ov);
        }
        result
    }

    /// Combines two vectors pointwise: a key both know is combined with
    /// `combine`, a key only one side knows keeps that single value.
    pub fn combine_with<F: Fn(i64, i64) -> i64>(&mut self, other: &Self, combine: F)
        requires
            old(self).wf(),
            other.wf(),
            forall|k: SourceType|
                old(self)@.dom().contains(k) && other@.dom().contains(k) ==> call_requires(
                    combine,
                    (old(self)@[k], other@[k]),
                ),
        ensures
            final(self).wf(),
            forall|k: SourceType|
                #[trigger] final(self)@.dom().contains(k) == (old(self)@.dom().contains(k)
                    || other@.dom().contains(k)),
            forall|k: SourceType|
                old(self)@.dom().contains(k) && other@.dom().contains(k) ==> call_ensures(
                    combine,
                    (old(self)@[k], other@[k]),
                    #[trigger] final(self)@[k],
                ),
            forall|k: SourceType|
                old(self)@.dom().contains(k) && !other@.dom().contains(k)
                    ==> #[trigger] final(self)@[k] == old(self)@[k],
            forall|k: SourceType|
                !old(self)@.dom().contains(k) && other@.dom().contains(k)
                    ==> #[trigger] final(self)@[k] == other@[k],
    {
        let ghost a0 = old(self)@;
        let ghost ov = other.entries@;
        let mut i: usize = 0;
        proof {
            assert forall|k: SourceType| #[trigger] sizes_map(ov.subrange(0, 0)).dom().contains(
                k,
            ) implies false by {}
        }
        while i < other.entries.len()
            invariant
                0 <= i <= ov.len(),
                ov == other.entries@,
                entries_wf(ov),
                other@ == sizes_map(ov),
                self.wf(),
                forall|k: SourceType|
                    a0.dom().contains(k) && other@.dom().contains(k) ==> call_requires(
                        combine,
                        (a0[k], other@[k]),
                    ),
                forall|k: SourceType|
                    #[trigger] self@.dom().contains(k) == (a0.dom().contains(k) || sizes_map(
                        ov.subrange(0, i as int),
                    ).dom().contains(k)),
                forall|k: SourceType|
                    a0.dom().contains(k) && sizes_map(ov.subrange(0, i as int)).dom().contains(k)
                        ==> call_ensures(combine, (a0[k], other@[k]), #[trigger] self@[k]),
                forall|k: SourceType|
                    a0.dom().contains(k) && !sizes_map(ov.subrange(0, i as int)).dom().contains(k)
                        ==> #[trigger] self@[k] == a0[k],
                forall|k: SourceType|
                    !a0.dom().contains(k) && sizes_map(ov.subrange(0, i as int)).dom().contains(k)
                        ==> #[trigger] self@[k] == other@[k],
            decreases ov.len() - i,
        {
            let e = other.entries[i];
            proof {
                let sub0 = ov.subrange(0, i as int);
                let sub1 = ov.subrange(0, i as int + 1);
                assert forall|j: int| 0 <= j < sub0.len() implies (#[trigger] sub0[j]).0
                    != e.0 by {
                    assert(sub0[j] == ov[j]);
                }
                lemma_sizes_map_absent(sub0, e.0);
                assert forall|k: SourceType| true implies (#[trigger] sizes_map(sub1).dom()
                    .contains(k) == (sizes_map(sub0).dom().contains(k) || k == e.0)) by {
                    if sizes_map(sub1).dom().contains(k) {
                        let j = choose|j: int| 0 <= j < sub1.len() && (#[trigger] sub1[j]).0 == k;
                        if j < sub0.len() {
                            assert(sub0[j].0 == k);
                        }
                    }
                    if sizes_map(sub0).dom().contains(k) {
                        let j = choose|j: int| 0 <= j < sub0.len() && (#[trigger] sub0[j]).0 == k;
                        assert(sub1[j].0 == k);
                    }
                    if k == e.0 {
                        assert(sub1[sub1.len() - 1].0 == k);
                    }
                }
                lemma_sizes_map_entry(ov, i as int);
                assert(other@.dom().contains(e.0));
                assert(other@[e.0] == e.1);
            }
            match self.get(e.0) {
                Some(mine) => {
                    let combined = combine(mine, e.1);
                    self.insert(e.0, combined);
                }
                None => {
                    self.insert(e.0, e.1);
                }
            }
            i += 1;
        }
        proof {
            assert(ov.subrange(0, ov.len() as int) =~= ov);
        }
    }

    /// True when some category has a nonzero size strictly greater than the
    /// other vector's size for it; a key the other vector does not know is
    /// skipped, not treated as infinitely smaller.
    pub fn bigger_than(&self, other: &Self) -> (r: bool)
        requires
            self.wf(),
            other.wf(),
        ensures
            r == exists|ty: SourceType|
                #[trigger] self@.dom().contains(ty) && self@[ty] != 0 && other@.dom().contains(ty)
                    && self@[ty] > other@[ty],
    {
        let mut i: usize = 0;
        while i < self.entries.len()
            invariant
                0 <= i <= self.entries@.len(),
                self.wf(),
                other.wf(),
                forall|j: int|
                    0 <= j < i ==> !((#[trigger] self.entries@[j]).1 != 0 && other@.dom().contains(
                        self.entries@[j].0,
                    ) && self.entries@[j].1 > other@[self.entries@[j].0]),
            decreases self.entries@.len() - i,
        {
            let e = self.entries[i];
            if e.1 != 0 {
                match other.get(e.0) {
                    Some(o) => {
                        if e.1 > o {
                            proof {
                                lemma_sizes_map_entry(self.entries@, i as int);
                                let ty = self.entries@[i as int].0;
                                assert(self@.dom().contains(ty) && self@[ty] != 0 && other@.dom()
                                    .contains(ty) && self@[ty] > other@[ty]);
                            }
                            return true;
                        }
                    }
                    None => {}
                }
            }
            i += 1;
        }
        proof {
            assert forall|ty: SourceType|
                #[trigger] self@.dom().contains(ty) && self@[ty] != 0 && other@.dom().contains(ty)
                    && self@[ty] > other@[ty] implies false by {
                let j = choose|j: int|
                    0 <= j < self.entries@.len() && (#[trigger] self.entries@[j]).0 == ty;
                lemma_sizes_map_entry(self.entries@, j);
            }
        }
        false
    }

    /// True when some category has a nonzero size strictly smaller than the
    /// other vector's size for it; a key the other vector does not know is
    /// skipped.
    pub fn smaller_than(&self, other: &Self) -> (r: bool)
        requires
            self.wf(),
            other.wf(),
        ensures
            r == exists|ty: SourceType|
                #[trigger] self@.dom().contains(ty) && self@[ty] != 0 && other@.dom().contains(ty)
                    && self@[ty] < other@[ty],
    {
        let mut i: usize = 0;
        while i < self.entries.len()
            invariant
                0 <= i <= self.entries@.len(),
                self.wf(),
                other.wf(),
                forall|j: int|
                    0 <= j < i ==> !((#[trigger] self.entries@[j]).1 != 0 && other@.dom().contains(
                        self.entries@[j].0,
                    ) && self.entries@[j].1 < other@[self.entries@[j].0]),
            decreases self.entries@.len() - i,
        {
            let e = self.entries[i];
            if e.1 != 0 {
                match other.get(e.0) {
                    Some(o) => {
                        if e.1 < o {
                            proof {
                                lemma_sizes_map_entry(self.entries@, i as int);
                                let ty = self.entries@[i as int].0;
                                assert(self@.dom().contains(ty) && self@[ty] != 0 && other@.dom()
                                    .contains(ty) && self@[ty] < other@[ty]);
                            }
                            return true;
                        }
                    }
                    None => {}
                }
            }
            i += 1;
        }
        proof {
            assert forall|ty: SourceType|
                #[trigger] self@.dom().contains(ty) && self@[ty] != 0 && other@.dom().contains(ty)
                    && self@[ty] < other@[ty] implies false by {
                let j = choose|j: int|
                    0 <= j < self.entries@.len() && (#[trigger] self.entries@[j]).0 == ty;
                lemma_sizes_map_entry(self.entries@, j);
            }
        }
        false
    }

    /// Pointwise addition: [`SplitChunkSizes::combine_with`] under `+`.
    pub fn add_by(&mut self, other: &Self)
        requires
            old(self).wf(),
            other.wf(),
            forall|k: SourceType|
                old(self)@.dom().contains(k) && other@.dom().contains(k) ==> i64::MIN <= old(
                    self,
                )@[k] + other@[k] <= i64::MAX,
        ensures
            final(self).wf(),
            forall|k: SourceType|
                #[trigger] final(self)@.dom().contains(k) == (old(self)@.dom().contains(k)
                    || other@.dom().contains(k)),
            forall|k: SourceType|
                old(self)@.dom().contains(k) && other@.dom().contains(k)
                    ==> #[trigger] final(self)@[k] == old(self)@[k] + other@[k],
            forall|k: SourceType|
                old(self)@.dom().contains(k) && !other@.dom().contains(k)
                    ==> #[trigger] final(self)@[k] == old(self)@[k],
            forall|k: SourceType|
                !old(self)@.dom().contains(k) && other@.dom().contains(k)
                    ==> #[trigger] final(self)@[k] == other@[k],
    {
        let add_op = |a: i64, b: i64| -> (r: i64)
            requires
                sum_fits(a, b),
            ensures
                r == a + b,
            { a + b };
        self.combine_with(other, add_op);
    }

    /// Pointwise subtraction: [`SplitChunkSizes::combine_with`] under `-`.
    pub fn subtract_by(&mut self, other: &Self)
        requires
            old(self).wf(),
            other.wf(),
            forall|k: SourceType|
                old(self)@.dom().contains(k) && other@.dom().contains(k) ==> i64::MIN <= old(
                    self,
                )@[k] - other@[k] <= i64::MAX,
        ensures
            final(self).wf(),
            forall|k: SourceType|
                #[trigger] final(self)@.dom().contains(k) == (old(self)@.dom().contains(k)
                    || other@.dom().contains(k)),
            forall|k: SourceType|
                old(self)@.dom().contains(k) && other@.dom().contains(k)
                    ==> #[trigger] final(self)@[k] == old(self)@[k] - other@[k],
            forall|k: SourceType|
                old(self)@.dom().contains(k) && !other@.dom().contains(k)
                    ==> #[trigger] final(self)@[k] == old(self)@[k],
            forall|k: SourceType|
                !old(self)@.dom().contains(k) && other@.dom().contains(k)
                    ==> #[trigger] final(self)@[k] == other@[k],
    {
        let sub_op = |a: i64, b: i64| -> (r: i64)
            requires
                diff_fits(a, b),
            ensures
                r == a - b,
            { a - b };
        self.combine_with(other, sub_op);
    }
}

} // verus!
