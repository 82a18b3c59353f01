//! The demo plugin's data model and the package-duplication count it
//! reports: how many modules resolve to each (package name, version) pair,
//! and which package names appear under more than one version.

use vstd::prelude::*;

verus! {

/// Options of the demo plugin.
pub struct DemoPluginOptions {
    pub name: String,
}

/// The demo plugin: reports packages that appear under several versions.
pub struct DemoPlugin {
    pub options: DemoPluginOptions,
}

impl DemoPlugin {
    pub fn new(options: DemoPluginOptions) -> (r: DemoPlugin)
        ensures
            r.options == options,
    {
        DemoPlugin { options }
    }
}

/// The demo plugin options as they arrive over the binding layer.
pub struct RawDemoPluginOptions {
    pub name: String,
}

impl From<RawDemoPluginOptions> for DemoPluginOptions {
    fn from(options: RawDemoPluginOptions) -> (r: DemoPluginOptions) {
        DemoPluginOptions { name: options.name }
    }
}

impl vstd::std_specs::convert::FromSpecImpl<RawDemoPluginOptions> for DemoPluginOptions {
    open spec fn obeys_from_spec() -> bool {
        true
    }

    open spec fn from_spec(v: RawDemoPluginOptions) -> DemoPluginOptions {
        DemoPluginOptions { name: v.name }
    }
}

/// One (package name, version) pair and how many modules resolved to it.
pub struct PackageCount {
    pub name: String,
    pub version: String,
    pub count: u64,
}

/// The mapping a count list denotes: (name, version) to count.
pub open spec fn counts_map(s: Seq<PackageCount>) -> Map<(Seq<char>, Seq<char>), u64> {
    Map::new(
        |k: (Seq<char>, Seq<char>)|
            exists|i: int|
                0 <= i < s.len() && ((#[trigger] s[i]).name@, s[i].version@) == k,
        |k: (Seq<char>, Seq<char>)|
            s[choose|i: int|
                0 <= i < s.len() && ((#[trigger] s[i]).name@, s[i].version@) == k].count,
    )
}

/// No (name, version) pair occurs twice.
pub open spec fn counts_wf(s: Seq<PackageCount>) -> bool {
    forall|i: int, j: int|
        0 <= i < j < s.len() ==> ((#[trigger] s[i]).name@, s[i].version@) != ((
        #[trigger] s[j]).name@, s[j].version@)
}

/// In a well-formed count list, every entry speaks for its pair.
pub proof fn lemma_counts_map_entry(s: Seq<PackageCount>, i: int)
    requires
        counts_wf(s),
        0 <= i < s.len(),
    ensures
        counts_map(s).dom().contains((s[i].name@, s[i].version@)),
        counts_map(s)[(s[i].name@, s[i].version@)] == s[i].count,
{
    assert(0 <= i < s.len() && (s[i].name@, s[i].version@) == (s[i].name@, s[i].version@));
    let j = choose|j: int|
        0 <= j < s.len() && ((#[trigger] s[j]).name@, s[j].version@) == (
        s[i].name@,
        s[i].version@,
        );
    assert(j == i);
}

/// A count bumped by one, stopping at the largest representable value.
pub open spec fn bump(c: u64) -> u64 {
    if c < u64::MAX {
        (c + 1) as u64
    } else {
        c
    }
}

/// Counts how many modules resolve to each (package name, version) pair.
pub struct PackageVersionCounts {
    entries: Vec<PackageCount>,
}

impl PackageVersionCounts {
    /// The counts as a mapping from (name, version) to count.
    pub closed spec fn view(&self) -> Map<(Seq<char>, Seq<char>), u64> {
        counts_map(self.entries@)
    }

    pub closed spec fn wf(&self) -> bool {
        counts_wf(self.entries@)
    }

    pub fn new() -> (r: PackageVersionCounts)
        ensures
            r.wf(),
            r@ == Map::<(Seq<char>, Seq<char>), u64>::empty(),
    {
        let r = PackageVersionCounts { entries: Vec::new() };
        proof {
            assert(r@ =~= Map::<(Seq<char>, Seq<char>), u64>::empty());
        }
        r
    }

    fn find(&self, name: &str, version: &str) -> (r: Option<usize>)
        ensures
            match r {
                Some(i) => i < self.entries@.len() && self.entries@[i as int].name@ == name@
                    && self.entries@[i as int].version@ == version@,
                None => forall|j: int|
                    0 <= j < self.entries@.len() ==> ((#[trigger] self.entries@[j]).name@,
                    self.entries@[j].version@) != (name@, version@),
            },
    {
        let mut i: usize = 0;
        while i < self.entries.len()
            invariant
                0 <= i <= self.entries@.len(),
                forall|j: int|
                    0 <= j < i ==> ((#[trigger] self.entries@[j]).name@,
                    self.entries@[j].version@) != (name@, version@),
            decreases self.entries@.len() - i,
        {
            let e = &self.entries[i];
            if crate::filters::str_is(e.name.as_str(), name) && crate::filters::str_is(
                e.version.as_str(),
                version,
            ) {
                return Some(i);
            }
            i += 1;
        }
        None
    }

    /// Records one more module resolving to (name, version).
    pub fn record(&mut self, name: &str, version: &str)
        requires
            old(self).wf(),
        ensures
            final(self).wf(),
            final(self)@ == old(self)@.insert(
                (name@, version@),
                if old(self)@.dom().contains((name@, version@)) {
                    bump(old(self)@[(name@, version@)])
                } else {
                    1u64
                },
            ),
    {
        let ghost s0 = self.entries@;
        let ghost key = (name@, version@);
        match self.find(name, version) {
            Some(i) => {
                proof {
                    lemma_counts_map_entry(s0, i as int);
                }
                let old_count = self.entries[i].count;
                let new_count = if old_count < u64::MAX {
                    old_count + 1
                } else {
                    old_count
                };
                let e = PackageCount {
                    name: name.to_owned(),
                    version: version.to_owned(),
                    count: new_count,
                };
                self.entries.set(i, e);
                proof {
                    let s1 = self.entries@;
                    assert(entries_equal_keys(s0, s1, i as int));
                    assert(counts_wf(s1)) by {
                        assert forall|p: int, q: int| 0 <= p < q < s1.len() implies ((
                        #[trigger] s1[p]).name@, s1[p].version@) != ((#[trigger] s1[q]).name@,
                        s1[q].version@) by {
                            assert((s1[p].name@, s1[p].version@) == (s0[p].name@, s0[p].version@));
                            assert((s1[q].name@, s1[q].version@) == (s0[q].name@, s0[q].version@));
                        }
                    }
                    assert forall|k: (Seq<char>, Seq<char>)| true implies #[trigger] counts_map(
                        s1,
                    ).dom().contains(k) == old(self)@.insert(key, bump(old(self)@[key])).dom()
                        .contains(k) by {
                        if counts_map(s1).dom().contains(k) {
                            let j = choose|j: int|
                                0 <= j < s1.len() && ((#[trigger] s1[j]).name@, s1[j].version@)
                                    == k;
                            if j != i {
                                lemma_counts_map_entry(s0, j);
                            }
                        }
                        if old(self)@.insert(key, bump(old(self)@[key])).dom().contains(k) {
                            if k == key {
                                assert((s1[i as int].name@, s1[i as int].version@) == k);
                            } else {
                                let j = choose|j: int|
                                    0 <= j < s0.len() && ((#[trigger] s0[j]).name@,
                                    s0[j].version@) == k;
                                assert((s1[j].name@, s1[j].version@) == k);
                            }
                        }
                    }
                    assert forall|k: (Seq<char>, Seq<char>)| counts_map(s1).dom().contains(
                        k,
                    ) implies counts_map(s1)[k] == old(self)@.insert(
                        key,
                        bump(old(self)@[key]),
                    )[k] by {
                        if k == key {
                            lemma_counts_map_entry(s1, i as int);
                        } else {
                            let j = choose|j: int|
                                0 <= j < s1.len() && ((#[trigger] s1[j]).name@, s1[j].version@)
                                    == k;
                            assert(j != i);
                            assert((s0[j].name@, s0[j].version@) == k);
                            assert(s0[j] == s1[j]);
                            lemma_counts_map_entry(s0, j);
                            lemma_counts_map_entry(s1, j);
                        }
                    }
                    assert(counts_map(s1) =~= old(self)@.insert(key, bump(old(self)@[key])));
                }
            }
            None => {
                let e = PackageCount {
                    name: name.to_owned(),
                    version: version.to_owned(),
                    count: 1,
                };
                self.entries.push(e);
                proof {
                    let s1 = self.entries@;
                    assert(counts_wf(s1)) by {
                        assert forall|p: int, q: int| 0 <= p < q < s1.len() implies ((
                        #[trigger] s1[p]).name@, s1[p].version@) != ((#[trigger] s1[q]).name@,
                        s1[q].version@) by {
                            if q == s1.len() - 1 {
                                assert(s1[p] == s0[p]);
                            } else {
                                assert(s1[p] == s0[p]);
                                assert(s1[q] == s0[q]);
                            }
                        }
                    }
                    assert(!old(self)@.dom().contains(key)) by {
                        if old(self)@.dom().contains(key) {
                            let j = choose|j: int|
                                0 <= j < s0.len() && ((#[trigger] s0[j]).name@, s0[j].version@)
                                    == key;
                        }
                    }
                    assert forall|k: (Seq<char>, Seq<char>)| true implies #[trigger] counts_map(
                        s1,
                    ).dom().contains(k) == old(self)@.insert(key, 1u64).dom().contains(k) by {
                        if counts_map(s1).dom().contains(k) {
                            let j = choose|j: int|
                                0 <= j < s1.len() && ((#[trigger] s1[j]).name@, s1[j].version@)
                                    == k;
                            if j < s0.len() {
                                lemma_counts_map_entry(s0, j);
                            }
                        }
                        if old(self)@.insert(key, 1u64).dom().contains(k) {
                            if k == key {
                                assert((s1[s1.len() - 1].name@, s1[s1.len() - 1].version@) == k);
                            } else {
                                let j = choose|j: int|
                                    0 <= j < s0.len() && ((#[trigger] s0[j]).name@,
                                    s0[j].version@) == k;
                                assert((s1[j].name@, s1[j].version@) == k);
                            }
                        }
                    }
                    assert forall|k: (Seq<char>, Seq<char>)| counts_map(s1).dom().contains(
                        k,
                    ) implies counts_map(s1)[k] == old(self)@.insert(key, 1u64)[k] by {
                        if k == key {
                            lemma_counts_map_entry(s1, s1.len() - 1);
                        } else {
                            let j = choose|j: int|
                                0 <= j < s1.len() && ((#[trigger] s1[j]).name@, s1[j].version@)
                                    == k;
                            assert(j < s0.len());
                            lemma_counts_map_entry(s0, j);
                            lemma_counts_map_entry(s1, j);
                        }
                    }
                    assert(counts_map(s1) =~= old(self)@.insert(key, 1u64));
                }
            }
        }
    }

    /// Whether `name` was recorded under two different versions.
    pub open spec fn spec_has_duplicate(&self, name: Seq<char>) -> bool {
        exists|v1: Seq<char>, v2: Seq<char>|
            v1 != v2 && #[trigger] self@.dom().contains((name, v1)) && #[trigger] self@.dom()
                .contains((name, v2))
    }

    /// Whether the package was recorded under more than one version.
    pub fn has_duplicate_versions(&self, name: &str) -> (r: bool)
        requires
            self.wf(),
        ensures
            r == self.spec_has_duplicate(name@),
    {
        let mut found: Option<usize> = None;
        let mut i: usize = 0;
        while i < self.entries.len()
            invariant
                0 <= i <= self.entries@.len(),
                self.wf(),
                match found {
                    Some(f) => f < i && self.entries@[f as int].name@ == name@,
                    None => forall|j: int|
                        0 <= j < i ==> (#[trigger] self.entries@[j]).name@ != name@,
                },
                forall|j: int, k: int|
                    0 <= j < k < i && (#[trigger] self.entries@[j]).name@ == name@ && (
                    #[trigger] self.entries@[k]).name@ == name@ ==> self.entries@[j].version@
                        == self.entries@[k].version@,
            decreases self.entries@.len() - i,
        {
            let e = &self.entries[i];
            if crate::filters::str_is(e.name.as_str(), name) {
                match found {
                    Some(f) => {
                        if !crate::filters::str_is(
                            e.version.as_str(),
                            self.entries[f].version.as_str(),
                        ) {
                            proof {
                                lemma_counts_map_entry(self.entries@, f as int);
                                lemma_counts_map_entry(self.entries@, i as int);
                                let v1 = self.entries@[f as int].version@;
                                let v2 = self.entries@[i as int].version@;
                                assert(self@.dom().contains((name@, v1)));
                                assert(self@.dom().contains((name@, v2)));
                            }
                            return true;
                        }
                    }
                    None => {
                        found = Some(i);
                    }
                }
            }
            i += 1;
        }
        proof {
            if self.spec_has_duplicate(name@) {
                let (v1, v2) = choose|v1: Seq<char>, v2: Seq<char>|
                    v1 != v2 && #[trigger] self@.dom().contains((name@, v1)) && #[trigger] self@
                        .dom().contains((name@, v2));
                let j = choose|j: int|
                    0 <= j < self.entries@.len() && ((#[trigger] self.entries@[j]).name@,
                    self.entries@[j].version@) == (name@, v1);
                let k = choose|k: int|
                    0 <= k < self.entries@.len() && ((#[trigger] self.entries@[k]).name@,
                    self.entries@[k].version@) == (name@, v2);
                if j < k {
                    assert(self.entries@[j].version@ == self.entries@[k].version@);
                } else if k < j {
                    assert(self.entries@[k].version@ == self.entries@[j].version@);
                }
            }
        }
        false
    }
}

/// The entries agree on keys everywhere except possibly index `i`, where
/// they still agree on the key itself.
spec fn entries_equal_keys(s0: Seq<PackageCount>, s1: Seq<PackageCount>, i: int) -> bool {
    s0.len() == s1.len() && (forall|j: int|
        0 <= j < s0.len() ==> ((#[trigger] s0[j]).name@, s0[j].version@) == ((
        #[trigger] s1[j]).name@, s1[j].version@))
}

} // verus!
