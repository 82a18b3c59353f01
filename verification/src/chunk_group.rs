//! Chunk groups: the nodes of the load-order graph, their membership
//! operations and traversals.

use vstd::prelude::*;

use crate::chunk::Chunk;
use crate::chunk::ChunkByUkey;
use crate::options::{order_for_key, ChunkGroupOptions, ChunkGroupOrderKey, EntryOptions};
use vstd::string::StringExecFns;
use crate::ordered_set::{
    ordered_members, ordered_set_insert, ordered_set_new, ordered_set_to_vec,
};
use crate::ukey::UkeySet;
use crate::{ChunkGroupUkey, ChunkUkey};

verus! {

/// Why a chunk group was created, for diagnostics.
pub struct OriginRecord {
    pub module: Option<String>,
    pub loc: Option<String>,
    pub request: Option<String>,
}

/// The two kinds of chunk group: a top-level entry point, or a group made
/// by a dynamic import or by splitting.
#[allow(inconsistent_fields)]
pub enum ChunkGroupKind {
    Entrypoint { initial: bool, options: Box<EntryOptions> },
    Normal { options: ChunkGroupOptions },
}

impl ChunkGroupKind {
    pub fn new_entrypoint(initial: bool, options: Box<EntryOptions>) -> (r: ChunkGroupKind)
        ensures
            r == (ChunkGroupKind::Entrypoint { initial, options }),
    {
        ChunkGroupKind::Entrypoint { initial, options }
    }

    pub fn is_entrypoint(&self) -> (r: bool)
        ensures
            r == self is Entrypoint,
    {
        match self {
            ChunkGroupKind::Entrypoint { .. } => true,
            ChunkGroupKind::Normal { .. } => false,
        }
    }

    pub fn get_entry_options(&self) -> (r: Option<&EntryOptions>)
        ensures
            match r {
                Some(o) => self matches ChunkGroupKind::Entrypoint { options, .. } && **options
                    == *o,
                None => self is Normal,
            },
    {
        match self {
            ChunkGroupKind::Entrypoint { options, .. } => Some(options),
            ChunkGroupKind::Normal { .. } => None,
        }
    }

    pub fn get_normal_options(&self) -> (r: Option<&ChunkGroupOptions>)
        ensures
            match r {
                Some(o) => self matches ChunkGroupKind::Normal { options } && *options == *o,
                None => self is Entrypoint,
            },
    {
        match self {
            ChunkGroupKind::Entrypoint { .. } => None,
            ChunkGroupKind::Normal { options } => Some(options),
        }
    }

    /// The configured name of the group, whichever kind it is.
    pub fn name(&self) -> (r: Option<&str>)
        ensures
            match r {
                Some(s) => kind_name(self) == Some(s@),
                None => kind_name(self) is None,
            },
    {
        match self {
            ChunkGroupKind::Entrypoint { options, .. } => match &options.name {
                Some(s) => Some(s.as_str()),
                None => None,
            },
            ChunkGroupKind::Normal { options } => match &options.name {
                Some(s) => Some(s.as_str()),
                None => None,
            },
        }
    }
}

/// The name carried by a kind value, as a sequence of characters.
pub open spec fn kind_name(k: &ChunkGroupKind) -> Option<Seq<char>> {
    match k {
        ChunkGroupKind::Entrypoint { options, .. } => options.name.deep_view(),
        ChunkGroupKind::Normal { options } => options.name.deep_view(),
    }
}

// ---------------------------------------------------------------------------
// Spec-level transitions of the ordered chunk list.
// ---------------------------------------------------------------------------

/// The chunk list after making `c` the first element: an absent chunk is
/// inserted at the front, a present one is moved there in place.
pub open spec fn unshift_spec(s: Seq<u32>, c: u32) -> Seq<u32> {
    match s.index_of_first(c) {
        Some(i) => if i > 0 {
            s.remove(i).insert(0, c)
        } else {
            s
        },
        None => s.insert(0, c),
    }
}

/// The chunk list after guaranteeing that `c` appears immediately before
/// `b`: an absent `c` is inserted there, one sitting strictly after `b` is
/// moved there, and one already at or before `b`'s position stays put.
pub open spec fn insert_before_spec(s: Seq<u32>, c: u32, b: u32) -> Seq<u32>
    recommends
        s.contains(b),
{
    let ib = s.index_of_first(b).unwrap();
    match s.index_of_first(c) {
        Some(ic) => if ic > ib {
            s.remove(ic).insert(ib, c)
        } else {
            s
        },
        None => s.insert(ib, c),
    }
}

/// The chunk list after removing the first occurrence of `c`, if present.
pub open spec fn remove_chunk_spec(s: Seq<u32>, c: u32) -> Seq<u32> {
    match s.index_of_first(c) {
        Some(i) => s.remove(i),
        None => s,
    }
}

/// The chunk list after substituting `new_c` for `old_c`. When both are
/// present the two slots are reconciled into one: the earlier position
/// survives with the value `new_c`.
pub open spec fn replace_spec(s: Seq<u32>, old_c: u32, new_c: u32) -> Seq<u32> {
    match s.index_of_first(old_c) {
        None => s,
        Some(oi) => match s.index_of_first(new_c) {
            None => s.update(oi, new_c),
            Some(ni) => if ni < oi {
                s.remove(oi)
            } else if ni != oi {
                s.update(oi, new_c).remove(ni)
            } else {
                s
            },
        },
    }
}

/// Whether substituting `new_c` for `old_c` changes the chunk list.
pub open spec fn replace_changed(s: Seq<u32>, old_c: u32, new_c: u32) -> bool {
    match s.index_of_first(old_c) {
        None => false,
        Some(oi) => match s.index_of_first(new_c) {
            None => true,
            Some(ni) => ni != oi,
        },
    }
}

/// First position of `x` in `v`, reported against `index_of_first`.
fn position_of(v: &Vec<u32>, x: u32) -> (r: Option<usize>)
    ensures
        match r {
            Some(i) => v@.index_of_first(x) == Some(i as int),
            None => v@.index_of_first(x) is None,
        },
{
    let mut i: usize = 0;
    while i < v.len()
        invariant
            0 <= i <= v@.len(),
            forall|j: int| 0 <= j < i ==> v@[j] != x,
        decreases v@.len() - i,
    {
        if v[i] == x {
            proof {
                assert(v@.contains(x));
                v@.index_of_first_ensures(x);
                let k = v@.index_of_first(x).unwrap();
                assert(v@[k] == x);
                assert(k >= i);
                assert(k <= i) by {
                    if k > i {
                        assert(v@[i as int] == x);
                    }
                }
            }
            return Some(i);
        }
        i += 1;
    }
    proof {
        v@.index_of_first_ensures(x);
        if v@.contains(x) {
            let k = v@.index_of_first(x).unwrap();
            assert(v@[k] == x);
        }
    }
    None
}

/// A chunk group: an ordered set of chunks produced together for one
/// loading unit, with its position in the parent/child graph.
pub struct ChunkGroup {
    pub ukey: ChunkGroupUkey,
    pub kind: ChunkGroupKind,
    /// Load/evaluation order; the first chunk is evaluated first.
    /// Never holds the same chunk twice.
    pub chunks: Vec<ChunkUkey>,
    pub index: Option<u32>,
    pub parents: UkeySet,
    pub module_pre_order_indices: Vec<(String, usize)>,
    pub module_post_order_indices: Vec<(String, usize)>,
    /// Children, in the order the relationships were established.
    pub children: indexmap::IndexSet<u32>,
    pub async_entrypoints: UkeySet,
    pub next_pre_order_index: usize,
    pub next_post_order_index: usize,
    pub runtime_chunk: Option<ChunkUkey>,
    pub entrypoint_chunk: Option<ChunkUkey>,
    pub origins: Vec<OriginRecord>,
    pub is_over_size_limit: Option<bool>,
}

impl ChunkGroup {
    /// The basic shape every operation preserves: the chunk list holds no
    /// duplicates and the identifier sets are well formed.
    pub open spec fn wf(&self) -> bool {
        &&& self.chunks@.no_duplicates()
        &&& self.parents.wf()
        &&& self.async_entrypoints.wf()
    }

    pub fn new(ukey: ChunkGroupUkey, kind: ChunkGroupKind) -> (r: ChunkGroup)
        ensures
            r.ukey == ukey,
            r.kind == kind,
            r.chunks@ == Seq::<u32>::empty(),
            r.index is None,
            r.parents.seq_view() == Seq::<u32>::empty(),
            r.module_pre_order_indices@ == Seq::<(String, usize)>::empty(),
            r.module_post_order_indices@ == Seq::<(String, usize)>::empty(),
            ordered_members(&r.children) == Seq::<u32>::empty(),
            r.async_entrypoints.seq_view() == Seq::<u32>::empty(),
            r.next_pre_order_index == 0,
            r.next_post_order_index == 0,
            r.runtime_chunk is None,
            r.entrypoint_chunk is None,
            r.origins@ == Seq::<OriginRecord>::empty(),
            r.is_over_size_limit is None,
            r.wf(),
    {
        ChunkGroup {
            ukey,
            kind,
            chunks: Vec::new(),
            index: None,
            parents: UkeySet::new(),
            module_pre_order_indices: Vec::new(),
            module_post_order_indices: Vec::new(),
            children: ordered_set_new(),
            async_entrypoints: UkeySet::new(),
            next_pre_order_index: 0,
            next_post_order_index: 0,
            runtime_chunk: None,
            entrypoint_chunk: None,
            origins: Vec::new(),
            is_over_size_limit: None,
        }
    }

    /// The group's own identifier.
    pub fn ukey(&self) -> (r: ChunkGroupUkey)
        ensures
            r == self.ukey,
    {
        self.ukey
    }

    /// Whether this group is a synchronously loaded entry point.
    pub fn is_initial(&self) -> (r: bool)
        ensures
            r == (self.kind matches ChunkGroupKind::Entrypoint { initial: true, .. }),
    {
        match &self.kind {
            ChunkGroupKind::Entrypoint { initial, .. } => *initial,
            ChunkGroupKind::Normal { .. } => false,
        }
    }

    /// The configured name of the group.
    pub fn name(&self) -> (r: Option<&str>)
        ensures
            match r {
                Some(s) => kind_name(&self.kind) == Some(s@),
                None => kind_name(&self.kind) is None,
            },
    {
        self.kind.name()
    }

    /// Appends `chunk` to the list and records the reciprocal membership on
    /// the chunk. Callers must not connect the same chunk twice.
    pub fn connect_chunk(&mut self, chunk: &mut Chunk)
        requires
            !old(self).chunks@.contains(old(chunk).ukey),
            old(chunk).groups.wf(),
        ensures
            *final(self) == (ChunkGroup { chunks: final(self).chunks, ..*old(self) }),
            final(self).chunks@ == old(self).chunks@.push(old(chunk).ukey),
            old(self).chunks@.no_duplicates() ==> final(self).chunks@.no_duplicates(),
            final(chunk).groups.wf(),
            final(chunk).groups.set_view() == old(chunk).groups.set_view().insert(
                old(self).ukey,
            ),
            *final(chunk) == (Chunk { groups: final(chunk).groups, ..*old(chunk) }),
    {
        let u = chunk.ukey();
        self.chunks.push(u);
        chunk.add_group(self.ukey);
        proof {
            let s = old(self).chunks@;
            assert forall|i: int, j: int|
                0 <= i < j < s.push(u).len() && s.no_duplicates() implies s.push(u)[i] != s.push(
                u,
            )[j] by {
                if j == s.len() {
                    assert(s.push(u)[i] == s[i]);
                    if s[i] == u {
                        assert(s.contains(u));
                    }
                }
            }
        }
    }

    /// Makes `chunk` the first element of the list: moves it to the front
    /// when present, inserts it when absent. Returns whether the membership
    /// is new.
    pub fn unshift_chunk(&mut self, chunk: &mut Chunk) -> (newly: bool)
        ensures
            *final(self) == (ChunkGroup { chunks: final(self).chunks, ..*old(self) }),
            final(self).chunks@ == unshift_spec(old(self).chunks@, old(chunk).ukey),
            newly == !old(self).chunks@.contains(old(chunk).ukey),
            old(self).chunks@.no_duplicates() ==> final(self).chunks@.no_duplicates(),
            *final(chunk) == *old(chunk),
    {
        proof {
            old(self).chunks@.index_of_first_ensures(old(chunk).ukey);
        }
        let u = chunk.ukey();
        match position_of(&self.chunks, u) {
            Some(i) => {
                if i > 0 {
                    self.chunks.remove(i);
                    self.chunks.insert(0, u);
                }
                proof {
                    if old(self).chunks@.no_duplicates() {
                        lemma_unshift_no_duplicates(old(self).chunks@, u);
                    }
                }
                false
            }
            None => {
                self.chunks.insert(0, u);
                proof {
                    if old(self).chunks@.no_duplicates() {
                        lemma_unshift_no_duplicates(old(self).chunks@, u);
                    }
                }
                true
            }
        }
    }

    /// Guarantees that `chunk` appears immediately before `before`, which
    /// must already be present. Returns true only when a genuinely new
    /// membership was created.
    pub fn insert_chunk(&mut self, chunk: ChunkUkey, before: ChunkUkey) -> (newly: bool)
        requires
            old(self).chunks@.contains(before),
        ensures
            *final(self) == (ChunkGroup { chunks: final(self).chunks, ..*old(self) }),
            final(self).chunks@ == insert_before_spec(old(self).chunks@, chunk, before),
            newly == !old(self).chunks@.contains(chunk),
            old(self).chunks@.no_duplicates() ==> final(self).chunks@.no_duplicates(),
    {
        proof {
            old(self).chunks@.index_of_first_ensures(chunk);
            old(self).chunks@.index_of_first_ensures(before);
            if old(self).chunks@.no_duplicates() {
                lemma_insert_before_no_duplicates(old(self).chunks@, chunk, before);
            }
        }
        let old_idx = position_of(&self.chunks, chunk);
        let idx_opt = position_of(&self.chunks, before);
        match idx_opt {
            Some(idx) => {
                match old_idx {
                    Some(oi) => {
                        if oi > idx {
                            self.chunks.remove(oi);
                            self.chunks.insert(idx, chunk);
                        }
                        false
                    }
                    None => {
                        self.chunks.insert(idx, chunk);
                        true
                    }
                }
            }
            None => {
                proof {
                    assert(false);
                }
                false
            }
        }
    }

    /// Removes `chunk` if present; returns whether a removal occurred.
    pub fn remove_chunk(&mut self, chunk: &ChunkUkey) -> (removed: bool)
        ensures
            *final(self) == (ChunkGroup { chunks: final(self).chunks, ..*old(self) }),
            final(self).chunks@ == remove_chunk_spec(old(self).chunks@, *chunk),
            removed == old(self).chunks@.contains(*chunk),
            old(self).chunks@.no_duplicates() ==> final(self).chunks@.no_duplicates(),
    {
        proof {
            old(self).chunks@.index_of_first_ensures(*chunk);
            if old(self).chunks@.no_duplicates() {
                lemma_remove_no_duplicates(old(self).chunks@, *chunk);
            }
        }
        match position_of(&self.chunks, *chunk) {
            Some(i) => {
                self.chunks.remove(i);
                true
            }
            None => false,
        }
    }

    /// Substitutes `new_chunk` for `old_chunk` in the chunk list and in the
    /// runtime and entry-point chunk slots, keeping exactly one occurrence
    /// when both were present. Returns whether the list changed.
    pub fn replace_chunk(&mut self, old_chunk: &ChunkUkey, new_chunk: &ChunkUkey) -> (changed:
        bool)
        ensures
            *final(self) == (ChunkGroup {
                chunks: final(self).chunks,
                runtime_chunk: final(self).runtime_chunk,
                entrypoint_chunk: final(self).entrypoint_chunk,
                ..*old(self)
            }),
            final(self).runtime_chunk == if old(self).runtime_chunk == Some(*old_chunk) {
                Some(*new_chunk)
            } else {
                old(self).runtime_chunk
            },
            final(self).entrypoint_chunk == if old(self).entrypoint_chunk == Some(*old_chunk) {
                Some(*new_chunk)
            } else {
                old(self).entrypoint_chunk
            },
            final(self).chunks@ == replace_spec(old(self).chunks@, *old_chunk, *new_chunk),
            changed == replace_changed(old(self).chunks@, *old_chunk, *new_chunk),
            old(self).chunks@.no_duplicates() ==> final(self).chunks@.no_duplicates(),
    {
        proof {
            old(self).chunks@.index_of_first_ensures(*old_chunk);
            old(self).chunks@.index_of_first_ensures(*new_chunk);
            if old(self).chunks@.no_duplicates() {
                lemma_replace_no_duplicates(old(self).chunks@, *old_chunk, *new_chunk);
            }
        }
        if let Some(rc) = self.runtime_chunk {
            if rc == *old_chunk {
                self.runtime_chunk = Some(*new_chunk);
            }
        }
        if let Some(ec) = self.entrypoint_chunk {
            if ec == *old_chunk {
                self.entrypoint_chunk = Some(*new_chunk);
            }
        }
        match position_of(&self.chunks, *old_chunk) {
            None => false,
            Some(old_idx) => {
                match position_of(&self.chunks, *new_chunk) {
                    None => {
                        self.chunks.set(old_idx, *new_chunk);
                        true
                    }
                    Some(new_idx) => {
                        if new_idx < old_idx {
                            self.chunks.remove(old_idx);
                            true
                        } else if new_idx != old_idx {
                            self.chunks.set(old_idx, *new_chunk);
                            self.chunks.remove(new_idx);
                            true
                        } else {
                            false
                        }
                    }
                }
            }
        }
    }
}

// ---------------------------------------------------------------------------
// Shape lemmas for the transitions.
// ---------------------------------------------------------------------------

/// Moving or inserting a chunk at the front keeps the list duplicate-free.
pub proof fn lemma_unshift_no_duplicates(s: Seq<u32>, c: u32)
    requires
        s.no_duplicates(),
    ensures
        unshift_spec(s, c).no_duplicates(),
{
    s.index_of_first_ensures(c);
    match s.index_of_first(c) {
        Some(i) => {
            if i > 0 {
                let r0 = s.remove(i);
                s.remove_ensures(i);
                assert(r0.no_duplicates());
                assert(forall|j: int| 0 <= j < r0.len() ==> r0[j] != c) by {
                    assert forall|j: int| 0 <= j < r0.len() implies r0[j] != c by {
                        if j < i {
                            assert(r0[j] == s[j]);
                        } else {
                            assert(r0[j] == s[j + 1]);
                        }
                    }
                }
                let r = r0.insert(0, c);
                r0.insert_ensures(0, c);
                assert forall|p: int, q: int| 0 <= p < q < r.len() implies r[p] != r[q] by {
                    if p == 0 {
                        assert(r[0] == c);
                        assert(r[q] == r0[q - 1]);
                    } else {
                        assert(r[p] == r0[p - 1]);
                        assert(r[q] == r0[q - 1]);
                    }
                }
            }
        }
        None => {
            let r = s.insert(0, c);
            s.insert_ensures(0, c);
            assert forall|p: int, q: int| 0 <= p < q < r.len() implies r[p] != r[q] by {
                if p == 0 {
                    assert(r[0] == c);
                    assert(r[q] == s[q - 1]);
                    if s[q - 1] == c {
                        assert(s.contains(c));
                    }
                } else {
                    assert(r[p] == s[p - 1]);
                    assert(r[q] == s[q - 1]);
                }
            }
        }
    }
}

/// Placing a chunk before another keeps the list duplicate-free.
pub proof fn lemma_insert_before_no_duplicates(s: Seq<u32>, c: u32, b: u32)
    requires
        s.no_duplicates(),
        s.contains(b),
    ensures
        insert_before_spec(s, c, b).no_duplicates(),
{
    s.index_of_first_ensures(b);
    s.index_of_first_ensures(c);
    let ib = s.index_of_first(b).unwrap();
    match s.index_of_first(c) {
        Some(ic) => {
            if ic > ib {
                let r0 = s.remove(ic);
                s.remove_ensures(ic);
                assert(r0.no_duplicates());
                assert forall|j: int| 0 <= j < r0.len() implies r0[j] != c by {
                    if j < ic {
                        assert(r0[j] == s[j]);
                    } else {
                        assert(r0[j] == s[j + 1]);
                    }
                }
                let r = r0.insert(ib, c);
                r0.insert_ensures(ib, c);
                assert forall|p: int, q: int| 0 <= p < q < r.len() implies r[p] != r[q] by {
                    if p < ib {
                        assert(r[p] == r0[p]);
                    } else if p == ib {
                        assert(r[p] == c);
                    } else {
                        assert(r[p] == r0[p - 1]);
                    }
                    if q < ib {
                        assert(r[q] == r0[q]);
                    } else if q == ib {
                        assert(r[q] == c);
                    } else {
                        assert(r[q] == r0[q - 1]);
                    }
                }
            }
        }
        None => {
            let r = s.insert(ib, c);
            s.insert_ensures(ib, c);
            assert forall|p: int, q: int| 0 <= p < q < r.len() implies r[p] != r[q] by {
                if p < ib {
                    assert(r[p] == s[p]);
                } else if p == ib {
                    assert(r[p] == c);
                } else {
                    assert(r[p] == s[p - 1]);
                }
                if q < ib {
                    assert(r[q] == s[q]);
                } else if q == ib {
                    assert(r[q] == c);
                } else {
                    assert(r[q] == s[q - 1]);
                }
                if r[p] == c && p != ib {
                    assert(s.contains(c));
                }
                if r[q] == c && q != ib {
                    assert(s.contains(c));
                }
            }
        }
    }
}

/// Removing a chunk keeps the list duplicate-free.
pub proof fn lemma_remove_no_duplicates(s: Seq<u32>, c: u32)
    requires
        s.no_duplicates(),
    ensures
        remove_chunk_spec(s, c).no_duplicates(),
{
    s.index_of_first_ensures(c);
    match s.index_of_first(c) {
        Some(i) => {
            s.remove_ensures(i);
            let r = s.remove(i);
            assert forall|p: int, q: int| 0 <= p < q < r.len() implies r[p] != r[q] by {
                if p < i {
                    assert(r[p] == s[p]);
                } else {
                    assert(r[p] == s[p + 1]);
                }
                if q < i {
                    assert(r[q] == s[q]);
                } else {
                    assert(r[q] == s[q + 1]);
                }
            }
        }
        None => {}
    }
}

/// Substituting one chunk for another keeps the list duplicate-free.
pub proof fn lemma_replace_no_duplicates(s: Seq<u32>, old_c: u32, new_c: u32)
    requires
        s.no_duplicates(),
    ensures
        replace_spec(s, old_c, new_c).no_duplicates(),
{
    s.index_of_first_ensures(old_c);
    s.index_of_first_ensures(new_c);
    match s.index_of_first(old_c) {
        None => {}
        Some(oi) => {
            match s.index_of_first(new_c) {
                None => {
                    let r = s.update(oi, new_c);
                    assert forall|p: int, q: int| 0 <= p < q < r.len() implies r[p] != r[q] by {
                        if r[p] == new_c && p != oi {
                            assert(s.contains(new_c));
                        }
                        if r[q] == new_c && q != oi {
                            assert(s.contains(new_c));
                        }
                    }
                }
                Some(ni) => {
                    if ni < oi {
                        lemma_remove_no_duplicates(s, old_c);
                        assert(s.remove(oi) == remove_chunk_spec(s, old_c));
                    } else if ni != oi {
                        let r0 = s.update(oi, new_c);
                        assert forall|p: int, q: int|
                            0 <= p < q < r0.len() && !(p == ni || q == ni) implies r0[p]
                            != r0[q] by {
                            if r0[p] == new_c && p != oi && p != ni {
                                assert(s[p] == new_c);
                            }
                            if r0[q] == new_c && q != oi && q != ni {
                                assert(s[q] == new_c);
                            }
                        }
                        let r = r0.remove(ni);
                        r0.remove_ensures(ni);
                        assert forall|p: int, q: int| 0 <= p < q < r.len() implies r[p] != r[q] by {
                            let p0 = if p < ni {
                                p
                            } else {
                                p + 1
                            };
                            let q0 = if q < ni {
                                q
                            } else {
                                q + 1
                            };
                            assert(r[p] == r0[p0]);
                            assert(r[q] == r0[q0]);
                        }
                    }
                }
            }
        }
    }
}


// ---------------------------------------------------------------------------
// Relationship bookkeeping.
// ---------------------------------------------------------------------------

/// First value for `key` in an association list, scanned front to back.
pub open spec fn index_lookup(s: Seq<(Seq<char>, usize)>, key: Seq<char>) -> Option<usize>
    decreases s.len(),
{
    if s.len() == 0 {
        None
    } else if s[0].0 == key {
        Some(s[0].1)
    } else {
        index_lookup(s.drop_first(), key)
    }
}

fn lookup_index(entries: &Vec<(String, usize)>, key: &String) -> (r: Option<usize>)
    ensures
        r == index_lookup(entries.deep_view(), key@),
{
    let ghost full = entries.deep_view();
    proof {
        assert(full.skip(0) =~= full);
    }
    let mut i: usize = 0;
    while i < entries.len()
        invariant
            0 <= i <= entries@.len(),
            full == entries.deep_view(),
            full.len() == entries@.len(),
            forall|j: int| 0 <= j < entries@.len() ==> full[j] == entries@[j].deep_view(),
            index_lookup(full.skip(i as int), key@) == index_lookup(full, key@),
        decreases entries@.len() - i,
    {
        let e = &entries[i];
        proof {
            assert(full.skip(i as int)[0] == full[i as int]);
            assert(full.skip(i as int).drop_first() =~= full.skip(i as int + 1));
        }
        if e.0.eq(key) {
            return Some(e.1);
        }
        i += 1;
    }
    proof {
        assert(full.skip(i as int) =~= Seq::<(Seq<char>, usize)>::empty());
    }
    None
}

impl ChunkGroup {
    /// The parents, in the order the relationships were recorded.
    pub fn parents_iterable(&self) -> (r: Vec<u32>)
        ensures
            r@ == self.parents.seq_view(),
    {
        self.parents.to_vec()
    }

    /// The children, in the order the relationships were recorded.
    pub fn children_iterable(&self) -> (r: Vec<u32>)
        ensures
            r@ == ordered_members(&self.children),
    {
        ordered_set_to_vec(&self.children)
    }

    /// The asynchronous entry points nested under this group.
    pub fn async_entrypoints_iterable(&self) -> (r: Vec<u32>)
        ensures
            r@ == self.async_entrypoints.seq_view(),
    {
        self.async_entrypoints.to_vec()
    }

    /// Records `child_group` as a child; returns whether the relationship
    /// is new. The caller keeps parent/child symmetric by also calling
    /// [`ChunkGroup::add_parent`] on the child.
    pub fn add_child(&mut self, child_group: ChunkGroupUkey) -> (newly: bool)
        ensures
            *final(self) == (ChunkGroup { children: final(self).children, ..*old(self) }),
            newly == !ordered_members(&old(self).children).contains(child_group),
            ordered_members(&final(self).children) == if ordered_members(
                &old(self).children,
            ).contains(child_group) {
                ordered_members(&old(self).children)
            } else {
                ordered_members(&old(self).children).push(child_group)
            },
    {
        ordered_set_insert(&mut self.children, child_group)
    }

    /// Records `parent_group` as a parent; returns whether the relationship
    /// is new.
    pub fn add_parent(&mut self, parent_group: ChunkGroupUkey) -> (newly: bool)
        requires
            old(self).parents.wf(),
        ensures
            *final(self) == (ChunkGroup { parents: final(self).parents, ..*old(self) }),
            final(self).parents.wf(),
            newly == !old(self).parents.set_view().contains(parent_group),
            final(self).parents.set_view() == old(self).parents.set_view().insert(parent_group),
            final(self).parents.seq_view() == if old(self).parents.set_view().contains(
                parent_group,
            ) {
                old(self).parents.seq_view()
            } else {
                old(self).parents.seq_view().push(parent_group)
            },
    {
        self.parents.insert(parent_group)
    }

    /// Records a nested asynchronous entry point; returns whether it is new.
    pub fn add_async_entrypoint(&mut self, async_entrypoint: ChunkGroupUkey) -> (newly: bool)
        requires
            old(self).async_entrypoints.wf(),
        ensures
            *final(self) == (ChunkGroup {
                async_entrypoints: final(self).async_entrypoints,
                ..*old(self)
            }),
            final(self).async_entrypoints.wf(),
            newly == !old(self).async_entrypoints.set_view().contains(async_entrypoint),
            final(self).async_entrypoints.set_view() == old(
                self,
            ).async_entrypoints.set_view().insert(async_entrypoint),
    {
        self.async_entrypoints.insert(async_entrypoint)
    }

    /// Appends a record of why this group was created.
    pub fn add_origin(&mut self, module_id: Option<String>, loc: Option<String>, request: Option<
        String,
    >)
        ensures
            *final(self) == (ChunkGroup { origins: final(self).origins, ..*old(self) }),
            final(self).origins@ == old(self).origins@.push(
                (OriginRecord { module: module_id, loc, request }),
            ),
    {
        self.origins.push(OriginRecord { module: module_id, loc, request });
    }

    /// The records of why this group was created, in order.
    pub fn origins(&self) -> (r: &Vec<OriginRecord>)
        ensures
            r@ == self.origins@,
    {
        &self.origins
    }

    pub fn set_runtime_chunk(&mut self, chunk_ukey: ChunkUkey)
        ensures
            *final(self) == (ChunkGroup { runtime_chunk: Some(chunk_ukey), ..*old(self) }),
    {
        self.runtime_chunk = Some(chunk_ukey);
    }

    pub fn set_entrypoint_chunk(&mut self, chunk_ukey: ChunkUkey)
        ensures
            *final(self) == (ChunkGroup { entrypoint_chunk: Some(chunk_ukey), ..*old(self) }),
    {
        self.entrypoint_chunk = Some(chunk_ukey);
    }

    /// The chunk carrying this entry point's runtime, which the assignment
    /// pass must have set. Only entry points may ask.
    pub fn get_entrypoint_chunk(&self) -> (r: ChunkUkey)
        requires
            self.kind is Entrypoint,
            self.entrypoint_chunk is Some,
        ensures
            Some(r) == self.entrypoint_chunk,
    {
        match self.entrypoint_chunk {
            Some(c) => c,
            None => {
                proof {
                    assert(false);
                }
                0
            }
        }
    }

    /// Caches the verdict of the size-limit check pass.
    pub fn set_is_over_size_limit(&mut self, v: bool)
        ensures
            *final(self) == (ChunkGroup { is_over_size_limit: Some(v), ..*old(self) }),
    {
        self.is_over_size_limit = Some(v);
    }

    /// Position of the module's first visit in a pre-order traversal rooted
    /// here; absent when the module was hoisted into another group.
    pub fn module_pre_order_index(&self, module_identifier: &String) -> (r: Option<usize>)
        ensures
            r == index_lookup(self.module_pre_order_indices.deep_view(), module_identifier@),
    {
        lookup_index(&self.module_pre_order_indices, module_identifier)
    }

    /// Position of the module's first visit in a post-order traversal rooted
    /// here; absent when the module was hoisted into another group.
    pub fn module_post_order_index(&self, module_identifier: &String) -> (r: Option<usize>)
        ensures
            r == index_lookup(self.module_post_order_indices.deep_view(), module_identifier@),
    {
        lookup_index(&self.module_post_order_indices, module_identifier)
    }
}

// ---------------------------------------------------------------------------
// Laws relating the chunk-list operations.
// ---------------------------------------------------------------------------

/// Making a chunk the first element is idempotent: afterwards the chunk
/// stands at the front, and doing it again changes nothing and would
/// report no new membership (the list already contains the chunk).
pub proof fn lemma_unshift_idempotent(s: Seq<u32>, c: u32)
    ensures
        unshift_spec(s, c).len() > 0,
        unshift_spec(s, c)[0] == c,
        unshift_spec(s, c).contains(c),
        unshift_spec(unshift_spec(s, c), c) == unshift_spec(s, c),
{
    s.index_of_first_ensures(c);
    let r = unshift_spec(s, c);
    match s.index_of_first(c) {
        Some(i) => {
            if i > 0 {
                s.remove_ensures(i);
                s.remove(i).insert_ensures(0, c);
            }
        }
        None => {
            s.insert_ensures(0, c);
        }
    }
    assert(r[0] == c);
    assert(r.contains(c));
    r.index_of_first_ensures(c);
    let k = r.index_of_first(c).unwrap();
    assert(k == 0) by {
        if k > 0 {
            assert(r[0] == c);
        }
    }
    assert(unshift_spec(r, c) == r);
}

/// Guaranteeing that `c` stands immediately before `b` and then removing
/// `b` leaves `c` at the position just before where `b` stood. This holds
/// whenever the insertion actually places `c` before `b`: `c` must differ
/// from `b` and must not already sit at or before `b`'s position.
pub proof fn lemma_insert_then_remove_marker(s: Seq<u32>, c: u32, b: u32)
    requires
        s.contains(b),
        c != b,
        s.index_of_first(c) is None || s.index_of_first(c).unwrap() > s.index_of_first(
            b,
        ).unwrap(),
    ensures
        ({
            let s1 = insert_before_spec(s, c, b);
            let ib1 = s1.index_of_first(b).unwrap();
            &&& s1.contains(b)
            &&& 1 <= ib1 < s1.len()
            &&& s1[ib1 - 1] == c
            &&& remove_chunk_spec(s1, b)[ib1 - 1] == c
        }),
{
    s.index_of_first_ensures(b);
    s.index_of_first_ensures(c);
    let ib = s.index_of_first(b).unwrap();
    let s1 = insert_before_spec(s, c, b);
    match s.index_of_first(c) {
        Some(ic) => {
            let r0 = s.remove(ic);
            s.remove_ensures(ic);
            assert(forall|j: int| 0 <= j <= ib ==> r0[j] == s[j]);
            r0.insert_ensures(ib, c);
            assert(s1[ib] == c);
            assert(s1[ib + 1] == r0[ib]);
            assert(s1[ib + 1] == b);
            assert(forall|j: int| 0 <= j < ib ==> s1[j] == s[j]);
        }
        None => {
            s.insert_ensures(ib, c);
            assert(s1[ib] == c);
            assert(s1[ib + 1] == b);
            assert(forall|j: int| 0 <= j < ib ==> s1[j] == s[j]);
        }
    }
    assert(s1.len() > ib + 1);
    assert(s1.contains(b)) by {
        assert(s1[ib + 1] == b);
    }
    s1.index_of_first_ensures(b);
    let ib1 = s1.index_of_first(b).unwrap();
    assert(ib1 <= ib + 1);
    assert(ib1 >= ib + 1) by {
        if ib1 < ib + 1 {
            if ib1 < ib {
                assert(s1[ib1] == s[ib1]);
                assert(s[ib1] != b);
            } else {
                assert(s1[ib] == c);
            }
        }
    }
    assert(s1[ib1 - 1] == c);
    s1.remove_ensures(ib1);
    assert(remove_chunk_spec(s1, b) == s1.remove(ib1));
    assert(s1.remove(ib1)[ib1 - 1] == s1[ib1 - 1]);
}

/// Replacing a chunk that is absent changes nothing and reports no change.
pub proof fn lemma_replace_absent(s: Seq<u32>, old_c: u32, new_c: u32)
    requires
        !s.contains(old_c),
        !s.contains(new_c),
    ensures
        replace_spec(s, old_c, new_c) == s,
        !replace_changed(s, old_c, new_c),
{
    s.index_of_first_ensures(old_c);
}

/// When both chunks are present and the replacement stands earlier, the
/// list shrinks by one and the replacement keeps its earlier position.
pub proof fn lemma_replace_keeps_earlier_position(s: Seq<u32>, old_c: u32, new_c: u32)
    requires
        s.contains(old_c),
        s.contains(new_c),
        s.index_of_first(new_c).unwrap() < s.index_of_first(old_c).unwrap(),
    ensures
        replace_spec(s, old_c, new_c).len() == s.len() - 1,
        replace_spec(s, old_c, new_c)[s.index_of_first(new_c).unwrap()] == new_c,
        replace_changed(s, old_c, new_c),
{
    s.index_of_first_ensures(old_c);
    s.index_of_first_ensures(new_c);
    let oi = s.index_of_first(old_c).unwrap();
    let ni = s.index_of_first(new_c).unwrap();
    s.remove_ensures(oi);
    assert(s.remove(oi)[ni] == s[ni]);
}


// ---------------------------------------------------------------------------
// The registry and the traversals over it.
// ---------------------------------------------------------------------------

/// The registry ("arena") resolving chunk-group identifiers. Identifiers
/// are assigned at registration, in order, and never reused.
pub struct ChunkGroupByUkey {
    groups: Vec<ChunkGroup>,
}

impl ChunkGroupByUkey {
    pub closed spec fn view(&self) -> Seq<ChunkGroup> {
        self.groups@
    }

    /// Every registered group sits at the index its identifier names.
    pub open spec fn wf(&self) -> bool {
        forall|i: int| 0 <= i < self@.len() ==> #[trigger] self@[i].ukey == i
    }

    /// Every parent reference anywhere in the registry resolves.
    pub open spec fn parents_closed(&self) -> bool {
        forall|i: int, j: int|
            0 <= i < self@.len() && 0 <= j < self@[i].parents.seq_view().len()
                ==> #[trigger] self@[i].parents.seq_view()[j] < self@.len()
    }

    pub fn new() -> (r: ChunkGroupByUkey)
        ensures
            r@ == Seq::<ChunkGroup>::empty(),
            r.wf(),
    {
        ChunkGroupByUkey { groups: Vec::new() }
    }

    pub fn len(&self) -> (n: usize)
        ensures
            n == self@.len(),
    {
        self.groups.len()
    }

    /// The identifier the next registered group will receive.
    pub fn next_ukey(&self) -> (u: ChunkGroupUkey)
        requires
            self@.len() < u32::MAX,
        ensures
            u == self@.len(),
    {
        self.groups.len() as u32
    }

    /// Registers a group under the next free identifier.
    pub fn add(&mut self, group: ChunkGroup) -> (u: ChunkGroupUkey)
        requires
            old(self).wf(),
            old(self)@.len() < u32::MAX,
            group.ukey == old(self)@.len(),
        ensures
            final(self).wf(),
            u == group.ukey,
            final(self)@ == old(self)@.push(group),
    {
        let u = group.ukey;
        self.groups.push(group);
        u
    }

    pub fn get(&self, ukey: ChunkGroupUkey) -> (r: Option<&ChunkGroup>)
        ensures
            match r {
                Some(g) => ukey < self@.len() && *g == self@[ukey as int],
                None => ukey >= self@.len(),
            },
    {
        if (ukey as usize) < self.groups.len() {
            Some(&self.groups[ukey as usize])
        } else {
            None
        }
    }

    /// Resolves an identifier that an intact graph guarantees to be present.
    pub fn expect_get(&self, ukey: ChunkGroupUkey) -> (r: &ChunkGroup)
        requires
            ukey < self@.len(),
        ensures
            *r == self@[ukey as int],
    {
        &self.groups[ukey as usize]
    }
}

/// `b` is a parent of `a` in the registry.
pub open spec fn parent_step(reg: Seq<ChunkGroup>, a: u32, b: u32) -> bool {
    a < reg.len() && reg[a as int].parents.set_view().contains(b)
}

/// A walk that starts at one of the seed groups and follows parent links.
pub open spec fn is_ancestor_path(reg: Seq<ChunkGroup>, seeds: Set<u32>, p: Seq<u32>) -> bool {
    &&& p.len() > 0
    &&& seeds.contains(p[0])
    &&& forall|i: int| 0 <= i < p.len() - 1 ==> #[trigger] parent_step(reg, p[i], p[i + 1])
}

/// Whether `g` can be reached from the seeds by following parent links.
pub open spec fn reachable_from(reg: Seq<ChunkGroup>, seeds: Set<u32>, g: u32) -> bool {
    exists|p: Seq<u32>| is_ancestor_path(reg, seeds, p) && p.last() == g
}

/// A set that holds the seeds and is closed under parent steps holds
/// everything reachable from the seeds.
pub proof fn lemma_path_in_closed_set(
    reg: Seq<ChunkGroup>,
    seeds: Set<u32>,
    s: Set<u32>,
    p: Seq<u32>,
)
    requires
        is_ancestor_path(reg, seeds, p),
        forall|x: u32| seeds.contains(x) ==> s.contains(x),
        forall|a: u32, b: u32| s.contains(a) && parent_step(reg, a, b) ==> s.contains(b),
    ensures
        s.contains(p.last()),
    decreases p.len(),
{
    if p.len() == 1 {
        assert(s.contains(p[0]));
    } else {
        let q = p.drop_last();
        assert(is_ancestor_path(reg, seeds, q)) by {
            assert(q[0] == p[0]);
            assert forall|i: int| 0 <= i < q.len() - 1 implies #[trigger] parent_step(reg, q[i], q[i + 1]) by {
                assert(q[i] == p[i]);
                assert(q[i + 1] == p[i + 1]);
            }
        }
        lemma_path_in_closed_set(reg, seeds, s, q);
        let k = p.len() - 2;
        assert(parent_step(reg, p[k], p[k + 1]));
        assert(q.last() == p[k]);
        assert(s.contains(p[k]));
    }
}

/// How many entries of a boolean sequence are set.
pub open spec fn count_true(s: Seq<bool>) -> int
    decreases s.len(),
{
    if s.len() == 0 {
        0
    } else {
        count_true(s.drop_last()) + if s.last() {
            1int
        } else {
            0int
        }
    }
}

proof fn lemma_count_true_le(s: Seq<bool>)
    ensures
        0 <= count_true(s) <= s.len(),
    decreases s.len(),
{
    if s.len() > 0 {
        lemma_count_true_le(s.drop_last());
    }
}

proof fn lemma_count_true_zero(s: Seq<bool>)
    requires
        forall|j: int| 0 <= j < s.len() ==> !s[j],
    ensures
        count_true(s) == 0,
    decreases s.len(),
{
    if s.len() > 0 {
        lemma_count_true_zero(s.drop_last());
    }
}

proof fn lemma_count_true_update(s: Seq<bool>, i: int)
    requires
        0 <= i < s.len(),
        !s[i],
    ensures
        count_true(s.update(i, true)) == count_true(s) + 1,
    decreases s.len(),
{
    let u = s.update(i, true);
    if i == s.len() - 1 {
        assert(u.drop_last() =~= s.drop_last());
    } else {
        assert(u.drop_last() =~= s.drop_last().update(i, true));
        lemma_count_true_update(s.drop_last(), i);
    }
}

impl ChunkGroup {
    /// All strict ancestors of this group: every group reachable from its
    /// parents by following parent links. The traversal is iterative and
    /// revisit-safe, so it terminates even on graphs with back-edges.
    pub fn ancestors(&self, chunk_group_by_ukey: &ChunkGroupByUkey) -> (r: UkeySet)
        requires
            chunk_group_by_ukey.parents_closed(),
            forall|j: int|
                0 <= j < self.parents.seq_view().len() ==> self.parents.seq_view()[j]
                    < chunk_group_by_ukey@.len(),
        ensures
            r.wf(),
            forall|g: u32|
                #[trigger] r.set_view().contains(g) <==> reachable_from(
                    chunk_group_by_ukey@,
                    self.parents.set_view(),
                    g,
                ),
    {
        let ghost regv = chunk_group_by_ukey@;
        let ghost seeds = self.parents.set_view();
        proof {
            self.parents.lemma_views_agree();
        }
        let n = chunk_group_by_ukey.len();
        let mut seen: Vec<bool> = Vec::new();
        while seen.len() < n
            invariant
                seen@.len() <= n,
                forall|j: int| 0 <= j < seen@.len() ==> !seen@[j],
            decreases n - seen@.len(),
        {
            seen.push(false);
        }
        proof {
            lemma_count_true_zero(seen@);
        }
        let mut seen_count: usize = 0;
        let mut result = UkeySet::new();
        let mut queue: Vec<u32> = self.parents.to_vec();
        proof {
            assert forall|j: int| 0 <= j < queue@.len() implies reachable_from(
                regv,
                seeds,
                queue@[j],
            ) by {
                let p = seq![queue@[j]];
                assert(seeds.contains(p[0]));
                assert(is_ancestor_path(regv, seeds, p));
                assert(p.last() == queue@[j]);
            }
        }
        while queue.len() > 0
            invariant
                n == regv.len(),
                regv == chunk_group_by_ukey@,
                chunk_group_by_ukey.parents_closed(),
                seeds == self.parents.set_view(),
                seen@.len() == n,
                seen_count == count_true(seen@),
                0 <= count_true(seen@) <= n,
                result.wf(),
                forall|g: u32|
                    #[trigger] result.set_view().contains(g) <==> (g < n && seen@[g as int]),
                forall|j: int| 0 <= j < queue@.len() ==> queue@[j] < n,
                forall|g: u32| g < n && seen@[g as int] ==> reachable_from(regv, seeds, g),
                forall|j: int|
                    0 <= j < queue@.len() ==> reachable_from(regv, seeds, #[trigger] queue@[j]),
                forall|x: u32|
                    #[trigger] seeds.contains(x) ==> (x < n && seen@[x as int])
                        || queue@.contains(x),
                forall|a: u32, b: u32|
                    a < n && seen@[a as int] && #[trigger] regv[a as int].parents.set_view()
                        .contains(b) ==> (b < n && seen@[b as int]) || queue@.contains(b),
            decreases n - seen_count, queue@.len(),
        {
            let ghost queue0 = queue@;
            let g = match queue.pop() {
                Some(g) => g,
                None => {
                    proof {
                        assert(false);
                    }
                    0
                }
            };
            let ghost queue1 = queue@;
            proof {
                assert(queue0.drop_last() =~= queue1);
                assert(queue0[queue0.len() - 1] == g);
                assert forall|x: u32| queue0.contains(x) && x != g implies queue1.contains(
                    x,
                ) by {
                    let j = choose|j: int| 0 <= j < queue0.len() && queue0[j] == x;
                    assert(j < queue0.len() - 1);
                    assert(queue1[j] == x);
                }
                assert forall|x: u32| queue1.contains(x) implies queue0.contains(x) by {
                    let j = choose|j: int| 0 <= j < queue1.len() && queue1[j] == x;
                    assert(queue0[j] == x);
                }
            }
            if !seen[g as usize] {
                proof {
                    lemma_count_true_update(seen@, g as int);
                }
                seen.set(g as usize, true);
                proof {
                    lemma_count_true_le(seen@);
                }
                seen_count += 1;
                result.insert(g);
                let group = chunk_group_by_ukey.expect_get(g);
                let parent_vec = group.parents.to_vec();
                proof {
                    regv[g as int].parents.lemma_views_agree();
                    assert forall|j: int| 0 <= j < parent_vec@.len() implies parent_vec@[j]
                        < n by {
                        assert(regv[g as int].parents.seq_view()[j] < regv.len());
                    }
                    assert forall|j: int| 0 <= j < parent_vec@.len() implies reachable_from(
                        regv,
                        seeds,
                        #[trigger] parent_vec@[j],
                    ) by {
                        let p0 = choose|p0: Seq<u32>|
                            is_ancestor_path(regv, seeds, p0) && p0.last() == g;
                        let p1 = p0.push(parent_vec@[j]);
                        assert(regv[g as int].parents.set_view().contains(parent_vec@[j]));
                        assert(parent_step(regv, g, parent_vec@[j]));
                        assert(is_ancestor_path(regv, seeds, p1)) by {
                            assert(p1[0] == p0[0]);
                            assert forall|i: int| 0 <= i < p1.len() - 1 implies #[trigger] parent_step(
                                regv,
                                p1[i],
                                p1[i + 1],
                            ) by {
                                if i < p0.len() - 1 {
                                    assert(p1[i] == p0[i]);
                                    assert(p1[i + 1] == p0[i + 1]);
                                } else {
                                    assert(p1[i] == p0.last());
                                    assert(p1[i + 1] == parent_vec@[j]);
                                }
                            }
                        }
                        assert(p1.last() == parent_vec@[j]);
                    }
                }
                let mut k: usize = 0;
                while k < parent_vec.len()
                    invariant
                        0 <= k <= parent_vec@.len(),
                        queue@ == queue1 + parent_vec@.subrange(0, k as int),
                        forall|j: int| 0 <= j < queue1.len() ==> queue1[j] < n,
                        forall|j: int| 0 <= j < parent_vec@.len() ==> parent_vec@[j] < n,
                        forall|j: int|
                            0 <= j < queue1.len() ==> reachable_from(
                                regv,
                                seeds,
                                #[trigger] queue1[j],
                            ),
                        forall|j: int|
                            0 <= j < parent_vec@.len() ==> reachable_from(
                                regv,
                                seeds,
                                #[trigger] parent_vec@[j],
                            ),
                    decreases parent_vec@.len() - k,
                {
                    proof {
                        assert(queue@.push(parent_vec@[k as int]) =~= queue1
                            + parent_vec@.subrange(0, k as int + 1));
                    }
                    queue.push(parent_vec[k]);
                    k += 1;
                }
                proof {
                    assert(queue@ =~= queue1 + parent_vec@);
                    assert forall|x: u32| queue1.contains(x) implies queue@.contains(x) by {
                        let j = choose|j: int| 0 <= j < queue1.len() && queue1[j] == x;
                        assert(queue@[j] == x);
                    }
                    assert forall|x: u32| parent_vec@.contains(x) implies queue@.contains(x) by {
                        let j = choose|j: int|
                            0 <= j < parent_vec@.len() && parent_vec@[j] == x;
                        assert(queue@[queue1.len() + j] == x);
                    }
                }
            }
        }
        proof {
            let ghost s = Set::new(|x: u32| x < n && seen@[x as int]);
            assert forall|g: u32| reachable_from(regv, seeds, g) implies result.set_view()
                .contains(g) by {
                let p = choose|p: Seq<u32>|
                    is_ancestor_path(regv, seeds, p) && p.last() == g;
                assert forall|a: u32, b: u32|
                    s.contains(a) && parent_step(regv, a, b) implies s.contains(b) by {
                    regv[a as int].parents.lemma_views_agree();
                    let j = choose|j: int|
                        0 <= j < regv[a as int].parents.seq_view().len() && regv[
                            a as int
                        ].parents.seq_view()[j] == b;
                    assert(regv[a as int].parents.set_view().contains(b));
                }
                lemma_path_in_closed_set(regv, seeds, s, p);
            }
        }
        result
    }
}


/// The first parent in recorded order that is itself an entry point.
pub open spec fn first_entrypoint_parent(reg: Seq<ChunkGroup>, ps: Seq<u32>) -> Option<u32>
    decreases ps.len(),
{
    if ps.len() == 0 {
        None
    } else if ps[0] < reg.len() && reg[ps[0] as int].kind is Entrypoint {
        Some(ps[0])
    } else {
        first_entrypoint_parent(reg, ps.drop_first())
    }
}

proof fn lemma_first_entrypoint_parent_valid(reg: Seq<ChunkGroup>, ps: Seq<u32>)
    ensures
        match first_entrypoint_parent(reg, ps) {
            Some(p) => p < reg.len() && reg[p as int].kind is Entrypoint,
            None => true,
        },
    decreases ps.len(),
{
    if ps.len() > 0 && !(ps[0] < reg.len() && reg[ps[0] as int].kind is Entrypoint) {
        lemma_first_entrypoint_parent_valid(reg, ps.drop_first());
    }
}

/// The runtime chunk found by walking from `gid` to the first entry-point
/// parent, repeatedly, until a group with a runtime chunk is met. `None`
/// when the walk runs out of fuel, leaves the registry, or dead-ends.
pub open spec fn resolve_runtime(reg: Seq<ChunkGroup>, gid: u32, fuel: nat) -> Option<u32>
    decreases fuel,
{
    if fuel == 0 {
        None
    } else if gid >= reg.len() {
        None
    } else if reg[gid as int].runtime_chunk is Some {
        reg[gid as int].runtime_chunk
    } else {
        match first_entrypoint_parent(reg, reg[gid as int].parents.seq_view()) {
            None => None,
            Some(p) => resolve_runtime(reg, p, (fuel - 1) as nat),
        }
    }
}

fn find_first_entrypoint_parent(reg: &ChunkGroupByUkey, ps: &Vec<u32>) -> (r: Option<u32>)
    requires
        forall|j: int| 0 <= j < ps@.len() ==> ps@[j] < reg@.len(),
    ensures
        r == first_entrypoint_parent(reg@, ps@),
{
    proof {
        assert(ps@.skip(0) =~= ps@);
    }
    let mut i: usize = 0;
    while i < ps.len()
        invariant
            0 <= i <= ps@.len(),
            forall|j: int| 0 <= j < ps@.len() ==> ps@[j] < reg@.len(),
            first_entrypoint_parent(reg@, ps@.skip(i as int)) == first_entrypoint_parent(
                reg@,
                ps@,
            ),
        decreases ps@.len() - i,
    {
        let p = ps[i];
        proof {
            assert(ps@.skip(i as int)[0] == ps@[i as int]);
            assert(ps@.skip(i as int).drop_first() =~= ps@.skip(i as int + 1));
        }
        if reg.expect_get(p).kind.is_entrypoint() {
            return Some(p);
        }
        i += 1;
    }
    proof {
        assert(ps@.skip(i as int) =~= Seq::<u32>::empty());
    }
    None
}

impl ChunkGroup {
    /// The runtime chunk of an entry point: its own if set, else the one of
    /// the first ancestor (through entry-point parents) that has one. The
    /// runtime-chunk assignment pass must have run, so the walk is required
    /// to succeed; asking a non-entry group is a contract violation and is
    /// excluded outright.
    pub fn get_runtime_chunk(&self, chunk_group_by_ukey: &ChunkGroupByUkey) -> (r: ChunkUkey)
        requires
            self.kind is Entrypoint,
            chunk_group_by_ukey.parents_closed(),
            self.ukey < chunk_group_by_ukey@.len(),
            chunk_group_by_ukey@[self.ukey as int] == *self,
            chunk_group_by_ukey@.len() < usize::MAX,
            resolve_runtime(
                chunk_group_by_ukey@,
                self.ukey,
                (chunk_group_by_ukey@.len() + 1) as nat,
            ) is Some,
        ensures
            Some(r) == resolve_runtime(
                chunk_group_by_ukey@,
                self.ukey,
                (chunk_group_by_ukey@.len() + 1) as nat,
            ),
    {
        let ghost regv = chunk_group_by_ukey@;
        let ghost target = resolve_runtime(regv, self.ukey, (regv.len() + 1) as nat);
        let mut current: u32 = self.ukey;
        let mut fuel: usize = chunk_group_by_ukey.len() + 1;
        loop
            invariant
                regv == chunk_group_by_ukey@,
                chunk_group_by_ukey.parents_closed(),
                current < regv.len(),
                fuel <= regv.len() + 1,
                target is Some,
                target == resolve_runtime(regv, self.ukey, (regv.len() + 1) as nat),
                resolve_runtime(regv, current, fuel as nat) == target,
            decreases fuel,
        {
            proof {
                if fuel == 0 {
                    assert(resolve_runtime(regv, current, 0) is None);
                }
            }
            let group = chunk_group_by_ukey.expect_get(current);
            if let Some(rc) = group.runtime_chunk {
                proof {
                    if fuel == 0 {
                        assert(resolve_runtime(regv, current, fuel as nat) is None);
                        assert(false);
                    }
                    assert(fuel as nat != 0);
                    assert(regv[current as int].runtime_chunk == Some(rc));
                    assert(resolve_runtime(regv, current, fuel as nat) == Some(rc));
                    assert(Some(rc) == target);
                }
                return rc;
            }
            let ps = group.parents.to_vec();
            proof {
                assert forall|j: int| 0 <= j < ps@.len() implies ps@[j] < regv.len() by {
                    assert(regv[current as int].parents.seq_view()[j] < regv.len());
                }
            }
            match find_first_entrypoint_parent(chunk_group_by_ukey, &ps) {
                Some(p) => {
                    proof {
                        lemma_first_entrypoint_parent_valid(regv, ps@);
                    }
                    current = p;
                    fuel -= 1;
                }
                None => {
                    proof {
                        assert(resolve_runtime(regv, current, fuel as nat) is None);
                        assert(false);
                    }
                    return 0;
                }
            }
        }
    }
}

// ---------------------------------------------------------------------------
// Children grouped and sorted by their resource-hint orders.
// ---------------------------------------------------------------------------

/// The children that declare each order, sorted for emission.
pub struct ChildrenByOrders {
    pub preload: Vec<ChunkGroupUkey>,
    pub prefetch: Vec<ChunkGroupUkey>,
}

impl ChildrenByOrders {
    /// The sorted list for one order key.
    pub fn get(&self, key: ChunkGroupOrderKey) -> (r: &Vec<ChunkGroupUkey>)
        ensures
            match key {
                ChunkGroupOrderKey::Preload => r@ == self.preload@,
                ChunkGroupOrderKey::Prefetch => r@ == self.prefetch@,
            },
    {
        match key {
            ChunkGroupOrderKey::Preload => &self.preload,
            ChunkGroupOrderKey::Prefetch => &self.prefetch,
        }
    }
}

/// The position a caller-supplied total order gives a group: its index in
/// the list, or the list's length for a group the list does not mention.
pub open spec fn rank_of(order: Seq<u32>, g: u32) -> int {
    match order.index_of_first(g) {
        Some(i) => i,
        None => order.len() as int,
    }
}

/// Whether `a` must come strictly before `b`: a higher declared order
/// wins, and ties go to the group the injected ordering places earlier.
pub open spec fn tie_before(order: Seq<u32>, a: (i32, u32), b: (i32, u32)) -> bool {
    a.0 > b.0 || (a.0 == b.0 && rank_of(order, a.1) < rank_of(order, b.1))
}

/// Stable insertion of `x` into the sorted sequence `s`: `x` lands after
/// every element it is not strictly before.
pub open spec fn place(order: Seq<u32>, s: Seq<(i32, u32)>, x: (i32, u32)) -> Seq<(i32, u32)>
    decreases s.len(),
{
    if s.len() == 0 {
        seq![x]
    } else if tie_before(order, x, s.last()) {
        place(order, s.drop_last(), x).push(s.last())
    } else {
        s.push(x)
    }
}

/// Stable sort of `s` under [`tie_before`]: equal elements keep their
/// relative order.
pub open spec fn stable_sort_by(order: Seq<u32>, s: Seq<(i32, u32)>) -> Seq<(i32, u32)>
    decreases s.len(),
{
    if s.len() == 0 {
        Seq::empty()
    } else {
        place(order, stable_sort_by(order, s.drop_last()), s.last())
    }
}

/// The order a registered group declares for `key`; entry points and
/// unregistered identifiers declare none.
pub open spec fn child_order(reg: Seq<ChunkGroup>, c: u32, key: ChunkGroupOrderKey) -> Option<
    i32,
> {
    if c < reg.len() {
        match reg[c as int].kind {
            ChunkGroupKind::Normal { options } => order_for_key(options@, key),
            ChunkGroupKind::Entrypoint { .. } => None,
        }
    } else {
        None
    }
}

/// The children that declare an order for `key`, paired with it, in child
/// order.
pub open spec fn collect_orders(
    reg: Seq<ChunkGroup>,
    cs: Seq<u32>,
    key: ChunkGroupOrderKey,
) -> Seq<(i32, u32)>
    decreases cs.len(),
{
    if cs.len() == 0 {
        Seq::empty()
    } else {
        let rest = collect_orders(reg, cs.drop_last(), key);
        match child_order(reg, cs.last(), key) {
            Some(o) => rest.push((o, cs.last())),
            None => rest,
        }
    }
}

/// The group identifiers of an order-annotated list.
pub open spec fn project_ukeys(s: Seq<(i32, u32)>) -> Seq<u32> {
    Seq::new(s.len(), |i: int| s[i].1)
}

/// The list emitted for one key: eligible children, sorted descending by
/// declared order, ties broken by the injected total order, stably.
pub open spec fn children_by_order_spec(
    reg: Seq<ChunkGroup>,
    children: Seq<u32>,
    order: Seq<u32>,
    key: ChunkGroupOrderKey,
) -> Seq<u32> {
    project_ukeys(stable_sort_by(order, collect_orders(reg, children, key)))
}

fn rank_exec(order: &Vec<u32>, g: u32) -> (r: usize)
    ensures
        r == rank_of(order@, g),
{
    match position_of(order, g) {
        Some(i) => i,
        None => order.len(),
    }
}

fn tie_before_exec(order: &Vec<u32>, a: (i32, u32), b: (i32, u32)) -> (r: bool)
    ensures
        r == tie_before(order@, a, b),
{
    a.0 > b.0 || (a.0 == b.0 && rank_exec(order, a.1) < rank_exec(order, b.1))
}

proof fn lemma_place_at(order: Seq<u32>, s: Seq<(i32, u32)>, x: (i32, u32), j: int)
    requires
        0 <= j <= s.len(),
        forall|k: int| j <= k < s.len() ==> tie_before(order, x, #[trigger] s[k]),
        j > 0 ==> !tie_before(order, x, s[j - 1]),
    ensures
        place(order, s, x) == s.insert(j, x),
    decreases s.len(),
{
    if s.len() == 0 {
        assert(s.insert(0, x) =~= seq![x]);
    } else if tie_before(order, x, s.last()) {
        assert(j < s.len()) by {
            if j == s.len() {
                assert(!tie_before(order, x, s[j - 1]));
            }
        }
        lemma_place_at(order, s.drop_last(), x, j);
        assert(s.drop_last().insert(j, x).push(s.last()) =~= s.insert(j, x));
    } else {
        assert(j == s.len()) by {
            if j < s.len() {
                assert(tie_before(order, x, s[s.len() - 1]));
            }
        }
        assert(s.push(x) =~= s.insert(j, x));
    }
}

fn place_exec(order: &Vec<u32>, list: &mut Vec<(i32, u32)>, x: (i32, u32))
    ensures
        final(list)@ == place(order@, old(list)@, x),
{
    let mut j = list.len();
    while j > 0 && tie_before_exec(order, x, list[j - 1])
        invariant
            0 <= j <= list@.len(),
            forall|k: int| j <= k < list@.len() ==> tie_before(order@, x, #[trigger] list@[k]),
        decreases j,
    {
        j -= 1;
    }
    proof {
        lemma_place_at(order@, list@, x, j as int);
    }
    list.insert(j, x);
}

fn ordered_children_for(
    reg: &ChunkGroupByUkey,
    children_vec: &Vec<u32>,
    order: &Vec<u32>,
    key: ChunkGroupOrderKey,
) -> (r: Vec<u32>)
    ensures
        r@ == children_by_order_spec(reg@, children_vec@, order@, key),
{
    let ghost cs = children_vec@;
    let mut list: Vec<(i32, u32)> = Vec::new();
    let mut i: usize = 0;
    proof {
        assert(cs.subrange(0, 0) =~= Seq::<u32>::empty());
    }
    while i < children_vec.len()
        invariant
            0 <= i <= cs.len(),
            cs == children_vec@,
            reg@ == reg@,
            list@ == collect_orders(reg@, cs.subrange(0, i as int), key),
        decreases cs.len() - i,
    {
        let c = children_vec[i];
        proof {
            assert(cs.subrange(0, i as int + 1).drop_last() =~= cs.subrange(0, i as int));
            assert(cs.subrange(0, i as int + 1).last() == cs[i as int]);
        }
        match reg.get(c) {
            Some(child) => {
                match child.kind.get_normal_options() {
                    Some(opts) => {
                        match opts.order_for(key) {
                            Some(o) => {
                                list.push((o, c));
                            }
                            None => {}
                        }
                    }
                    None => {}
                }
            }
            None => {}
        }
        i += 1;
    }
    proof {
        assert(cs.subrange(0, cs.len() as int) =~= cs);
    }
    let mut sorted: Vec<(i32, u32)> = Vec::new();
    let mut i2: usize = 0;
    let ghost lv = list@;
    proof {
        assert(lv.subrange(0, 0) =~= Seq::<(i32, u32)>::empty());
    }
    while i2 < list.len()
        invariant
            0 <= i2 <= lv.len(),
            lv == list@,
            sorted@ == stable_sort_by(order@, lv.subrange(0, i2 as int)),
        decreases lv.len() - i2,
    {
        proof {
            assert(lv.subrange(0, i2 as int + 1).drop_last() =~= lv.subrange(0, i2 as int));
            assert(lv.subrange(0, i2 as int + 1).last() == lv[i2 as int]);
        }
        let x = list[i2];
        place_exec(order, &mut sorted, x);
        i2 += 1;
    }
    proof {
        assert(lv.subrange(0, lv.len() as int) =~= lv);
    }
    let mut out: Vec<u32> = Vec::new();
    let mut i3: usize = 0;
    while i3 < sorted.len()
        invariant
            0 <= i3 <= sorted@.len(),
            sorted@ == stable_sort_by(order@, lv),
            out@.len() == i3,
            forall|k: int| 0 <= k < i3 ==> out@[k] == sorted@[k].1,
        decreases sorted@.len() - i3,
    {
        let pair = sorted[i3];
        out.push(pair.1);
        i3 += 1;
    }
    proof {
        assert(out@ =~= project_ukeys(sorted@));
    }
    out
}

impl ChunkGroup {
    /// For each order key, the children that declare an order for it,
    /// sorted descending by that order; ties are broken by `tie_break`, a
    /// caller-supplied total order over chunk groups (groups it lists
    /// earlier come first, unlisted groups last, equals keeping child
    /// order). Children without an order for a key are excluded from that
    /// key's list; unregistered children are skipped.
    pub fn get_children_by_orders(
        &self,
        chunk_group_by_ukey: &ChunkGroupByUkey,
        tie_break: &Vec<u32>,
    ) -> (r: ChildrenByOrders)
        ensures
            r.preload@ == children_by_order_spec(
                chunk_group_by_ukey@,
                ordered_members(&self.children),
                tie_break@,
                ChunkGroupOrderKey::Preload,
            ),
            r.prefetch@ == children_by_order_spec(
                chunk_group_by_ukey@,
                ordered_members(&self.children),
                tie_break@,
                ChunkGroupOrderKey::Prefetch,
            ),
    {
        let cv = ordered_set_to_vec(&self.children);
        let preload = ordered_children_for(
            chunk_group_by_ukey,
            &cv,
            tie_break,
            ChunkGroupOrderKey::Preload,
        );
        let prefetch = ordered_children_for(
            chunk_group_by_ukey,
            &cv,
            tie_break,
            ChunkGroupOrderKey::Prefetch,
        );
        ChildrenByOrders { preload, prefetch }
    }
}


/// The files of the chunks named by `cs`, concatenated in chunk order.
pub open spec fn files_concat(reg: Seq<Chunk>, cs: Seq<u32>) -> Seq<Seq<char>>
    decreases cs.len(),
{
    if cs.len() == 0 {
        Seq::empty()
    } else {
        files_concat(reg, cs.drop_last()) + reg[cs.last() as int].files.deep_view()
    }
}

/// The ids of the chunks named by `cs` that have one, in chunk order;
/// identifiers that do not resolve are skipped.
pub open spec fn ids_of(reg: Seq<Chunk>, cs: Seq<u32>) -> Seq<Seq<char>>
    decreases cs.len(),
{
    if cs.len() == 0 {
        Seq::empty()
    } else {
        let rest = ids_of(reg, cs.drop_last());
        let c = cs.last();
        if c < reg.len() && reg[c as int].id is Some {
            rest.push(reg[c as int].id.unwrap()@)
        } else {
            rest
        }
    }
}

/// The parts joined with a plus sign between each pair.
pub open spec fn join_plus(parts: Seq<Seq<char>>) -> Seq<char>
    decreases parts.len(),
{
    if parts.len() == 0 {
        Seq::empty()
    } else if parts.len() == 1 {
        parts[0]
    } else {
        join_plus(parts.drop_last()) + "+"@ + parts.last()
    }
}

impl ChunkGroup {
    /// The output files of all chunks of this group, in chunk order.
    pub fn get_files(&self, chunk_by_ukey: &ChunkByUkey) -> (r: Vec<String>)
        requires
            forall|j: int| 0 <= j < self.chunks@.len() ==> self.chunks@[j] < chunk_by_ukey@.len(),
        ensures
            r.deep_view() == files_concat(chunk_by_ukey@, self.chunks@),
    {
        let ghost cs = self.chunks@;
        let mut r: Vec<String> = Vec::new();
        let mut i: usize = 0;
        proof {
            assert(cs.subrange(0, 0) =~= Seq::<u32>::empty());
            assert(r.deep_view() =~= files_concat(chunk_by_ukey@, cs.subrange(0, 0)));
        }
        while i < self.chunks.len()
            invariant
                0 <= i <= cs.len(),
                cs == self.chunks@,
                forall|j: int| 0 <= j < cs.len() ==> cs[j] < chunk_by_ukey@.len(),
                r.deep_view() == files_concat(chunk_by_ukey@, cs.subrange(0, i as int)),
            decreases cs.len() - i,
        {
            let c = self.chunks[i];
            let chunk = chunk_by_ukey.expect_get(c);
            let ghost before = r.deep_view();
            let mut k: usize = 0;
            while k < chunk.files.len()
                invariant
                    0 <= k <= chunk.files@.len(),
                    chunk.files@ == chunk_by_ukey@[cs[i as int] as int].files@,
                    chunk.files.deep_view() == chunk_by_ukey@[cs[i as int] as int].files.deep_view(),
                    r.deep_view() == before + chunk.files.deep_view().subrange(0, k as int),
                decreases chunk.files@.len() - k,
            {
                let ghost prev = r.deep_view();
                let f = chunk.files[k].clone();
                proof {
                    assert(f@ == chunk.files@[k as int]@);
                }
                r.push(f);
                proof {
                    assert(r.deep_view() =~= prev.push(chunk.files@[k as int]@));
                    assert(chunk.files.deep_view().subrange(0, k as int + 1) =~= chunk.files.deep_view().subrange(0, k as int).push(chunk.files@[k as int]@));
                    assert(r.deep_view() =~= before + chunk.files.deep_view().subrange(0, k as int + 1));
                }
                k += 1;
            }
            proof {
                assert(chunk.files.deep_view().subrange(0, chunk.files@.len() as int) =~= chunk.files.deep_view());
                assert(cs.subrange(0, i as int + 1).drop_last() =~= cs.subrange(0, i as int));
                assert(cs.subrange(0, i as int + 1).last() == cs[i as int]);
                assert(r.deep_view() =~= files_concat(chunk_by_ukey@, cs.subrange(0, i as int + 1)));
            }
            i += 1;
        }
        proof {
            assert(cs.subrange(0, cs.len() as int) =~= cs);
        }
        r
    }

    /// The group's id: the ids of its chunks, joined with plus signs.
    /// Chunks without an id, or identifiers that do not resolve, are
    /// skipped.
    pub fn id(&self, chunk_by_ukey: &ChunkByUkey) -> (r: String)
        ensures
            r@ == join_plus(ids_of(chunk_by_ukey@, self.chunks@)),
    {
        let ghost cs = self.chunks@;
        let mut parts: Vec<String> = Vec::new();
        let mut i: usize = 0;
        proof {
            assert(cs.subrange(0, 0) =~= Seq::<u32>::empty());
            assert(parts.deep_view() =~= ids_of(chunk_by_ukey@, cs.subrange(0, 0)));
        }
        while i < self.chunks.len()
            invariant
                0 <= i <= cs.len(),
                cs == self.chunks@,
                parts.deep_view() == ids_of(chunk_by_ukey@, cs.subrange(0, i as int)),
            decreases cs.len() - i,
        {
            let c = self.chunks[i];
            proof {
                assert(cs.subrange(0, i as int + 1).drop_last() =~= cs.subrange(0, i as int));
                assert(cs.subrange(0, i as int + 1).last() == cs[i as int]);
            }
            match chunk_by_ukey.get(c) {
                Some(chunk) => {
                    match &chunk.id {
                        Some(ids) => {
                            let ghost prev = parts.deep_view();
                            let cloned = ids.clone();
                            parts.push(cloned);
                            proof {
                                assert(parts.deep_view() =~= prev.push(
                                    chunk_by_ukey@[cs[i as int] as int].id.unwrap()@,
                                ));
                            }
                        }
                        None => {}
                    }
                }
                None => {}
            }
            i += 1;
        }
        proof {
            assert(cs.subrange(0, cs.len() as int) =~= cs);
        }
        let ghost pv = parts.deep_view();
        let mut acc = String::new();
        let mut j: usize = 0;
        proof {
            assert(pv.subrange(0, 0) =~= Seq::<Seq<char>>::empty());
        }
        while j < parts.len()
            invariant
                0 <= j <= pv.len(),
                pv == parts.deep_view(),
                pv.len() == parts@.len(),
                forall|k: int| 0 <= k < pv.len() ==> pv[k] == parts@[k]@,
                acc@ == join_plus(pv.subrange(0, j as int)),
            decreases pv.len() - j,
        {
            proof {
                assert(pv.subrange(0, j as int + 1).drop_last() =~= pv.subrange(0, j as int));
                assert(pv.subrange(0, j as int + 1).last() == pv[j as int]);
            }
            if j > 0 {
                acc.append("+");
            }
            let part = &parts[j];
            acc.append(part.as_str());
            proof {
                if j == 0 {
                    assert(acc@ =~= pv[0]);
                    assert(pv.subrange(0, 1).len() == 1);
                    assert(pv.subrange(0, 1)[0] == pv[0]);
                } else {
                    assert(pv.subrange(0, j as int + 1).len() >= 2);
                }
                assert(acc@ =~= join_plus(pv.subrange(0, j as int + 1)));
            }
            j += 1;
        }
        proof {
            assert(pv.subrange(0, pv.len() as int) =~= pv);
        }
        acc
    }

    /// The parent groups, resolved through the registry, in recorded order.
    pub fn get_parents<'a>(&self, chunk_group_by_ukey: &'a ChunkGroupByUkey) -> (r: Vec<
        &'a ChunkGroup,
    >)
        requires
            forall|j: int|
                0 <= j < self.parents.seq_view().len() ==> self.parents.seq_view()[j]
                    < chunk_group_by_ukey@.len(),
        ensures
            r@.len() == self.parents.seq_view().len(),
            forall|j: int|
                0 <= j < r@.len() ==> *r@[j] == chunk_group_by_ukey@[self.parents.seq_view()[j] as int],
    {
        let ps = self.parents.to_vec();
        let mut r: Vec<&'a ChunkGroup> = Vec::new();
        let mut i: usize = 0;
        while i < ps.len()
            invariant
                0 <= i <= ps@.len(),
                ps@ == self.parents.seq_view(),
                forall|j: int| 0 <= j < ps@.len() ==> ps@[j] < chunk_group_by_ukey@.len(),
                r@.len() == i,
                forall|j: int|
                    0 <= j < i ==> *r@[j] == chunk_group_by_ukey@[ps@[j] as int],
            decreases ps@.len() - i,
        {
            r.push(chunk_group_by_ukey.expect_get(ps[i]));
            i += 1;
        }
        r
    }
}

} // verus!
