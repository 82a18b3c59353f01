//! Chunks: opaque, globally identified output units, and their registry.

use vstd::prelude::*;

use crate::ukey::UkeySet;
use crate::ChunkUkey;

verus! {

/// A deployable output unit. The graph core only needs its stable
/// identifier and the bidirectional membership link to its groups.
pub struct Chunk {
    pub ukey: ChunkUkey,
    pub name: Option<String>,
    pub id: Option<String>,
    pub files: Vec<String>,
    pub groups: UkeySet,
}

impl Chunk {
    pub fn new(ukey: ChunkUkey) -> (r: Chunk)
        ensures
            r.ukey == ukey,
            r.name is None,
            r.id is None,
            r.files@.len() == 0,
            r.groups.seq_view() == Seq::<u32>::empty(),
            r.groups.wf(),
    {
        Chunk { ukey, name: None, id: None, files: Vec::new(), groups: UkeySet::new() }
    }

    /// The chunk's own identifier.
    pub fn ukey(&self) -> (r: ChunkUkey)
        ensures
            r == self.ukey,
    {
        self.ukey
    }

    /// Records that this chunk belongs to the given group.
    pub fn add_group(&mut self, group: u32) -> (newly: bool)
        requires
            old(self).groups.wf(),
        ensures
            final(self).groups.wf(),
            newly == !old(self).groups.set_view().contains(group),
            final(self).groups.set_view() == old(self).groups.set_view().insert(group),
            final(self).ukey == old(self).ukey,
            final(self).name == old(self).name,
            final(self).id == old(self).id,
            final(self).files == old(self).files,
    {
        self.groups.insert(group)
    }

    /// The chunk's name, if it has one.
    pub fn name(&self) -> (r: Option<&str>)
        ensures
            match r {
                Some(s) => self.name matches Some(n) && n@ == s@,
                None => self.name is None,
            },
    {
        match &self.name {
            Some(s) => Some(s.as_str()),
            None => None,
        }
    }
}

/// The registry ("arena") resolving chunk identifiers. Identifiers are
/// assigned at registration, in order, and never reused.
pub struct ChunkByUkey {
    chunks: Vec<Chunk>,
}

impl ChunkByUkey {
    /// Every registered chunk sits at the index its identifier names.
    pub closed spec fn wf(&self) -> bool {
        forall|i: int| 0 <= i < self.chunks@.len() ==> #[trigger] self.chunks@[i].ukey == i
    }

    pub closed spec fn view(&self) -> Seq<Chunk> {
        self.chunks@
    }

    pub fn new() -> (r: ChunkByUkey)
        ensures
            r@ == Seq::<Chunk>::empty(),
            r.wf(),
    {
        ChunkByUkey { chunks: Vec::new() }
    }

    pub fn len(&self) -> (n: usize)
        ensures
            n == self@.len(),
    {
        self.chunks.len()
    }

    /// The identifier the next registered chunk will receive.
    pub fn next_ukey(&self) -> (u: ChunkUkey)
        requires
            self@.len() < u32::MAX,
        ensures
            u == self@.len(),
    {
        self.chunks.len() as u32
    }

    /// Registers a chunk under the next free identifier.
    pub fn add(&mut self, chunk: Chunk) -> (u: ChunkUkey)
        requires
            old(self).wf(),
            old(self)@.len() < u32::MAX,
            chunk.ukey == old(self)@.len(),
        ensures
            final(self).wf(),
            u == chunk.ukey,
            final(self)@ == old(self)@.push(chunk),
    {
        let u = chunk.ukey;
        self.chunks.push(chunk);
        u
    }

    pub fn get(&self, ukey: ChunkUkey) -> (r: Option<&Chunk>)
        ensures
            match r {
                Some(c) => ukey < self@.len() && *c == self@[ukey as int],
                None => ukey >= self@.len(),
            },
    {
        if (ukey as usize) < self.chunks.len() {
            Some(&self.chunks[ukey as usize])
        } else {
            None
        }
    }

    /// Resolves an identifier that an intact graph guarantees to be present.
    pub fn expect_get(&self, ukey: ChunkUkey) -> (r: &Chunk)
        requires
            ukey < self@.len(),
        ensures
            *r == self@[ukey as int],
    {
        &self.chunks[ukey as usize]
    }
}

} // verus!
