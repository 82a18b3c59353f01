//! First-class predicates selecting which chunks, module types and layers
//! take part in an optimization group.

use vstd::prelude::*;

use crate::chunk::Chunk;
use crate::chunk_group::{ChunkGroup, ChunkGroupByUkey, ChunkGroupKind};
use crate::sizes::SplitChunkSizes;

verus! {

/// Whether the pattern is a syntactically valid regular expression.
pub uninterp spec fn regex_valid(pattern: Seq<char>) -> bool;

/// Whether the pattern matches somewhere in the text.
pub uninterp spec fn regex_matches(pattern: Seq<char>, text: Seq<char>) -> bool;

/// Relies on `regress::Regex::new` and `regress::Regex::find`: compiling
/// succeeds exactly for valid patterns, and finding depends only on the
/// pattern and the text.
#[verifier::external_body]
fn regex_test(pattern: &str, text: &str) -> (r: Option<bool>)
    ensures
        r is Some <==> regex_valid(pattern@),
        r matches Some(m) ==> m == regex_matches(pattern@, text@),
{
    match regress::Regex::new(pattern) {
        Ok(re) => Some(re.find(text).is_some()),
        Err(_) => None,
    }
}

/// Whether a group is a synchronously loaded entry point.
pub open spec fn is_initial_group(reg: Seq<ChunkGroup>, g: u32) -> bool {
    g < reg.len() && reg[g as int].kind matches ChunkGroupKind::Entrypoint { initial: true, .. }
}

/// A chunk can be loaded synchronously when one of its groups is an
/// initial entry point.
pub open spec fn can_be_initial_spec(reg: Seq<ChunkGroup>, groups: Seq<u32>) -> bool {
    exists|i: int| 0 <= i < groups.len() && is_initial_group(reg, #[trigger] groups[i])
}

impl Chunk {
    /// Whether some owning group loads this chunk synchronously.
    pub fn can_be_initial(&self, chunk_group_by_ukey: &ChunkGroupByUkey) -> (r: bool)
        requires
            forall|j: int|
                0 <= j < self.groups.seq_view().len() ==> self.groups.seq_view()[j]
                    < chunk_group_by_ukey@.len(),
        ensures
            r == can_be_initial_spec(chunk_group_by_ukey@, self.groups.seq_view()),
    {
        let gs = self.groups.to_vec();
        let mut i: usize = 0;
        while i < gs.len()
            invariant
                0 <= i <= gs@.len(),
                gs@ == self.groups.seq_view(),
                forall|j: int| 0 <= j < gs@.len() ==> gs@[j] < chunk_group_by_ukey@.len(),
                forall|j: int| 0 <= j < i ==> !is_initial_group(chunk_group_by_ukey@, gs@[j]),
            decreases gs@.len() - i,
        {
            if chunk_group_by_ukey.expect_get(gs[i]).is_initial() {
                return true;
            }
            i += 1;
        }
        false
    }
}

/// A predicate over chunks, chosen by the split-chunks configuration.
pub enum ChunkFilter {
    /// Every chunk takes part.
    All,
    /// Only chunks that cannot be loaded synchronously.
    Async,
    /// Only chunks that can be loaded synchronously.
    Initial,
    /// Only chunks whose name matches the pattern; unnamed chunks never
    /// match.
    Pattern(String),
}

/// What a filter decides about a chunk with the given initial-loading
/// capability and name.
pub open spec fn chunk_filter_spec(
    f: &ChunkFilter,
    can_be_initial: bool,
    name: Option<Seq<char>>,
) -> bool {
    match f {
        ChunkFilter::All => true,
        ChunkFilter::Async => !can_be_initial,
        ChunkFilter::Initial => can_be_initial,
        ChunkFilter::Pattern(p) => name matches Some(n) && regex_valid(p@) && regex_matches(
            p@,
            n,
        ),
    }
}

/// The filter passing chunks that cannot be initial.
pub fn create_async_chunk_filter() -> (r: ChunkFilter)
    ensures
        r == ChunkFilter::Async,
{
    ChunkFilter::Async
}

/// The filter passing chunks that can be initial.
pub fn create_initial_chunk_filter() -> (r: ChunkFilter)
    ensures
        r == ChunkFilter::Initial,
{
    ChunkFilter::Initial
}

/// The filter passing every chunk.
pub fn create_all_chunk_filter() -> (r: ChunkFilter)
    ensures
        r == ChunkFilter::All,
{
    ChunkFilter::All
}

pub(crate) fn str_is(s: &str, lit: &str) -> (r: bool)
    ensures
        r == (s@ == lit@),
{
    let a = s.to_owned();
    let b = lit.to_owned();
    a.eq(&b)
}

/// The filter a configuration tag names. An unrecognized tag is a fatal
/// configuration error, so it is excluded outright.
pub fn create_chunk_filter_from_str(chunks: &str) -> (r: ChunkFilter)
    requires
        chunks@ == "initial"@ || chunks@ == "async"@ || chunks@ == "all"@,
    ensures
        chunks@ == "initial"@ ==> r == ChunkFilter::Initial,
        chunks@ == "async"@ ==> r == ChunkFilter::Async,
        chunks@ == "all"@ ==> r == ChunkFilter::All,
{
    proof {
        reveal_strlit("initial");
        reveal_strlit("async");
        reveal_strlit("all");
        assert("initial"@.len() == 7 && "async"@.len() == 5 && "all"@.len() == 3);
    }
    if str_is(chunks, "initial") {
        ChunkFilter::Initial
    } else if str_is(chunks, "async") {
        ChunkFilter::Async
    } else {
        proof {
            if chunks@ != "all"@ {
                assert(false);
            }
        }
        ChunkFilter::All
    }
}

/// The filter passing chunks whose name matches the pattern. An invalid
/// pattern yields `None`.
pub fn create_regex_chunk_filter_from_str(pattern: &str) -> (r: Option<ChunkFilter>)
    ensures
        r is Some <==> regex_valid(pattern@),
        match r {
            Some(f) => f matches ChunkFilter::Pattern(p) && p@ == pattern@,
            None => true,
        },
{
    match regex_test(pattern, "") {
        Some(_) => Some(ChunkFilter::Pattern(pattern.to_owned())),
        None => None,
    }
}

impl ChunkFilter {
    /// Applies the filter to a chunk, resolving its groups through the
    /// registry.
    pub fn eval(&self, chunk: &Chunk, chunk_group_by_ukey: &ChunkGroupByUkey) -> (r: bool)
        requires
            forall|j: int|
                0 <= j < chunk.groups.seq_view().len() ==> chunk.groups.seq_view()[j]
                    < chunk_group_by_ukey@.len(),
        ensures
            r == chunk_filter_spec(
                self,
                can_be_initial_spec(chunk_group_by_ukey@, chunk.groups.seq_view()),
                match chunk.name {
                    Some(n) => Some(n@),
                    None => None,
                },
            ),
    {
        match self {
            ChunkFilter::All => true,
            ChunkFilter::Async => !chunk.can_be_initial(chunk_group_by_ukey),
            ChunkFilter::Initial => chunk.can_be_initial(chunk_group_by_ukey),
            ChunkFilter::Pattern(p) => {
                match chunk.name() {
                    Some(n) => {
                        match regex_test(p.as_str(), n) {
                            Some(m) => m,
                            None => false,
                        }
                    }
                    None => false,
                }
            }
        }
    }
}

/// A predicate over module types; the default accepts every module.
pub enum ModuleTypeFilter {
    All,
}

/// What a module-type filter decides about a module type.
pub open spec fn module_type_filter_spec(f: &ModuleTypeFilter, module_type: Seq<char>) -> bool {
    match f {
        ModuleTypeFilter::All => true,
    }
}

/// The module-type filter used when none is configured: accepts all.
pub fn create_default_module_type_filter() -> (r: ModuleTypeFilter)
    ensures
        r == ModuleTypeFilter::All,
{
    ModuleTypeFilter::All
}

impl ModuleTypeFilter {
    pub fn eval(&self, module_type: &str) -> (r: bool)
        ensures
            r == module_type_filter_spec(self, module_type@),
    {
        match self {
            ModuleTypeFilter::All => true,
        }
    }
}

/// A predicate over optional module layers; the default accepts every
/// layer.
pub enum ModuleLayerFilter {
    All,
}

/// What a module-layer filter decides about a layer tag.
pub open spec fn module_layer_filter_spec(
    f: &ModuleLayerFilter,
    layer: Option<Seq<char>>,
) -> bool {
    match f {
        ModuleLayerFilter::All => true,
    }
}

/// The module-layer filter used when none is configured: accepts all.
pub fn create_default_module_layer_filter() -> (r: ModuleLayerFilter)
    ensures
        r == ModuleLayerFilter::All,
{
    ModuleLayerFilter::All
}

impl ModuleLayerFilter {
    pub fn eval(&self, layer: Option<&String>) -> (r: bool)
        ensures
            r == module_layer_filter_spec(
                self,
                match layer {
                    Some(l) => Some(l@),
                    None => None,
                },
            ),
    {
        match self {
            ModuleLayerFilter::All => true,
        }
    }
}

/// The fallback cache group the split-chunks pass uses when a module fits
/// no configured group.
pub struct FallbackCacheGroup {
    pub chunks_filter: ChunkFilter,
    pub min_size: SplitChunkSizes,
    pub max_async_size: SplitChunkSizes,
    pub max_initial_size: SplitChunkSizes,
    pub automatic_name_delimiter: String,
}

} // verus!
