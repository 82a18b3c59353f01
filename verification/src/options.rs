//! Configuration for entry points and chunk groups, and the merge operation
//! that folds several declarations of one named entry into a single value.

use vstd::prelude::*;

verus! {

/// The runtime declared for an entry: either a named runtime chunk, or
/// explicitly disabled.
pub enum EntryRuntime {
    String(String),
    False,
}

/// Spec-level value of an [`EntryRuntime`].
pub enum EntryRuntimeV {
    String(Seq<char>),
    False,
}

impl View for EntryRuntime {
    type V = EntryRuntimeV;

    open spec fn view(&self) -> EntryRuntimeV {
        match self {
            EntryRuntime::String(s) => EntryRuntimeV::String(s@),
            EntryRuntime::False => EntryRuntimeV::False,
        }
    }
}

impl DeepView for EntryRuntime {
    type V = EntryRuntimeV;

    open spec fn deep_view(&self) -> EntryRuntimeV {
        self.view()
    }
}

impl EntryRuntime {
    /// The runtime chunk name, or `None` when the runtime is disabled.
    pub fn as_string(&self) -> (r: Option<&str>)
        ensures
            match r {
                Some(s) => self@ == EntryRuntimeV::String(s@),
                None => self@ == EntryRuntimeV::False,
            },
    {
        match self {
            EntryRuntime::String(s) => Some(s.as_str()),
            EntryRuntime::False => None,
        }
    }

    fn clone_value(&self) -> (r: EntryRuntime)
        ensures
            r@ == self@,
    {
        match self {
            EntryRuntime::String(s) => EntryRuntime::String(s.clone()),
            EntryRuntime::False => EntryRuntime::False,
        }
    }

    fn eq_value(&self, other: &EntryRuntime) -> (r: bool)
        ensures
            r == (self@ == other@),
    {
        match (self, other) {
            (EntryRuntime::String(a), EntryRuntime::String(b)) => a.eq(b),
            (EntryRuntime::False, EntryRuntime::False) => true,
            _ => false,
        }
    }
}

/// How chunks of an entry are loaded at run time.
#[derive(Clone, Copy, PartialEq, Eq, Structural, Debug)]
pub enum ChunkLoading {
    Jsonp,
    ImportScripts,
    Require,
    AsyncNode,
    Import,
    Disable,
}

/// The public path under which emitted files are served.
pub enum PublicPath {
    Auto,
    String(String),
}

/// Spec-level value of a [`PublicPath`].
pub enum PublicPathV {
    Auto,
    String(Seq<char>),
}

impl View for PublicPath {
    type V = PublicPathV;

    open spec fn view(&self) -> PublicPathV {
        match self {
            PublicPath::Auto => PublicPathV::Auto,
            PublicPath::String(s) => PublicPathV::String(s@),
        }
    }
}

impl DeepView for PublicPath {
    type V = PublicPathV;

    open spec fn deep_view(&self) -> PublicPathV {
        self.view()
    }
}

impl PublicPath {
    fn clone_value(&self) -> (r: PublicPath)
        ensures
            r@ == self@,
    {
        match self {
            PublicPath::Auto => PublicPath::Auto,
            PublicPath::String(s) => PublicPath::String(s.clone()),
        }
    }

    fn eq_value(&self, other: &PublicPath) -> (r: bool)
        ensures
            r == (self@ == other@),
    {
        match (self, other) {
            (PublicPath::Auto, PublicPath::Auto) => true,
            (PublicPath::String(a), PublicPath::String(b)) => a.eq(b),
            _ => false,
        }
    }
}

/// Loading-priority hint attached to a dynamic import.
#[derive(Clone, Copy, PartialEq, Eq, Structural, Debug)]
pub enum DynamicImportFetchPriority {
    Low,
    High,
    Auto,
}

/// If both sides declare a value and the values differ, the field conflicts.
pub open spec fn conflict2<V>(a: Option<V>, b: Option<V>) -> bool {
    a is Some && b is Some && a != b
}

/// The left side wins wherever it has a value; absent fields take the
/// right side's value.
pub open spec fn merge2<V>(a: Option<V>, b: Option<V>) -> Option<V> {
    if a is Some {
        a
    } else {
        b
    }
}

impl DeepView for ChunkLoading {
    type V = ChunkLoading;

    open spec fn deep_view(&self) -> ChunkLoading {
        *self
    }
}

impl DeepView for DynamicImportFetchPriority {
    type V = DynamicImportFetchPriority;

    open spec fn deep_view(&self) -> DynamicImportFetchPriority {
        *self
    }
}

/// Configuration of a build entry. Immutable after merging; several
/// declarations of one named entry are folded together with [`EntryOptions::merge`].
pub struct EntryOptions {
    pub name: Option<String>,
    pub runtime: Option<EntryRuntime>,
    pub chunk_loading: Option<ChunkLoading>,
    pub async_chunks: Option<bool>,
    pub public_path: Option<PublicPath>,
    pub base_uri: Option<String>,
    pub filename: Option<String>,
    pub library: Option<String>,
    pub depend_on: Option<Vec<String>>,
    pub layer: Option<String>,
}

/// Spec-level value of an [`EntryOptions`].
pub struct EntryOptionsV {
    pub name: Option<Seq<char>>,
    pub runtime: Option<EntryRuntimeV>,
    pub chunk_loading: Option<ChunkLoading>,
    pub async_chunks: Option<bool>,
    pub public_path: Option<PublicPathV>,
    pub base_uri: Option<Seq<char>>,
    pub filename: Option<Seq<char>>,
    pub library: Option<Seq<char>>,
    pub depend_on: Option<Seq<Seq<char>>>,
    pub layer: Option<Seq<char>>,
}

impl View for EntryOptions {
    type V = EntryOptionsV;

    open spec fn view(&self) -> EntryOptionsV {
        EntryOptionsV {
            name: self.name.deep_view(),
            runtime: self.runtime.deep_view(),
            chunk_loading: self.chunk_loading.deep_view(),
            async_chunks: self.async_chunks.deep_view(),
            public_path: self.public_path.deep_view(),
            base_uri: self.base_uri.deep_view(),
            filename: self.filename.deep_view(),
            library: self.library.deep_view(),
            depend_on: self.depend_on.deep_view(),
            layer: self.layer.deep_view(),
        }
    }
}

impl EntryOptions {
    /// An options value with every field absent.
    pub fn unset() -> (r: EntryOptions)
        ensures
            r@ == empty_entry_options(),
    {
        EntryOptions {
            name: None,
            runtime: None,
            chunk_loading: None,
            async_chunks: None,
            public_path: None,
            base_uri: None,
            filename: None,
            library: None,
            depend_on: None,
            layer: None,
        }
    }
}

/// The spec value of [`EntryOptions::unset`].
pub open spec fn empty_entry_options() -> EntryOptionsV {
    EntryOptionsV {
        name: None,
        runtime: None,
        chunk_loading: None,
        async_chunks: None,
        public_path: None,
        base_uri: None,
        filename: None,
        library: None,
        depend_on: None,
        layer: None,
    }
}

/// A merge conflict: one field declared with two different values.
/// The payload carries the two disagreeing values, left side first.
pub enum EntryMergeConflict {
    Name(String, String),
    Runtime(EntryRuntime, EntryRuntime),
    ChunkLoading(ChunkLoading, ChunkLoading),
    AsyncChunks(bool, bool),
    PublicPath(PublicPath, PublicPath),
    BaseUri(String, String),
    Filename(String, String),
    Library(String, String),
    DependOn(Vec<String>, Vec<String>),
    Layer(String, String),
}

/// Spec-level value of an [`EntryMergeConflict`].
pub enum EntryMergeConflictV {
    Name(Seq<char>, Seq<char>),
    Runtime(EntryRuntimeV, EntryRuntimeV),
    ChunkLoading(ChunkLoading, ChunkLoading),
    AsyncChunks(bool, bool),
    PublicPath(PublicPathV, PublicPathV),
    BaseUri(Seq<char>, Seq<char>),
    Filename(Seq<char>, Seq<char>),
    Library(Seq<char>, Seq<char>),
    DependOn(Seq<Seq<char>>, Seq<Seq<char>>),
    Layer(Seq<char>, Seq<char>),
}

impl View for EntryMergeConflict {
    type V = EntryMergeConflictV;

    open spec fn view(&self) -> EntryMergeConflictV {
        match self {
            EntryMergeConflict::Name(a, b) => EntryMergeConflictV::Name(a@, b@),
            EntryMergeConflict::Runtime(a, b) => EntryMergeConflictV::Runtime(a@, b@),
            EntryMergeConflict::ChunkLoading(a, b) => EntryMergeConflictV::ChunkLoading(*a, *b),
            EntryMergeConflict::AsyncChunks(a, b) => EntryMergeConflictV::AsyncChunks(*a, *b),
            EntryMergeConflict::PublicPath(a, b) => EntryMergeConflictV::PublicPath(a@, b@),
            EntryMergeConflict::BaseUri(a, b) => EntryMergeConflictV::BaseUri(a@, b@),
            EntryMergeConflict::Filename(a, b) => EntryMergeConflictV::Filename(a@, b@),
            EntryMergeConflict::Library(a, b) => EntryMergeConflictV::Library(a@, b@),
            EntryMergeConflict::DependOn(a, b) => EntryMergeConflictV::DependOn(
                a.deep_view(),
                b.deep_view(),
            ),
            EntryMergeConflict::Layer(a, b) => EntryMergeConflictV::Layer(a@, b@),
        }
    }
}

impl EntryMergeConflict {
    /// The name of the conflicting field, for diagnostics.
    pub fn field_name(&self) -> (r: String)
        ensures
            r@ == conflict_field_name(self@),
    {
        match self {
            EntryMergeConflict::Name(_, _) => "name".to_owned(),
            EntryMergeConflict::Runtime(_, _) => "runtime".to_owned(),
            EntryMergeConflict::ChunkLoading(_, _) => "chunk_loading".to_owned(),
            EntryMergeConflict::AsyncChunks(_, _) => "async_chunks".to_owned(),
            EntryMergeConflict::PublicPath(_, _) => "public_path".to_owned(),
            EntryMergeConflict::BaseUri(_, _) => "base_uri".to_owned(),
            EntryMergeConflict::Filename(_, _) => "filename".to_owned(),
            EntryMergeConflict::Library(_, _) => "library".to_owned(),
            EntryMergeConflict::DependOn(_, _) => "depend_on".to_owned(),
            EntryMergeConflict::Layer(_, _) => "layer".to_owned(),
        }
    }
}

/// The field name reported for each conflict variant.
pub open spec fn conflict_field_name(c: EntryMergeConflictV) -> Seq<char> {
    match c {
        EntryMergeConflictV::Name(_, _) => "name"@,
        EntryMergeConflictV::Runtime(_, _) => "runtime"@,
        EntryMergeConflictV::ChunkLoading(_, _) => "chunk_loading"@,
        EntryMergeConflictV::AsyncChunks(_, _) => "async_chunks"@,
        EntryMergeConflictV::PublicPath(_, _) => "public_path"@,
        EntryMergeConflictV::BaseUri(_, _) => "base_uri"@,
        EntryMergeConflictV::Filename(_, _) => "filename"@,
        EntryMergeConflictV::Library(_, _) => "library"@,
        EntryMergeConflictV::DependOn(_, _) => "depend_on"@,
        EntryMergeConflictV::Layer(_, _) => "layer"@,
    }
}

/// The position of the first conflicting field in declaration order,
/// or 10 when no field conflicts.
pub open spec fn conflict_rank(a: EntryOptionsV, b: EntryOptionsV) -> int {
    if conflict2(a.name, b.name) {
        0
    } else if conflict2(a.runtime, b.runtime) {
        1
    } else if conflict2(a.chunk_loading, b.chunk_loading) {
        2
    } else if conflict2(a.async_chunks, b.async_chunks) {
        3
    } else if conflict2(a.public_path, b.public_path) {
        4
    } else if conflict2(a.base_uri, b.base_uri) {
        5
    } else if conflict2(a.filename, b.filename) {
        6
    } else if conflict2(a.library, b.library) {
        7
    } else if conflict2(a.depend_on, b.depend_on) {
        8
    } else if conflict2(a.layer, b.layer) {
        9
    } else {
        10
    }
}

/// The conflict value reported for the field at position `k`, carrying the
/// two disagreeing values; `None` when `k` is past the last field.
pub open spec fn conflict_at(a: EntryOptionsV, b: EntryOptionsV, k: int) -> Option<
    EntryMergeConflictV,
> {
    if k == 0 {
        Some(EntryMergeConflictV::Name(a.name.unwrap(), b.name.unwrap()))
    } else if k == 1 {
        Some(EntryMergeConflictV::Runtime(a.runtime.unwrap(), b.runtime.unwrap()))
    } else if k == 2 {
        Some(EntryMergeConflictV::ChunkLoading(a.chunk_loading.unwrap(), b.chunk_loading.unwrap()))
    } else if k == 3 {
        Some(EntryMergeConflictV::AsyncChunks(a.async_chunks.unwrap(), b.async_chunks.unwrap()))
    } else if k == 4 {
        Some(EntryMergeConflictV::PublicPath(a.public_path.unwrap(), b.public_path.unwrap()))
    } else if k == 5 {
        Some(EntryMergeConflictV::BaseUri(a.base_uri.unwrap(), b.base_uri.unwrap()))
    } else if k == 6 {
        Some(EntryMergeConflictV::Filename(a.filename.unwrap(), b.filename.unwrap()))
    } else if k == 7 {
        Some(EntryMergeConflictV::Library(a.library.unwrap(), b.library.unwrap()))
    } else if k == 8 {
        Some(EntryMergeConflictV::DependOn(a.depend_on.unwrap(), b.depend_on.unwrap()))
    } else if k == 9 {
        Some(EntryMergeConflictV::Layer(a.layer.unwrap(), b.layer.unwrap()))
    } else {
        None
    }
}

/// The left side after the fields strictly before position `k` have been
/// merged and the rest left untouched; `k == 10` means a complete merge.
pub open spec fn merged_upto(a: EntryOptionsV, b: EntryOptionsV, k: int) -> EntryOptionsV {
    EntryOptionsV {
        name: if 0 < k {
            merge2(a.name, b.name)
        } else {
            a.name
        },
        runtime: if 1 < k {
            merge2(a.runtime, b.runtime)
        } else {
            a.runtime
        },
        chunk_loading: if 2 < k {
            merge2(a.chunk_loading, b.chunk_loading)
        } else {
            a.chunk_loading
        },
        async_chunks: if 3 < k {
            merge2(a.async_chunks, b.async_chunks)
        } else {
            a.async_chunks
        },
        public_path: if 4 < k {
            merge2(a.public_path, b.public_path)
        } else {
            a.public_path
        },
        base_uri: if 5 < k {
            merge2(a.base_uri, b.base_uri)
        } else {
            a.base_uri
        },
        filename: if 6 < k {
            merge2(a.filename, b.filename)
        } else {
            a.filename
        },
        library: if 7 < k {
            merge2(a.library, b.library)
        } else {
            a.library
        },
        depend_on: if 8 < k {
            merge2(a.depend_on, b.depend_on)
        } else {
            a.depend_on
        },
        layer: if 9 < k {
            merge2(a.layer, b.layer)
        } else {
            a.layer
        },
    }
}

/// The conflict reported by a merge result, if any.
pub open spec fn conflict_of(r: Result<(), EntryMergeConflict>) -> Option<EntryMergeConflictV> {
    match r {
        Ok(()) => None,
        Err(c) => Some(c@),
    }
}

fn str_equal(a: &String, b: &String) -> (r: bool)
    ensures
        r == (a@ == b@),
{
    a.eq(b)
}

fn vec_str_equal(a: &Vec<String>, b: &Vec<String>) -> (r: bool)
    ensures
        r == (a.deep_view() == b.deep_view()),
{
    if a.len() != b.len() {
        proof {
            assert(a.deep_view().len() != b.deep_view().len());
        }
        return false;
    }
    let n = a.len();
    let mut i: usize = 0;
    while i < n
        invariant
            n == a@.len() == b@.len(),
            0 <= i <= n,
            forall|j: int| 0 <= j < i ==> a.deep_view()[j] == b.deep_view()[j],
        decreases n - i,
    {
        if !str_equal(&a[i], &b[i]) {
            proof {
                assert(a.deep_view()[i as int] != b.deep_view()[i as int]);
            }
            return false;
        }
        i += 1;
    }
    proof {
        assert(a.deep_view() =~= b.deep_view());
    }
    true
}

fn clone_string_vec(v: &Vec<String>) -> (r: Vec<String>)
    ensures
        r.deep_view() == v.deep_view(),
        r@.len() == v@.len(),
{
    let mut r: Vec<String> = Vec::new();
    let mut i: usize = 0;
    while i < v.len()
        invariant
            0 <= i <= v@.len(),
            r@.len() == i,
            forall|j: int| 0 <= j < i ==> r.deep_view()[j] == v.deep_view()[j],
        decreases v@.len() - i,
    {
        r.push(v[i].clone());
        i += 1;
    }
    proof {
        assert(r.deep_view() =~= v.deep_view());
    }
    r
}

fn merge_opt_string(f: &mut Option<String>, g: &Option<String>) -> (r: Option<(String, String)>)
    ensures
        match r {
            Some(p) => {
                &&& conflict2(old(f).deep_view(), g.deep_view())
                &&& *final(f) == *old(f)
                &&& Some(p.0@) == old(f).deep_view()
                &&& Some(p.1@) == g.deep_view()
            },
            None => {
                &&& !conflict2(old(f).deep_view(), g.deep_view())
                &&& final(f).deep_view() == merge2(old(f).deep_view(), g.deep_view())
            },
        },
{
    match (&*f, g) {
        (Some(x), Some(y)) => {
            if !str_equal(x, y) {
                return Some((x.clone(), y.clone()));
            }
        }
        (None, Some(y)) => {
            *f = Some(y.clone());
        }
        _ => {}
    }
    None
}

fn merge_opt_runtime(f: &mut Option<EntryRuntime>, g: &Option<EntryRuntime>) -> (r: Option<
    (EntryRuntime, EntryRuntime),
>)
    ensures
        match r {
            Some(p) => {
                &&& conflict2(old(f).deep_view(), g.deep_view())
                &&& *final(f) == *old(f)
                &&& Some(p.0@) == old(f).deep_view()
                &&& Some(p.1@) == g.deep_view()
            },
            None => {
                &&& !conflict2(old(f).deep_view(), g.deep_view())
                &&& final(f).deep_view() == merge2(old(f).deep_view(), g.deep_view())
            },
        },
{
    match (&*f, g) {
        (Some(x), Some(y)) => {
            if !x.eq_value(y) {
                return Some((x.clone_value(), y.clone_value()));
            }
        }
        (None, Some(y)) => {
            *f = Some(y.clone_value());
        }
        _ => {}
    }
    None
}

fn merge_opt_public_path(f: &mut Option<PublicPath>, g: &Option<PublicPath>) -> (r: Option<
    (PublicPath, PublicPath),
>)
    ensures
        match r {
            Some(p) => {
                &&& conflict2(old(f).deep_view(), g.deep_view())
                &&& *final(f) == *old(f)
                &&& Some(p.0@) == old(f).deep_view()
                &&& Some(p.1@) == g.deep_view()
            },
            None => {
                &&& !conflict2(old(f).deep_view(), g.deep_view())
                &&& final(f).deep_view() == merge2(old(f).deep_view(), g.deep_view())
            },
        },
{
    match (&*f, g) {
        (Some(x), Some(y)) => {
            if !x.eq_value(y) {
                return Some((x.clone_value(), y.clone_value()));
            }
        }
        (None, Some(y)) => {
            *f = Some(y.clone_value());
        }
        _ => {}
    }
    None
}

fn merge_opt_chunk_loading(f: &mut Option<ChunkLoading>, g: &Option<ChunkLoading>) -> (r: Option<
    (ChunkLoading, ChunkLoading),
>)
    ensures
        match r {
            Some(p) => {
                &&& conflict2(old(f).deep_view(), g.deep_view())
                &&& *final(f) == *old(f)
                &&& Some(p.0) == old(f).deep_view()
                &&& Some(p.1) == g.deep_view()
            },
            None => {
                &&& !conflict2(old(f).deep_view(), g.deep_view())
                &&& final(f).deep_view() == merge2(old(f).deep_view(), g.deep_view())
            },
        },
{
    match (&*f, g) {
        (Some(x), Some(y)) => {
            if x != y {
                return Some((*x, *y));
            }
        }
        (None, Some(y)) => {
            *f = Some(*y);
        }
        _ => {}
    }
    None
}

fn merge_opt_bool(f: &mut Option<bool>, g: &Option<bool>) -> (r: Option<(bool, bool)>)
    ensures
        match r {
            Some(p) => {
                &&& conflict2(old(f).deep_view(), g.deep_view())
                &&& *final(f) == *old(f)
                &&& Some(p.0) == old(f).deep_view()
                &&& Some(p.1) == g.deep_view()
            },
            None => {
                &&& !conflict2(old(f).deep_view(), g.deep_view())
                &&& final(f).deep_view() == merge2(old(f).deep_view(), g.deep_view())
            },
        },
{
    match (&*f, g) {
        (Some(x), Some(y)) => {
            if x != y {
                return Some((*x, *y));
            }
        }
        (None, Some(y)) => {
            *f = Some(*y);
        }
        _ => {}
    }
    None
}

fn merge_opt_string_vec(f: &mut Option<Vec<String>>, g: &Option<Vec<String>>) -> (r: Option<
    (Vec<String>, Vec<String>),
>)
    ensures
        match r {
            Some(p) => {
                &&& conflict2(old(f).deep_view(), g.deep_view())
                &&& *final(f) == *old(f)
                &&& Some(p.0.deep_view()) == old(f).deep_view()
                &&& Some(p.1.deep_view()) == g.deep_view()
            },
            None => {
                &&& !conflict2(old(f).deep_view(), g.deep_view())
                &&& final(f).deep_view() == merge2(old(f).deep_view(), g.deep_view())
            },
        },
{
    match (&*f, g) {
        (Some(x), Some(y)) => {
            if !vec_str_equal(x, y) {
                return Some((clone_string_vec(x), clone_string_vec(y)));
            }
        }
        (None, Some(y)) => {
            *f = Some(clone_string_vec(y));
        }
        _ => {}
    }
    None
}

impl EntryOptions {
    /// Folds `other` into `self` field by field: an absent field takes the
    /// other side's value, a field both sides declare must agree. The first
    /// disagreeing field (in declaration order) stops the merge with a
    /// conflict carrying both values; fields before it are already merged,
    /// it and the fields after it are left untouched.
    #[verifier::rlimit(100)]
    pub fn merge(&mut self, other: EntryOptions) -> (r: Result<(), EntryMergeConflict>)
        ensures
            conflict_of(r) == conflict_at(old(self)@, other@, conflict_rank(old(self)@, other@)),
            final(self)@ == merged_upto(old(self)@, other@, conflict_rank(old(self)@, other@)),
    {
        let ghost a = old(self)@;
        let ghost b = other@;
        if let Some(p) = merge_opt_string(&mut self.name, &other.name) {
            proof {
                assert(conflict_rank(a, b) == 0);
                assert(self@ == merged_upto(a, b, 0));
            }
            return Err(EntryMergeConflict::Name(p.0, p.1));
        }
        if let Some(p) = merge_opt_runtime(&mut self.runtime, &other.runtime) {
            proof {
                assert(conflict_rank(a, b) == 1);
                assert(self@ == merged_upto(a, b, 1));
            }
            return Err(EntryMergeConflict::Runtime(p.0, p.1));
        }
        if let Some(p) = merge_opt_chunk_loading(&mut self.chunk_loading, &other.chunk_loading) {
            proof {
                assert(conflict_rank(a, b) == 2);
                assert(self@ == merged_upto(a, b, 2));
            }
            return Err(EntryMergeConflict::ChunkLoading(p.0, p.1));
        }
        if let Some(p) = merge_opt_bool(&mut self.async_chunks, &other.async_chunks) {
            proof {
                assert(conflict_rank(a, b) == 3);
                assert(self@ == merged_upto(a, b, 3));
            }
            return Err(EntryMergeConflict::AsyncChunks(p.0, p.1));
        }
        if let Some(p) = merge_opt_public_path(&mut self.public_path, &other.public_path) {
            proof {
                assert(conflict_rank(a, b) == 4);
                assert(self@ == merged_upto(a, b, 4));
            }
            return Err(EntryMergeConflict::PublicPath(p.0, p.1));
        }
        if let Some(p) = merge_opt_string(&mut self.base_uri, &other.base_uri) {
            proof {
                assert(conflict_rank(a, b) == 5);
                assert(self@ == merged_upto(a, b, 5));
            }
            return Err(EntryMergeConflict::BaseUri(p.0, p.1));
        }
        if let Some(p) = merge_opt_string(&mut self.filename, &other.filename) {
            proof {
                assert(conflict_rank(a, b) == 6);
                assert(self@ == merged_upto(a, b, 6));
            }
            return Err(EntryMergeConflict::Filename(p.0, p.1));
        }
        if let Some(p) = merge_opt_string(&mut self.library, &other.library) {
            proof {
                assert(conflict_rank(a, b) == 7);
                assert(self@ == merged_upto(a, b, 7));
            }
            return Err(EntryMergeConflict::Library(p.0, p.1));
        }
        if let Some(p) = merge_opt_string_vec(&mut self.depend_on, &other.depend_on) {
            proof {
                assert(conflict_rank(a, b) == 8);
                assert(self@ == merged_upto(a, b, 8));
            }
            return Err(EntryMergeConflict::DependOn(p.0, p.1));
        }
        if let Some(p) = merge_opt_string(&mut self.layer, &other.layer) {
            proof {
                assert(conflict_rank(a, b) == 9);
                assert(self@ == merged_upto(a, b, 9));
            }
            return Err(EntryMergeConflict::Layer(p.0, p.1));
        }
        proof {
            assert(conflict_rank(a, b) == 10);
            assert(self@ == merged_upto(a, b, 10));
        }
        Ok(())
    }
}

/// The two resource-hint orderings a chunk group's children can declare.
#[derive(Clone, Copy, PartialEq, Eq, Structural, Hash, Debug)]
pub enum ChunkGroupOrderKey {
    Preload,
    Prefetch,
}

impl ChunkGroupOrderKey {
    /// The lower-case tag used for this key in diagnostics and output.
    pub fn as_label(&self) -> (r: String)
        ensures
            r@ == order_key_label(*self),
    {
        match self {
            ChunkGroupOrderKey::Preload => "preload".to_owned(),
            ChunkGroupOrderKey::Prefetch => "prefetch".to_owned(),
        }
    }
}

/// The label of each order key.
pub open spec fn order_key_label(k: ChunkGroupOrderKey) -> Seq<char> {
    match k {
        ChunkGroupOrderKey::Preload => "preload"@,
        ChunkGroupOrderKey::Prefetch => "prefetch"@,
    }
}

/// Configuration of a chunk group that is not an entry point.
pub struct ChunkGroupOptions {
    pub name: Option<String>,
    pub preload_order: Option<i32>,
    pub prefetch_order: Option<i32>,
    pub fetch_priority: Option<DynamicImportFetchPriority>,
}

/// Spec-level value of a [`ChunkGroupOptions`].
pub struct ChunkGroupOptionsV {
    pub name: Option<Seq<char>>,
    pub preload_order: Option<i32>,
    pub prefetch_order: Option<i32>,
    pub fetch_priority: Option<DynamicImportFetchPriority>,
}

impl View for ChunkGroupOptions {
    type V = ChunkGroupOptionsV;

    open spec fn view(&self) -> ChunkGroupOptionsV {
        ChunkGroupOptionsV {
            name: self.name.deep_view(),
            preload_order: self.preload_order,
            prefetch_order: self.prefetch_order,
            fetch_priority: self.fetch_priority,
        }
    }
}

impl ChunkGroupOptions {
    pub fn new(
        name: Option<String>,
        preload_order: Option<i32>,
        prefetch_order: Option<i32>,
        fetch_priority: Option<DynamicImportFetchPriority>,
    ) -> (r: ChunkGroupOptions)
        ensures
            r@ == (ChunkGroupOptionsV {
                name: name.deep_view(),
                preload_order,
                prefetch_order,
                fetch_priority,
            }),
    {
        ChunkGroupOptions { name, preload_order, prefetch_order, fetch_priority }
    }

    /// Replaces the name, keeping the other fields.
    pub fn name_optional(self, name: Option<String>) -> (r: ChunkGroupOptions)
        ensures
            r@ == (ChunkGroupOptionsV { name: name.deep_view(), ..self@ }),
    {
        let mut r = self;
        r.name = name;
        r
    }

    /// The declared order for the given key, if any.
    pub fn order_for(&self, key: ChunkGroupOrderKey) -> (r: Option<i32>)
        ensures
            r == order_for_key(self@, key),
    {
        match key {
            ChunkGroupOrderKey::Preload => self.preload_order,
            ChunkGroupOrderKey::Prefetch => self.prefetch_order,
        }
    }
}

/// The order a group declares for an order key.
pub open spec fn order_for_key(o: ChunkGroupOptionsV, key: ChunkGroupOrderKey) -> Option<i32> {
    match key {
        ChunkGroupOrderKey::Preload => o.preload_order,
        ChunkGroupOrderKey::Prefetch => o.prefetch_order,
    }
}

/// Options for either kind of chunk group, where code must stay agnostic
/// to which kind it is configuring.
pub enum GroupOptions {
    Entrypoint(Box<EntryOptions>),
    ChunkGroup(ChunkGroupOptions),
}

impl GroupOptions {
    /// The configured group name, whichever kind this is.
    pub fn name(&self) -> (r: Option<&str>)
        ensures
            match r {
                Some(s) => group_options_name(self) == Some(s@),
                None => group_options_name(self) is None,
            },
    {
        match self {
            GroupOptions::Entrypoint(e) => match &e.name {
                Some(s) => Some(s.as_str()),
                None => None,
            },
            GroupOptions::ChunkGroup(n) => match &n.name {
                Some(s) => Some(s.as_str()),
                None => None,
            },
        }
    }

    /// The entry options, when this configures an entry point.
    pub fn entry_options(&self) -> (r: Option<&EntryOptions>)
        ensures
            match r {
                Some(e) => self matches GroupOptions::Entrypoint(b) && *b == *e,
                None => self is ChunkGroup,
            },
    {
        match self {
            GroupOptions::Entrypoint(e) => Some(e),
            GroupOptions::ChunkGroup(_) => None,
        }
    }

    /// The normal options, when this configures a non-entry group.
    pub fn normal_options(&self) -> (r: Option<&ChunkGroupOptions>)
        ensures
            match r {
                Some(n) => self matches GroupOptions::ChunkGroup(o) && o == *n,
                None => self is Entrypoint,
            },
    {
        match self {
            GroupOptions::Entrypoint(_) => None,
            GroupOptions::ChunkGroup(n) => Some(n),
        }
    }
}

/// The name carried by a group options value, as a sequence of characters.
pub open spec fn group_options_name(o: &GroupOptions) -> Option<Seq<char>> {
    match o {
        GroupOptions::Entrypoint(e) => e.name.deep_view(),
        GroupOptions::ChunkGroup(n) => n.name.deep_view(),
    }
}

} // verus!
