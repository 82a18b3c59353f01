use chunk_graph::options::{
    ChunkGroupOrderKey, ChunkLoading, EntryMergeConflict, EntryOptions, EntryRuntime,
    GroupOptions, PublicPath,
};
use chunk_graph::sizes::{SourceType, SplitChunkSizes};

fn named(name: &str) -> EntryOptions {
    let mut o = EntryOptions::unset();
    o.name = Some(String::from(name));
    o
}

#[test]
fn merge_equal_names_succeeds() {
    let mut left = named("a");
    let r = left.merge(named("a"));
    assert!(r.is_ok());
    assert_eq!(left.name.as_deref(), Some("a"));
}

#[test]
fn merge_conflicting_names_reports_the_field() {
    let mut left = named("b");
    let r = left.merge(named("a"));
    let conflict = r.unwrap_err();
    assert!(matches!(&conflict, EntryMergeConflict::Name(l, r2) if l == "b" && r2 == "a"));
    assert_eq!(conflict.field_name(), "name");
    // the conflicting field itself is left untouched
    assert_eq!(left.name.as_deref(), Some("b"));
}

#[test]
fn merge_absent_field_takes_the_other_side() {
    let mut left = EntryOptions::unset();
    let r = left.merge(named("a"));
    assert!(r.is_ok());
    assert_eq!(left.name.as_deref(), Some("a"));

    // and a declared field survives merging in an absent one
    let mut left2 = named("a");
    let r2 = left2.merge(EntryOptions::unset());
    assert!(r2.is_ok());
    assert_eq!(left2.name.as_deref(), Some("a"));
}

#[test]
fn merge_folds_every_field_and_stops_at_the_first_conflict() {
    let mut left = EntryOptions::unset();
    let mut right = EntryOptions::unset();
    right.runtime = Some(EntryRuntime::String(String::from("rt")));
    right.chunk_loading = Some(ChunkLoading::Jsonp);
    right.async_chunks = Some(true);
    right.public_path = Some(PublicPath::Auto);
    right.base_uri = Some(String::from("https://example.test/"));
    right.filename = Some(String::from("[name].js"));
    right.library = Some(String::from("umd"));
    right.depend_on = Some(vec![String::from("shared")]);
    right.layer = Some(String::from("modern"));
    assert!(left.merge(right).is_ok());
    assert!(matches!(&left.runtime, Some(EntryRuntime::String(s)) if s == "rt"));
    assert_eq!(left.chunk_loading, Some(ChunkLoading::Jsonp));
    assert_eq!(left.async_chunks, Some(true));
    assert!(matches!(left.public_path, Some(PublicPath::Auto)));
    assert_eq!(left.base_uri.as_deref(), Some("https://example.test/"));
    assert_eq!(left.filename.as_deref(), Some("[name].js"));
    assert_eq!(left.library.as_deref(), Some("umd"));
    assert_eq!(left.depend_on, Some(vec![String::from("shared")]));
    assert_eq!(left.layer.as_deref(), Some("modern"));

    // a conflict on an early field leaves the later fields unmerged
    let mut a = EntryOptions::unset();
    a.runtime = Some(EntryRuntime::False);
    let mut b = EntryOptions::unset();
    b.runtime = Some(EntryRuntime::String(String::from("rt")));
    b.layer = Some(String::from("modern"));
    let e = a.merge(b).unwrap_err();
    assert_eq!(e.field_name(), "runtime");
    assert!(matches!(
        e,
        EntryMergeConflict::Runtime(EntryRuntime::False, EntryRuntime::String(_))
    ));
    assert_eq!(a.layer, None);
}

#[test]
fn merge_reports_each_conflicting_field() {
    let set_pairs: Vec<(fn(&mut EntryOptions), fn(&mut EntryOptions), &str)> = vec![
        (
            |o| o.chunk_loading = Some(ChunkLoading::Require),
            |o| o.chunk_loading = Some(ChunkLoading::Import),
            "chunk_loading",
        ),
        (
            |o| o.async_chunks = Some(true),
            |o| o.async_chunks = Some(false),
            "async_chunks",
        ),
        (
            |o| o.public_path = Some(PublicPath::Auto),
            |o| o.public_path = Some(PublicPath::String(String::from("/x/"))),
            "public_path",
        ),
        (
            |o| o.base_uri = Some(String::from("u1")),
            |o| o.base_uri = Some(String::from("u2")),
            "base_uri",
        ),
        (
            |o| o.filename = Some(String::from("f1")),
            |o| o.filename = Some(String::from("f2")),
            "filename",
        ),
        (
            |o| o.library = Some(String::from("l1")),
            |o| o.library = Some(String::from("l2")),
            "library",
        ),
        (
            |o| o.depend_on = Some(vec![String::from("d1")]),
            |o| o.depend_on = Some(vec![String::from("d2")]),
            "depend_on",
        ),
        (
            |o| o.layer = Some(String::from("y1")),
            |o| o.layer = Some(String::from("y2")),
            "layer",
        ),
    ];
    for (set_left, set_right, field) in set_pairs {
        let mut left = EntryOptions::unset();
        set_left(&mut left);
        let mut right = EntryOptions::unset();
        set_right(&mut right);
        let e = left.merge(right).unwrap_err();
        assert_eq!(e.field_name(), field);
    }
}

#[test]
fn entry_runtime_as_string() {
    let named_rt = EntryRuntime::String(String::from("runtime"));
    assert_eq!(named_rt.as_string(), Some("runtime"));
    assert_eq!(EntryRuntime::False.as_string(), None);
}

#[test]
fn group_options_accessors() {
    let entry = GroupOptions::Entrypoint(Box::new(named("top")));
    assert_eq!(entry.name(), Some("top"));
    assert!(entry.entry_options().is_some());
    assert!(entry.normal_options().is_none());

    let normal = GroupOptions::ChunkGroup(chunk_graph::options::ChunkGroupOptions::new(
        Some(String::from("lazy")),
        Some(1),
        None,
        None,
    ));
    assert_eq!(normal.name(), Some("lazy"));
    assert!(normal.entry_options().is_none());
    assert_eq!(normal.normal_options().unwrap().preload_order, Some(1));
}

#[test]
fn order_key_labels() {
    assert_eq!(ChunkGroupOrderKey::Preload.as_label(), "preload");
    assert_eq!(ChunkGroupOrderKey::Prefetch.as_label(), "prefetch");
}

#[test]
fn sizes_merge_keeps_own_values_and_gains_new_keys() {
    let mut script10 = SplitChunkSizes::empty();
    script10.insert(SourceType::JavaScript, 10);
    let mut other = SplitChunkSizes::empty();
    other.insert(SourceType::JavaScript, 5);
    other.insert(SourceType::Css, 3);
    let merged = script10.merge(&other);
    assert_eq!(merged.get(SourceType::JavaScript), Some(10));
    assert_eq!(merged.get(SourceType::Css), Some(3));
    assert_eq!(merged.get(SourceType::Wasm), None);
}

#[test]
fn sizes_bigger_than_ignores_zero_and_missing_keys() {
    let mut script10 = SplitChunkSizes::empty();
    script10.insert(SourceType::JavaScript, 10);
    let mut script5 = SplitChunkSizes::empty();
    script5.insert(SourceType::JavaScript, 5);
    assert!(script10.bigger_than(&script5));

    // zero is never "bigger"
    let mut script0 = SplitChunkSizes::empty();
    script0.insert(SourceType::JavaScript, 0);
    let mut neg5 = SplitChunkSizes::empty();
    neg5.insert(SourceType::JavaScript, -5);
    assert!(!script0.bigger_than(&neg5));

    // a key the other side does not know is skipped
    let empty = SplitChunkSizes::empty();
    assert!(!script10.bigger_than(&empty));
    assert!(!script10.smaller_than(&empty));
}

#[test]
fn sizes_smaller_than_is_any_key_not_all_keys() {
    let mut a = SplitChunkSizes::empty();
    a.insert(SourceType::JavaScript, 2);
    a.insert(SourceType::Css, 50);
    let mut b = SplitChunkSizes::empty();
    b.insert(SourceType::JavaScript, 5);
    b.insert(SourceType::Css, 1);
    // JavaScript is smaller even though Css is bigger: "any", not "all"
    assert!(a.smaller_than(&b));
    assert!(a.bigger_than(&b));
}

#[test]
fn sizes_add_and_subtract_combine_pointwise() {
    let mut a = SplitChunkSizes::empty();
    a.insert(SourceType::JavaScript, 10);
    a.insert(SourceType::Css, 4);
    let mut b = SplitChunkSizes::empty();
    b.insert(SourceType::JavaScript, 7);
    b.insert(SourceType::Wasm, 2);
    a.add_by(&b);
    assert_eq!(a.get(SourceType::JavaScript), Some(17));
    assert_eq!(a.get(SourceType::Css), Some(4));
    assert_eq!(a.get(SourceType::Wasm), Some(2));

    let mut c = SplitChunkSizes::empty();
    c.insert(SourceType::JavaScript, 3);
    a.subtract_by(&c);
    assert_eq!(a.get(SourceType::JavaScript), Some(14));
    assert_eq!(a.get(SourceType::Css), Some(4));
}

#[test]
fn sizes_with_initial_value_covers_the_listed_types() {
    let types = [SourceType::JavaScript, SourceType::Css];
    let s = SplitChunkSizes::with_initial_value(&types, 2048);
    assert_eq!(s.get(SourceType::JavaScript), Some(2048));
    assert_eq!(s.get(SourceType::Css), Some(2048));
    assert_eq!(s.get(SourceType::Asset), None);
    assert!(s.contains_key(SourceType::Css));
    assert!(!s.contains_key(SourceType::Unknown));
}

#[test]
fn sizes_insert_overwrites() {
    let mut s = SplitChunkSizes::empty();
    s.insert(SourceType::JavaScript, 1);
    s.insert(SourceType::JavaScript, 9);
    assert_eq!(s.get(SourceType::JavaScript), Some(9));
}
