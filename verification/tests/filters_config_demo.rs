use chunk_graph::chunk::Chunk;
use chunk_graph::chunk_group::{ChunkGroup, ChunkGroupByUkey, ChunkGroupKind};
use chunk_graph::config::{
    add_entry_runtime, default_chunk_filename, default_entry, default_optimization_module_ids,
    default_optimization_side_effects, default_public_path, default_target,
    enable_runtime_by_default, true_by_default, EntryItem, Optimization, Output, TestConfig,
};
use chunk_graph::demo::{DemoPlugin, DemoPluginOptions, PackageVersionCounts, RawDemoPluginOptions};
use chunk_graph::filters::{
    create_all_chunk_filter, create_async_chunk_filter, create_chunk_filter_from_str,
    create_default_module_layer_filter, create_default_module_type_filter,
    create_initial_chunk_filter, create_regex_chunk_filter_from_str, ChunkFilter,
    ModuleLayerFilter, ModuleTypeFilter,
};
use chunk_graph::filters::FallbackCacheGroup;
use chunk_graph::options::EntryOptions;
use chunk_graph::sizes::{SourceType, SplitChunkSizes};

fn registry_with_initial_and_async() -> ChunkGroupByUkey {
    let mut reg = ChunkGroupByUkey::new();
    reg.add(ChunkGroup::new(
        0,
        ChunkGroupKind::new_entrypoint(true, Box::new(EntryOptions::unset())),
    ));
    reg.add(ChunkGroup::new(
        1,
        ChunkGroupKind::new_entrypoint(false, Box::new(EntryOptions::unset())),
    ));
    reg
}

#[test]
fn chunk_filters_follow_loading_capability() {
    let reg = registry_with_initial_and_async();
    let mut initial_chunk = Chunk::new(0);
    initial_chunk.add_group(0);
    let mut async_chunk = Chunk::new(1);
    async_chunk.add_group(1);

    assert!(initial_chunk.can_be_initial(&reg));
    assert!(!async_chunk.can_be_initial(&reg));

    let all = create_all_chunk_filter();
    let initial = create_initial_chunk_filter();
    let asynchronous = create_async_chunk_filter();
    assert!(all.eval(&initial_chunk, &reg));
    assert!(all.eval(&async_chunk, &reg));
    assert!(initial.eval(&initial_chunk, &reg));
    assert!(!initial.eval(&async_chunk, &reg));
    assert!(!asynchronous.eval(&initial_chunk, &reg));
    assert!(asynchronous.eval(&async_chunk, &reg));
}

#[test]
fn chunk_filter_from_recognized_tags() {
    assert!(matches!(create_chunk_filter_from_str("initial"), ChunkFilter::Initial));
    assert!(matches!(create_chunk_filter_from_str("async"), ChunkFilter::Async));
    assert!(matches!(create_chunk_filter_from_str("all"), ChunkFilter::All));
}

#[test]
fn pattern_filter_matches_named_chunks_only() {
    let reg = registry_with_initial_and_async();
    let filter = create_regex_chunk_filter_from_str("^main").unwrap();

    let mut named = Chunk::new(0);
    named.add_group(0);
    named.name = Some(String::from("main-page"));
    assert!(filter.eval(&named, &reg));

    let mut other = Chunk::new(1);
    other.add_group(0);
    other.name = Some(String::from("vendor"));
    assert!(!filter.eval(&other, &reg));

    let mut unnamed = Chunk::new(2);
    unnamed.add_group(0);
    assert!(!filter.eval(&unnamed, &reg));

    // an invalid pattern is rejected at construction
    assert!(create_regex_chunk_filter_from_str("(unclosed").is_none());
}

#[test]
fn default_module_filters_accept_everything() {
    let tf: ModuleTypeFilter = create_default_module_type_filter();
    assert!(tf.eval("javascript/auto"));
    let lf: ModuleLayerFilter = create_default_module_layer_filter();
    assert!(lf.eval(Some(&String::from("modern"))));
    assert!(lf.eval(None));
}

#[test]
fn config_defaults_match_the_fixture_loader() {
    assert_eq!(default_public_path(), "auto");
    assert_eq!(default_target(), vec!["web", "es2022"]);
    assert_eq!(enable_runtime_by_default().as_deref(), Some("runtime"));
    assert_eq!(default_chunk_filename(), "[name][ext]");
    assert_eq!(default_optimization_module_ids(), "named");
    assert_eq!(default_optimization_side_effects(), "false");
    assert!(true_by_default());

    let entry = default_entry();
    assert_eq!(entry.len(), 1);
    assert_eq!(entry[0].0, "main");
    assert_eq!(entry[0].1.import, vec!["./index"]);
    assert_eq!(entry[0].1.runtime, None);

    let out = Output::default();
    assert_eq!(out.public_path, "auto");
    assert_eq!(out.css_chunk_filename, "[name][ext]");

    let opt = Optimization::default();
    assert!(opt.remove_available_modules);
    assert_eq!(opt.module_ids, "named");

    let cfg = TestConfig::default();
    assert_eq!(cfg.entry.len(), 1);
    assert_eq!(cfg.devtool, "");
    assert_eq!(cfg.builtins.css.modules.locals_convention, "asIs");
    assert_eq!(
        cfg.builtins.css.modules.local_ident_name,
        "[path][name][ext]__[local]"
    );
}

#[test]
fn add_entry_runtime_sets_every_entry() {
    let mut cfg = TestConfig::default();
    cfg.entry.push((
        String::from("admin"),
        EntryItem { import: vec![String::from("./admin")], runtime: None },
    ));
    let cfg = add_entry_runtime(cfg);
    assert_eq!(cfg.entry.len(), 2);
    for (_, item) in &cfg.entry {
        assert_eq!(item.runtime.as_deref(), Some("runtime"));
    }
    assert_eq!(cfg.entry[1].1.import, vec!["./admin"]);
    assert_eq!(cfg.entry[0].0, "main");
}

#[test]
fn demo_plugin_carries_its_options() {
    let raw = RawDemoPluginOptions { name: String::from("demo") };
    let options: DemoPluginOptions = raw.into();
    let plugin = DemoPlugin::new(options);
    assert_eq!(plugin.options.name, "demo");
}

#[test]
fn package_counts_detect_duplicate_versions() {
    let mut counts = PackageVersionCounts::new();
    counts.record("lodash", "4.17.21");
    counts.record("lodash", "4.17.21");
    counts.record("react", "18.2.0");
    assert!(!counts.has_duplicate_versions("lodash"));
    assert!(!counts.has_duplicate_versions("react"));
    assert!(!counts.has_duplicate_versions("absent"));

    counts.record("lodash", "3.10.1");
    assert!(counts.has_duplicate_versions("lodash"));
    assert!(!counts.has_duplicate_versions("react"));
}

#[test]
fn fallback_cache_group_carries_its_configuration() {
    let mut min_size = SplitChunkSizes::empty();
    min_size.insert(SourceType::JavaScript, 20000);
    let group = FallbackCacheGroup {
        chunks_filter: create_all_chunk_filter(),
        min_size,
        max_async_size: SplitChunkSizes::empty(),
        max_initial_size: SplitChunkSizes::empty(),
        automatic_name_delimiter: String::from("~"),
    };
    assert!(matches!(group.chunks_filter, ChunkFilter::All));
    assert_eq!(group.min_size.get(SourceType::JavaScript), Some(20000));
    assert_eq!(group.automatic_name_delimiter, "~");
}

#[test]
fn registries_assign_identifiers_in_order() {
    let mut groups = ChunkGroupByUkey::new();
    assert_eq!(groups.len(), 0);
    assert_eq!(groups.next_ukey(), 0);
    groups.add(ChunkGroup::new(
        0,
        ChunkGroupKind::new_entrypoint(true, Box::new(EntryOptions::unset())),
    ));
    assert_eq!(groups.next_ukey(), 1);
    assert!(groups.get(0).is_some());
    assert!(groups.get(1).is_none());
    assert!(groups.expect_get(0).is_initial());

    let mut chunks = chunk_graph::chunk::ChunkByUkey::new();
    let c = Chunk::new(chunks.next_ukey());
    assert_eq!(c.ukey(), 0);
    assert_eq!(chunks.add(c), 0);
    assert_eq!(chunks.expect_get(0).ukey, 0);
    assert!(chunks.get(3).is_none());
    assert_eq!(chunks.len(), 1);
}
