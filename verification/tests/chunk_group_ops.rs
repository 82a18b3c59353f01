use chunk_graph::chunk::Chunk;
use chunk_graph::chunk_group::{ChunkGroup, ChunkGroupByUkey, ChunkGroupKind};
use chunk_graph::options::{ChunkGroupOptions, ChunkGroupOrderKey, EntryOptions};

fn normal_group(ukey: u32, preload: Option<i32>, prefetch: Option<i32>) -> ChunkGroup {
    ChunkGroup::new(
        ukey,
        ChunkGroupKind::Normal {
            options: ChunkGroupOptions::new(None, preload, prefetch, None),
        },
    )
}

fn entry_group(ukey: u32, initial: bool) -> ChunkGroup {
    ChunkGroup::new(
        ukey,
        ChunkGroupKind::new_entrypoint(initial, Box::new(EntryOptions::unset())),
    )
}

fn assert_no_duplicates(chunks: &Vec<u32>) {
    for i in 0..chunks.len() {
        for j in 0..chunks.len() {
            if i != j {
                assert_ne!(chunks[i], chunks[j]);
            }
        }
    }
}

#[test]
fn connect_remove_replace_keep_chunks_duplicate_free() {
    let mut g = normal_group(0, None, None);
    let mut c1 = Chunk::new(1);
    let mut c2 = Chunk::new(2);
    let mut c3 = Chunk::new(3);
    g.connect_chunk(&mut c1);
    g.connect_chunk(&mut c2);
    g.connect_chunk(&mut c3);
    assert_eq!(g.chunks, vec![1, 2, 3]);
    assert_no_duplicates(&g.chunks);
    assert!(c1.groups.contains(0));

    assert!(g.remove_chunk(&2));
    assert_eq!(g.chunks, vec![1, 3]);
    assert!(!g.remove_chunk(&2));
    assert_eq!(g.chunks.len(), 2);
    assert_no_duplicates(&g.chunks);

    assert!(g.replace_chunk(&1, &9));
    assert_eq!(g.chunks, vec![9, 3]);
    assert_no_duplicates(&g.chunks);
    // replacing with an already present chunk keeps exactly one occurrence
    assert!(g.replace_chunk(&9, &3));
    assert_eq!(g.chunks, vec![3]);
    assert_no_duplicates(&g.chunks);
}

#[test]
fn unshift_chunk_is_idempotent() {
    let mut g = normal_group(0, None, None);
    let mut c5 = Chunk::new(5);
    let mut c7 = Chunk::new(7);
    g.connect_chunk(&mut c5);
    g.connect_chunk(&mut c7);
    assert_eq!(g.chunks, vec![5, 7]);

    // present chunk: moved to the front, membership unchanged
    assert!(!g.unshift_chunk(&mut c7));
    assert_eq!(g.chunks[0], 7);
    assert_eq!(g.chunks, vec![7, 5]);
    // second call changes nothing and still reports no new membership
    assert!(!g.unshift_chunk(&mut c7));
    assert_eq!(g.chunks[0], 7);
    assert_eq!(g.chunks, vec![7, 5]);

    // absent chunk: inserted at the front, membership new
    let mut c9 = Chunk::new(9);
    assert!(g.unshift_chunk(&mut c9));
    assert_eq!(g.chunks, vec![9, 7, 5]);
    assert!(!g.unshift_chunk(&mut c9));
    assert_eq!(g.chunks, vec![9, 7, 5]);
}

#[test]
fn insert_chunk_then_removing_marker_keeps_position() {
    // fresh insertion before the marker
    let mut g = normal_group(0, None, None);
    let mut c1 = Chunk::new(1);
    let mut c2 = Chunk::new(2);
    let mut c3 = Chunk::new(3);
    g.connect_chunk(&mut c1);
    g.connect_chunk(&mut c2);
    g.connect_chunk(&mut c3);
    assert!(g.insert_chunk(4, 2));
    assert_eq!(g.chunks, vec![1, 4, 2, 3]);
    let marker_pos = g.chunks.iter().position(|u| *u == 2).unwrap();
    assert!(g.remove_chunk(&2));
    assert_eq!(g.chunks[marker_pos - 1], 4);

    // a chunk sitting after the marker is moved before it
    let mut h = normal_group(1, None, None);
    let mut d1 = Chunk::new(1);
    let mut d2 = Chunk::new(2);
    let mut d4 = Chunk::new(4);
    h.connect_chunk(&mut d1);
    h.connect_chunk(&mut d2);
    h.connect_chunk(&mut d4);
    assert!(!h.insert_chunk(4, 2));
    assert_eq!(h.chunks, vec![1, 4, 2]);
    assert!(h.remove_chunk(&2));
    assert_eq!(h.chunks, vec![1, 4]);
}

#[test]
fn replace_chunk_absent_and_earlier_cases() {
    // neither chunk present: no change, reports false
    let mut g = normal_group(0, None, None);
    let mut c1 = Chunk::new(1);
    let mut c2 = Chunk::new(2);
    g.connect_chunk(&mut c1);
    g.connect_chunk(&mut c2);
    assert!(!g.replace_chunk(&5, &6));
    assert_eq!(g.chunks, vec![1, 2]);

    // both present, replacement earlier: length shrinks by one and the
    // replacement keeps its earlier position
    let mut h = normal_group(1, None, None);
    let mut d6 = Chunk::new(6);
    let mut d1 = Chunk::new(1);
    let mut d5 = Chunk::new(5);
    h.connect_chunk(&mut d6);
    h.connect_chunk(&mut d1);
    h.connect_chunk(&mut d5);
    let before = h.chunks.len();
    assert!(h.replace_chunk(&5, &6));
    assert_eq!(h.chunks.len(), before - 1);
    assert_eq!(h.chunks[0], 6);
    assert_eq!(h.chunks, vec![6, 1]);
}

#[test]
fn replace_chunk_substitutes_runtime_and_entrypoint_slots() {
    let mut g = entry_group(0, true);
    let mut c5 = Chunk::new(5);
    g.connect_chunk(&mut c5);
    g.set_runtime_chunk(5);
    g.set_entrypoint_chunk(5);
    assert!(g.replace_chunk(&5, &8));
    assert_eq!(g.runtime_chunk, Some(8));
    assert_eq!(g.entrypoint_chunk, Some(8));
    assert_eq!(g.chunks, vec![8]);
    assert_eq!(g.get_entrypoint_chunk(), 8);
}

#[test]
fn ancestors_terminates_on_parent_cycle() {
    let mut reg = ChunkGroupByUkey::new();
    let mut a = normal_group(0, None, None);
    let mut b = normal_group(1, None, None);
    a.add_parent(1);
    b.add_parent(0);
    reg.add(a);
    reg.add(b);
    let from_a = reg.expect_get(0).ancestors(&reg);
    assert_eq!(from_a.len(), 2);
    assert!(from_a.contains(0));
    assert!(from_a.contains(1));
}

#[test]
fn ancestors_collects_transitive_parents_only() {
    let mut reg = ChunkGroupByUkey::new();
    let mut child = normal_group(0, None, None);
    let mut mid = normal_group(1, None, None);
    let top = normal_group(2, None, None);
    let stranger = normal_group(3, None, None);
    child.add_parent(1);
    mid.add_parent(2);
    reg.add(child);
    reg.add(mid);
    reg.add(top);
    reg.add(stranger);
    let anc = reg.expect_get(0).ancestors(&reg);
    assert_eq!(anc.len(), 2);
    assert!(anc.contains(1));
    assert!(anc.contains(2));
    assert!(!anc.contains(0));
    assert!(!anc.contains(3));
}

#[test]
fn runtime_chunk_resolves_through_entrypoint_parents() {
    let mut reg = ChunkGroupByUkey::new();
    let mut root = entry_group(0, true);
    root.set_runtime_chunk(42);
    let mut leaf = entry_group(1, false);
    leaf.add_parent(0);
    reg.add(root);
    reg.add(leaf);
    assert_eq!(reg.expect_get(0).get_runtime_chunk(&reg), 42);
    assert_eq!(reg.expect_get(1).get_runtime_chunk(&reg), 42);
}

#[test]
fn children_by_orders_sorts_descending_with_tie_break() {
    let mut reg = ChunkGroupByUkey::new();
    let mut parent = normal_group(0, None, None);
    let child_a = normal_group(1, Some(3), None);
    let child_b = normal_group(2, Some(1), None);
    let child_c = normal_group(3, Some(3), None);
    parent.add_child(1);
    parent.add_child(2);
    parent.add_child(3);
    reg.add(normal_group(0, None, None));
    reg.add(child_a);
    reg.add(child_b);
    reg.add(child_c);
    // the injected total order places group 3 before group 1
    let tie_break = vec![3u32, 1u32];
    let orders = parent.get_children_by_orders(&reg, &tie_break);
    assert_eq!(orders.preload, vec![3, 1, 2]);
    assert_eq!(orders.prefetch, Vec::<u32>::new());
    assert_eq!(orders.get(ChunkGroupOrderKey::Preload), &vec![3, 1, 2]);

    // with the opposite tie break the two order-3 children swap
    let tie_break2 = vec![1u32, 3u32];
    let orders2 = parent.get_children_by_orders(&reg, &tie_break2);
    assert_eq!(orders2.preload, vec![1, 3, 2]);
}

#[test]
fn add_child_and_parent_report_new_relationships() {
    let mut g = normal_group(0, None, None);
    assert!(g.add_child(7));
    assert!(!g.add_child(7));
    assert!(g.add_child(4));
    assert_eq!(g.children_iterable(), vec![7, 4]);
    assert!(g.add_parent(9));
    assert!(!g.add_parent(9));
    assert_eq!(g.parents_iterable(), vec![9]);
    assert!(g.add_async_entrypoint(3));
    assert!(!g.add_async_entrypoint(3));
    assert_eq!(g.async_entrypoints_iterable(), vec![3]);
}

#[test]
fn group_files_and_id_come_from_the_chunk_registry() {
    let mut chunks = chunk_graph::chunk::ChunkByUkey::new();
    let mut c0 = Chunk::new(0);
    c0.files.push(String::from("a.js"));
    c0.id = Some(String::from("alpha"));
    let mut c1 = Chunk::new(1);
    c1.files.push(String::from("b.js"));
    c1.files.push(String::from("b.css"));
    let mut c2 = Chunk::new(2);
    c2.id = Some(String::from("gamma"));
    chunks.add(c0);
    chunks.add(c1);
    chunks.add(c2);

    let mut g = normal_group(0, None, None);
    let mut m0 = Chunk::new(0);
    let mut m1 = Chunk::new(1);
    let mut m2 = Chunk::new(2);
    g.connect_chunk(&mut m0);
    g.connect_chunk(&mut m1);
    g.connect_chunk(&mut m2);

    assert_eq!(g.get_files(&chunks), vec!["a.js", "b.js", "b.css"]);
    // the chunk without an id is skipped
    assert_eq!(g.id(&chunks), "alpha+gamma");
}

#[test]
fn module_order_indices_look_up_recorded_modules() {
    let mut g = normal_group(0, None, None);
    g.module_pre_order_indices.push((String::from("m1"), 4));
    g.module_post_order_indices.push((String::from("m1"), 9));
    assert_eq!(g.module_pre_order_index(&String::from("m1")), Some(4));
    assert_eq!(g.module_pre_order_index(&String::from("m2")), None);
    assert_eq!(g.module_post_order_index(&String::from("m1")), Some(9));
    assert_eq!(g.module_post_order_index(&String::from("m2")), None);
}

#[test]
fn origins_accumulate_in_order() {
    let mut g = normal_group(0, None, None);
    g.add_origin(Some(String::from("mod-a")), None, Some(String::from("./a")));
    g.add_origin(None, Some(String::from("3:14")), None);
    let origins = g.origins();
    assert_eq!(origins.len(), 2);
    assert_eq!(origins[0].module.as_deref(), Some("mod-a"));
    assert_eq!(origins[0].request.as_deref(), Some("./a"));
    assert_eq!(origins[1].loc.as_deref(), Some("3:14"));
}

#[test]
fn kind_accessors_distinguish_entrypoints() {
    let e = entry_group(0, true);
    assert!(e.is_initial());
    assert!(e.kind.is_entrypoint());
    assert!(e.kind.get_entry_options().is_some());
    assert!(e.kind.get_normal_options().is_none());

    let n = normal_group(
        1,
        Some(2),
        None,
    );
    assert!(!n.is_initial());
    assert!(!n.kind.is_entrypoint());
    assert!(n.kind.get_entry_options().is_none());
    assert!(n.kind.get_normal_options().is_some());

    let mut opts = ChunkGroupOptions::new(Some(String::from("lazy")), None, None, None);
    opts = opts.name_optional(Some(String::from("lazier")));
    let named = ChunkGroup::new(2, ChunkGroupKind::Normal { options: opts });
    assert_eq!(named.name(), Some("lazier"));
    assert_eq!(e.name(), None);
}

#[test]
fn set_is_over_size_limit_caches_the_verdict() {
    let mut g = normal_group(0, None, None);
    assert_eq!(g.is_over_size_limit, None);
    g.set_is_over_size_limit(true);
    assert_eq!(g.is_over_size_limit, Some(true));
}
