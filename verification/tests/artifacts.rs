//! The artifact store, bundle ingestion, specialization, and reload
//! propagation.

use bevy_rust_gpu::asset::{AssetEvent, HandleId};
use bevy_rust_gpu::builder_output::{
    builder_output_events, RustGpuArtifact, RustGpuArtifacts, RustGpuBuilderModules,
    RustGpuBuilderOutput, RustGpuModules, ShaderAssets,
};
use bevy_rust_gpu::entry_point_export::EntryPointExportContainer;
use bevy_rust_gpu::rust_gpu::{
    reload_materials, RenderPipelineDescriptor, RustGpu, RustGpuKey, StageDescriptor,
};
use bevy_rust_gpu::rust_gpu_material::RustGpuMaterial;
use bevy_rust_gpu::bevy_pbr_rust::{MeshFragment, MeshVertex};
use bevy_rust_gpu::shader_def::ShaderDefVal;
use bevy_rust_gpu::systems;
use bevy_rust_gpu::systems::ChangedShaders;

struct TestMat;

impl RustGpuMaterial for TestMat {
    type Vertex = MeshVertex;

    type Fragment = MeshFragment;
}

fn artifact(entry_points: &[&str], module: HandleId) -> RustGpuArtifact {
    RustGpuArtifact {
        entry_points: entry_points.iter().map(|s| s.to_string()).collect(),
        modules: RustGpuModules::Single(module),
    }
}

#[test]
fn store_get_returns_whole_new_artifact_after_upsert() {
    let mut store = RustGpuArtifacts::new();
    let h = HandleId(7);
    store.upsert(h, artifact(&["frag__none"], HandleId(100)));
    store.upsert(h, artifact(&["frag__some"], HandleId(200)));
    let got = store.get(h).expect("stored");
    // The replacement is wholesale: entry points and module come from the
    // same (new) artifact, never a mix.
    assert_eq!(got.entry_points, vec!["frag__some".to_string()]);
    assert_eq!(got.modules, RustGpuModules::Single(HandleId(200)));
}

#[test]
fn store_removed_handle_misses_cleanly() {
    let mut store = RustGpuArtifacts::new();
    let h = HandleId(1);
    store.upsert(h, artifact(&["a"], HandleId(10)));
    store.remove(h);
    assert!(store.get(h).is_none());
    // Removing again is a no-op, not an error.
    store.remove(h);
    assert!(store.get(h).is_none());
    // Unrelated handles are untouched.
    let other = HandleId(2);
    store.upsert(other, artifact(&["b"], HandleId(20)));
    store.remove(h);
    assert!(store.get(other).is_some());
}

#[test]
fn multi_module_artifact_looks_up_by_symbol() {
    let art = RustGpuArtifact {
        entry_points: vec!["a".to_string(), "b".to_string()],
        modules: RustGpuModules::Multi(vec![
            ("a".to_string(), HandleId(1)),
            ("b".to_string(), HandleId(2)),
        ]),
    };
    assert_eq!(art.module_for(&"b".to_string()), Some(HandleId(2)));
    assert_eq!(art.module_for(&"c".to_string()), None);
    assert!(art.has_entry_point(&"a".to_string()));
    assert!(!art.has_entry_point(&"c".to_string()));
}

#[test]
fn shader_registry_registers_each_distinct_module_once() {
    let mut shaders = ShaderAssets::new();
    let h1 = shaders.add(vec![1, 2, 3]);
    let h2 = shaders.add(vec![4, 5]);
    let h3 = shaders.add(vec![1, 2, 3]);
    assert_ne!(h1, h2);
    assert_eq!(h1, h3);
    assert_eq!(shaders.entries.len(), 2);
}

#[test]
fn builder_events_ingest_and_evict() {
    let h = HandleId(9);
    let outputs = vec![(
        h,
        RustGpuBuilderOutput {
            entry_points: vec!["frag__none".to_string()],
            modules: RustGpuBuilderModules::Single(vec![0xAB, 0xCD]),
        },
    )];
    let mut store = RustGpuArtifacts::new();
    let mut shaders = ShaderAssets::new();

    let created = vec![AssetEvent::Created { handle: h }];
    builder_output_events(&created, &outputs, &mut store, &mut shaders);
    let art = store.get(h).expect("ingested").clone();
    assert_eq!(art.entry_points, vec!["frag__none".to_string()]);
    assert_eq!(shaders.entries.len(), 1);

    // A modification with unchanged bytes re-ingests without re-registering.
    let modified = vec![AssetEvent::Modified { handle: h }];
    builder_output_events(&modified, &outputs, &mut store, &mut shaders);
    assert_eq!(shaders.entries.len(), 1);

    let removed = vec![AssetEvent::Removed { handle: h }];
    builder_output_events(&removed, &outputs, &mut store, &mut shaders);
    assert!(store.get(h).is_none());
}

fn fragment_descriptor() -> RenderPipelineDescriptor {
    RenderPipelineDescriptor {
        label: Some("opaque_pass".to_string()),
        vertex: StageDescriptor {
            shader: HandleId(1000),
            entry_point: "default_vertex".to_string(),
            shader_defs: Vec::new(),
        },
        fragment: Some(StageDescriptor {
            shader: HandleId(2000),
            entry_point: "default_fragment".to_string(),
            shader_defs: vec![ShaderDefVal::Bool("VERTEX_UVS".to_string(), true)],
        }),
    }
}

#[test]
fn specialize_binds_resolved_fragment_stage() {
    let h1 = HandleId(42);
    let module = HandleId(77);
    let mut store = RustGpuArtifacts::new();
    // MeshFragment has no parameters: its symbol is the bare base name.
    store.upsert(h1, artifact(&["mesh::entry_points::fragment"], module));

    let mut descriptor = fragment_descriptor();
    let key: RustGpuKey<TestMat> = RustGpuKey {
        base: TestMat,
        vertex_shader: None,
        fragment_shader: Some(h1),
        iteration: 0,
    };
    let mut sink = EntryPointExportContainer::new(4);
    RustGpu::<TestMat>::specialize_generic(&mut descriptor, &key, &store, &mut sink, false);

    let fragment = descriptor.fragment.expect("still present");
    assert_eq!(fragment.shader, module);
    assert_eq!(fragment.entry_point, "mesh::entry_points::fragment");
    assert!(fragment.shader_defs.is_empty());
    // No vertex handle was bound, so the vertex stage is untouched.
    assert_eq!(descriptor.vertex.entry_point, "default_vertex");
    assert_eq!(descriptor.label, Some("rust_gpu_opaque_pass".to_string()));
}

#[test]
fn specialize_falls_back_on_stale_symbol() {
    let h1 = HandleId(42);
    let mut store = RustGpuArtifacts::new();
    // The artifact only knows `foo__a`; the computed symbol differs, so the
    // stage must stay at the host default.
    store.upsert(h1, artifact(&["foo__a"], HandleId(77)));

    let mut descriptor = fragment_descriptor();
    let expected = descriptor.clone();
    let key: RustGpuKey<TestMat> = RustGpuKey {
        base: TestMat,
        vertex_shader: None,
        fragment_shader: Some(h1),
        iteration: 3,
    };
    let mut sink = EntryPointExportContainer::new(4);
    RustGpu::<TestMat>::specialize_generic(&mut descriptor, &key, &store, &mut sink, false);

    assert_eq!(descriptor.vertex, expected.vertex);
    assert_eq!(descriptor.fragment, expected.fragment);
}

#[test]
fn specialize_falls_back_on_missing_artifact() {
    let store = RustGpuArtifacts::new();
    let mut descriptor = fragment_descriptor();
    let expected = descriptor.clone();
    let key: RustGpuKey<TestMat> = RustGpuKey {
        base: TestMat,
        vertex_shader: None,
        fragment_shader: Some(HandleId(5)),
        iteration: 0,
    };
    let mut sink = EntryPointExportContainer::new(4);
    RustGpu::<TestMat>::specialize_generic(&mut descriptor, &key, &store, &mut sink, false);
    assert_eq!(descriptor.fragment, expected.fragment);
}

#[test]
fn specialize_binds_vertex_stage() {
    let hv = HandleId(3);
    let module = HandleId(55);
    let mut store = RustGpuArtifacts::new();
    store.upsert(
        hv,
        artifact(&["mesh::entry_points::vertex__none__none__none"], module),
    );

    let mut descriptor = RenderPipelineDescriptor {
        label: None,
        vertex: StageDescriptor {
            shader: HandleId(1000),
            entry_point: "default_vertex".to_string(),
            shader_defs: Vec::new(),
        },
        fragment: None,
    };
    let key: RustGpuKey<TestMat> = RustGpuKey {
        base: TestMat,
        vertex_shader: Some(hv),
        fragment_shader: None,
        iteration: 0,
    };
    let mut sink = EntryPointExportContainer::new(4);
    RustGpu::<TestMat>::specialize_generic(&mut descriptor, &key, &store, &mut sink, false);

    assert_eq!(descriptor.vertex.shader, module);
    assert_eq!(
        descriptor.vertex.entry_point,
        "mesh::entry_points::vertex__none__none__none"
    );
    assert!(descriptor.label.is_none());
}

fn material(v: Option<HandleId>, f: Option<HandleId>) -> RustGpu<u32> {
    RustGpu { base: 0u32, vertex_shader: v, fragment_shader: f, iteration: 0 }
}

#[test]
fn reload_bumps_iteration_once_per_matching_event() {
    let h = HandleId(1);
    let other = HandleId(2);
    let mut materials = vec![
        material(Some(h), None),
        material(None, Some(h)),
        material(Some(h), Some(h)),
        material(Some(other), None),
        material(None, None),
    ];
    let events = vec![AssetEvent::Created { handle: h }];
    reload_materials(&events, &mut materials);
    assert_eq!(materials[0].iteration, 1);
    assert_eq!(materials[1].iteration, 1);
    // Both stages match, but the event still counts once.
    assert_eq!(materials[2].iteration, 1);
    assert_eq!(materials[3].iteration, 0);
    assert_eq!(materials[4].iteration, 0);

    // A second, distinct event for the same handle bumps again; removal
    // events do not.
    let more = vec![
        AssetEvent::Modified { handle: h },
        AssetEvent::Removed { handle: h },
    ];
    reload_materials(&more, &mut materials);
    assert_eq!(materials[0].iteration, 2);
    assert_eq!(materials[3].iteration, 0);
}

#[test]
fn systems_reload_consumes_change_markers() {
    let h = HandleId(4);
    let mut changed = ChangedShaders::new();
    changed.insert(h);
    let mut materials = vec![material(Some(h), None), material(None, None)];
    systems::reload_materials(&mut changed, &mut materials);
    assert_eq!(materials[0].iteration, 1);
    assert_eq!(materials[1].iteration, 0);
    assert!(!changed.contains(h));

    // The markers were cleared, so a second pass changes nothing.
    systems::reload_materials(&mut changed, &mut materials);
    assert_eq!(materials[0].iteration, 1);
}

#[test]
fn builder_events_ingest_multi_module_bundle() {
    let h = HandleId(11);
    let outputs = vec![(
        h,
        RustGpuBuilderOutput {
            entry_points: vec!["a".to_string(), "b".to_string()],
            modules: RustGpuBuilderModules::Multi(vec![
                ("a".to_string(), vec![1]),
                ("b".to_string(), vec![2]),
            ]),
        },
    )];
    let mut store = RustGpuArtifacts::new();
    let mut shaders = ShaderAssets::new();
    let events = vec![AssetEvent::Created { handle: h }];
    builder_output_events(&events, &outputs, &mut store, &mut shaders);

    let art = store.get(h).expect("ingested");
    match &art.modules {
        RustGpuModules::Multi(pairs) => {
            assert_eq!(pairs.len(), 2);
            assert_eq!(pairs[0].0, "a");
            assert_ne!(pairs[0].1, pairs[1].1);
        }
        RustGpuModules::Single(_) => panic!("expected a multi-module artifact"),
    }
    assert_eq!(shaders.entries.len(), 2);
}

#[test]
fn specialize_reports_to_attached_sink() {
    let hv = HandleId(3);
    let store = RustGpuArtifacts::new();
    let mut descriptor = RenderPipelineDescriptor {
        label: None,
        vertex: StageDescriptor {
            shader: HandleId(1000),
            entry_point: "default_vertex".to_string(),
            shader_defs: vec![ShaderDefVal::Bool("SKINNED".to_string(), true)],
        },
        fragment: None,
    };
    let key: RustGpuKey<TestMat> = RustGpuKey {
        base: TestMat,
        vertex_shader: Some(hv),
        fragment_shader: None,
        iteration: 0,
    };
    let mut sink = EntryPointExportContainer::new(4);
    RustGpu::<TestMat>::specialize_generic(&mut descriptor, &key, &store, &mut sink, true);

    // The artifact is missing, so the stage falls back — but the requested
    // permutation is still reported.
    assert_eq!(descriptor.vertex.entry_point, "default_vertex");
    assert_eq!(sink.queue.len(), 1);
    assert_eq!(sink.queue[0].shader, "mesh::entry_points::vertex");
    assert_eq!(
        sink.queue[0].permutation,
        vec!["none".to_string(), "none".to_string(), "some".to_string()]
    );
}

#[test]
fn specialize_without_sink_queues_nothing() {
    let store = RustGpuArtifacts::new();
    let mut descriptor = fragment_descriptor();
    let key: RustGpuKey<TestMat> = RustGpuKey {
        base: TestMat,
        vertex_shader: Some(HandleId(1)),
        fragment_shader: Some(HandleId(2)),
        iteration: 0,
    };
    let mut sink = EntryPointExportContainer::new(4);
    RustGpu::<TestMat>::specialize_generic(&mut descriptor, &key, &store, &mut sink, false);
    assert!(sink.queue.is_empty());
}
