//! The export sink, the metadata side-channel, and the composition types.

use bevy_rust_gpu::asset::{AssetEvent, HandleId};
use bevy_rust_gpu::entry_point_export::{
    EntryPointExport, EntryPointExportContainer, Export,
};
use bevy_rust_gpu::load_rust_gpu_shader::meta_path;
use bevy_rust_gpu::plugin::{EntryPointExportPlugin, RustGpuPlugin};
use bevy_rust_gpu::rust_gpu::{RustGpu, RustGpuSettings};
use bevy_rust_gpu::shader_def::ShaderDefVal;
use bevy_rust_gpu::shader_meta::{module_meta_events, ModuleMeta, ShaderMeta, ShaderMetaMap};
use bevy_rust_gpu::systems::{shader_events, ChangedShaders};

fn export(shader: &str, tokens: &[&str]) -> Export {
    Export {
        shader: shader.to_string(),
        permutation: tokens.iter().map(|s| s.to_string()).collect(),
        constants: Vec::new(),
        types: Vec::new(),
    }
}

#[test]
fn export_recording_is_idempotent() {
    let mut c = EntryPointExportContainer::new(8);
    assert!(c.try_send(export("mesh::vertex", &["some"])));
    assert!(c.try_send(export("mesh::vertex", &["some"])));
    assert!(c.try_send(export("mesh::vertex", &["none"])));
    c.drain();

    assert!(c.changed);
    assert!(c.queue.is_empty());
    assert_eq!(c.entry_points.entry_points.len(), 1);
    let (name, perms) = &c.entry_points.entry_points[0];
    assert_eq!(name, "mesh::vertex");
    // The duplicate report was a no-op: two distinct permutations remain.
    assert_eq!(perms.len(), 2);
    assert_eq!(perms[0].parameters, vec!["some".to_string()]);
    assert_eq!(perms[1].parameters, vec!["none".to_string()]);

    // Resending an identical triple after the fact changes nothing.
    c.changed = false;
    assert!(c.try_send(export("mesh::vertex", &["none"])));
    c.drain();
    assert!(!c.changed);
    assert_eq!(c.entry_points.entry_points[0].1.len(), 2);
}

#[test]
fn export_distinguishes_constants() {
    let mut c = EntryPointExportContainer::new(8);
    let mut with_const = export("pbr::frag", &["none"]);
    with_const.constants = vec![ShaderDefVal::UInt("MAX".to_string(), 4)];
    let _ = c.try_send(export("pbr::frag", &["none"]));
    let _ = c.try_send(with_const);
    c.drain();
    assert_eq!(c.entry_points.entry_points[0].1.len(), 2);
    // Constants are canonicalized as sorted (name, value) pairs.
    assert_eq!(
        c.entry_points.entry_points[0].1[1].constants,
        vec![("MAX".to_string(), "4".to_string())]
    );
}

#[test]
fn full_inbox_drops_reports() {
    let mut c = EntryPointExportContainer::new(1);
    assert!(c.try_send(export("a", &[])));
    assert!(!c.try_send(export("b", &[])));
    c.drain();
    assert_eq!(c.entry_points.entry_points.len(), 1);
    assert_eq!(c.entry_points.entry_points[0].0, "a");
}

#[test]
fn take_dirty_snapshots_and_clears() {
    let mut exports = EntryPointExport::new();
    exports.create_export_containers_system(&vec![
        "target_a.json".to_string(),
        "target_b.json".to_string(),
    ]);
    assert_eq!(exports.exports.len(), 2);

    exports.send(&"target_a.json".to_string(), export("mesh::vertex", &["some"]));
    exports.receive_entry_points_system();

    let dirty = exports.take_dirty();
    assert_eq!(dirty.len(), 1);
    assert_eq!(dirty[0].0, "target_a.json");
    assert_eq!(dirty[0].1.entry_points.len(), 1);

    // The flag was cleared, and nothing new arrived.
    let dirty_again = exports.take_dirty();
    assert!(dirty_again.is_empty());

    // Registration is idempotent.
    exports.create_export_containers_system(&vec!["target_a.json".to_string()]);
    assert_eq!(exports.exports.len(), 2);
}

#[test]
fn shader_meta_map_binds_both_directions() {
    let mut map = ShaderMetaMap::new();
    let shader = HandleId(1);
    let meta = HandleId(2);
    map.add(shader, meta);
    assert_eq!(map.meta(shader), Some(meta));
    assert_eq!(map.shader(meta), Some(shader));
    assert_eq!(map.meta(HandleId(99)), None);

    map.remove_by_shader(shader);
    assert_eq!(map.meta(shader), None);
    assert_eq!(map.shader(meta), None);

    map.add(shader, meta);
    map.remove_by_meta(meta);
    assert_eq!(map.meta(shader), None);
    assert_eq!(map.shader(meta), None);
}

fn meta(points: &[&str], module: &str) -> ModuleMeta {
    ModuleMeta {
        entry_points: points.iter().map(|s| s.to_string()).collect(),
        module: module.to_string(),
    }
}

#[test]
fn shader_meta_store_inserts_and_forgets() {
    let mut store = ShaderMeta::new();
    let h = HandleId(3);
    store.insert(h, meta(&["a"], "one.spv"));
    store.insert(h, meta(&["b"], "two.spv"));
    let got = store.get(h).expect("stored");
    assert_eq!(got.module, "two.spv");
    store.remove(h);
    assert!(store.get(h).is_none());
}

#[test]
fn shader_events_clear_meta_and_mark_changed() {
    let h = HandleId(5);
    let mut changed = ChangedShaders::new();
    let mut store = ShaderMeta::new();
    store.insert(h, meta(&["a"], "m.spv"));

    let events = vec![AssetEvent::Created { handle: h }];
    shader_events(&events, &mut changed, &mut store);
    assert!(changed.contains(h));
    // The cached metadata is dropped, in case shader and metadata load on
    // different frames.
    assert!(store.get(h).is_none());
}

#[test]
fn module_meta_events_update_bound_shader() {
    let shader = HandleId(10);
    let meta_handle = HandleId(20);
    let mut map = ShaderMetaMap::new();
    map.add(shader, meta_handle);

    let assets = vec![(meta_handle, meta(&["frag__none"], "mod.spv"))];
    let mut changed = ChangedShaders::new();
    let mut store = ShaderMeta::new();

    let events = vec![AssetEvent::Modified { handle: meta_handle }];
    module_meta_events(&events, &assets, &map, &mut changed, &mut store);

    assert!(changed.contains(shader));
    let got = store.get(shader).expect("updated");
    assert_eq!(got.entry_points, vec!["frag__none".to_string()]);

    // An event for an unbound metadata asset changes nothing.
    let other = vec![AssetEvent::Modified { handle: HandleId(999) }];
    let mut changed2 = ChangedShaders::new();
    module_meta_events(&other, &assets, &map, &mut changed2, &mut store);
    assert!(!changed2.contains(shader));
}

#[test]
fn meta_path_appends_json_suffix() {
    assert_eq!(meta_path(&"shaders/out.spv".to_string()), "shaders/out.spv.json");
}

#[test]
fn settings_and_export_registries() {
    let mut ctx = RustGpuPlugin {}.build();
    RustGpu::<u32>::map_settings(&mut ctx.settings, 1, |mut s: RustGpuSettings| {
        s.fallback_base_vertex = true;
        s
    });
    assert_eq!(
        ctx.settings.get(1),
        Some(RustGpuSettings { fallback_base_vertex: true, fallback_base_fragment: false })
    );
    assert_eq!(ctx.settings.get(2), None);

    RustGpu::<u32>::export_to(&mut ctx.material_exports, 1, "out.json".to_string());
    RustGpu::<u32>::export_to(&mut ctx.material_exports, 1, "replaced.json".to_string());
    assert_eq!(ctx.material_exports.entries.len(), 1);
    assert_eq!(ctx.material_exports.entries[0].1, "replaced.json");

    EntryPointExportPlugin {}.build(&mut ctx);
    assert_eq!(ctx.exports.exports.len(), 1);
    assert_eq!(ctx.exports.exports[0].0, "replaced.json");
}

#[test]
fn send_to_unregistered_path_is_dropped() {
    let mut exports = EntryPointExport::new();
    exports.create_export_containers_system(&vec!["known.json".to_string()]);
    exports.send(&"unknown.json".to_string(), export("a", &[]));
    exports.receive_entry_points_system();
    assert!(exports.take_dirty().is_empty());
}
