//! Composition of the render-extension state: one explicitly owned context
//! object, built at startup and handed to the specialization and reload
//! passes, replaces process-wide mutable statics.

use vstd::prelude::*;

use crate::builder_output::{RustGpuArtifacts, ShaderAssets};
use crate::entry_point_export::EntryPointExport;
use crate::rust_gpu::{MaterialExports, MaterialSettings};
use crate::shader_meta::{ShaderMeta, ShaderMetaMap};
use crate::systems::ChangedShaders;

verus! {

/// The render extension's whole mutable state: the artifact store, the
/// shader registry, the export targets and registries, the metadata store
/// and binding, and the aggregated change markers.
#[derive(Debug)]
pub struct RustGpuContext {
    pub artifacts: RustGpuArtifacts,
    pub shaders: ShaderAssets,
    pub exports: EntryPointExport,
    pub material_exports: MaterialExports,
    pub settings: MaterialSettings,
    pub shader_meta: ShaderMeta,
    pub shader_meta_map: ShaderMetaMap,
    pub changed_shaders: ChangedShaders,
}

impl RustGpuContext {
    /// Every component is well-formed.
    pub open spec fn wf(self) -> bool {
        self.artifacts.wf() && self.shaders.wf() && self.exports.wf()
            && self.material_exports.wf() && self.settings.wf() && self.shader_meta.wf()
            && self.shader_meta_map.wf()
    }

    /// A fresh, empty context.
    pub fn new() -> (r: Self)
        ensures
            r.wf(),
    {
        RustGpuContext {
            artifacts: RustGpuArtifacts::new(),
            shaders: ShaderAssets::new(),
            exports: EntryPointExport::new(),
            material_exports: MaterialExports::new(),
            settings: MaterialSettings::new(),
            shader_meta: ShaderMeta::new(),
            shader_meta_map: ShaderMetaMap::new(),
            changed_shaders: ChangedShaders::new(),
        }
    }
}

/// The main plugin: builds the context every other component works on.
#[derive(Debug, Clone, Copy, PartialEq, Eq)]
pub struct RustGpuPlugin {}

impl RustGpuPlugin {
    /// Builds a fresh context for the render extension.
    pub fn build(&self) -> (r: RustGpuContext)
        ensures
            r.wf(),
    {
        RustGpuContext::new()
    }
}

/// Marks that decoded builder bundles are wired into the context: the host
/// delivers their asset events to `builder_output_events` each pass.
#[derive(Debug, Clone, Copy, PartialEq, Eq)]
pub struct BuilderOutputPlugin {}

/// Wires the export sink in: registers an export container for every path
/// a material kind has been routed to.
#[derive(Debug, Clone, Copy, PartialEq, Eq)]
pub struct EntryPointExportPlugin {}

impl EntryPointExportPlugin {
    /// Creates the export containers for every registered export path.
    pub fn build(&self, ctx: &mut RustGpuContext)
        requires
            old(ctx).wf(),
        ensures
            final(ctx).wf(),
            forall|k: int|
                0 <= k < old(ctx).material_exports.entries@.len()
                    ==> final(ctx).exports.has_target(
                    (#[trigger] old(ctx).material_exports.entries@[k]).1@,
                ),
            final(ctx).artifacts == old(ctx).artifacts,
            final(ctx).shaders == old(ctx).shaders,
            final(ctx).material_exports == old(ctx).material_exports,
            final(ctx).settings == old(ctx).settings,
            final(ctx).shader_meta == old(ctx).shader_meta,
            final(ctx).shader_meta_map == old(ctx).shader_meta_map,
            final(ctx).changed_shaders == old(ctx).changed_shaders,
    {
        let mut paths: Vec<String> = Vec::new();
        let mut i: usize = 0;
        while i < ctx.material_exports.entries.len()
            invariant
                0 <= i <= ctx.material_exports.entries@.len(),
                ctx == old(ctx),
                old(ctx).wf(),
                paths@.len() == i,
                forall|j: int|
                    0 <= j < i ==> (#[trigger] paths@[j])@
                        == ctx.material_exports.entries@[j].1@,
            decreases ctx.material_exports.entries@.len() - i,
        {
            paths.push(ctx.material_exports.entries[i].1.clone());
            i = i + 1;
        }
        ctx.exports.create_export_containers_system(&paths);
        proof {
            assert forall|k: int|
                0 <= k < old(ctx).material_exports.entries@.len() implies ctx.exports.has_target(
                (#[trigger] old(ctx).material_exports.entries@[k]).1@,
            ) by {
                assert(paths@[k]@ == old(ctx).material_exports.entries@[k].1@);
            }
        }
    }
}

/// Marks that a material kind participates in specialization and reload
/// propagation for 3d rendering.
#[derive(Debug)]
pub struct RustGpuMaterialPlugin<M> {
    pub _phantom: core::marker::PhantomData<M>,
}

/// Marks that a material kind participates in specialization and reload
/// propagation for 2d rendering.
#[derive(Debug)]
pub struct RustGpuMaterial2dPlugin<M> {
    pub _phantom: core::marker::PhantomData<M>,
}

/// Marks that companion metadata files are wired into the context: the host
/// delivers their asset events to `module_meta_events` each pass.
#[derive(Debug)]
pub struct ShaderMetaPlugin<M> {
    pub _phantom: core::marker::PhantomData<M>,
}

} // verus!
