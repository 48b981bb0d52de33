//! Extending a material with hot-swappable compiled shader stages.
//!
//! `RustGpu<M>` wraps a base material with optional references to a vertex
//! and a fragment artifact, plus a reload iteration counter.  Specialization
//! computes each stage's entry-point symbol from the active capability
//! flags, validates it against the loaded artifact, and either binds the
//! stage's shader module and entry point or leaves the host's default in
//! place; reload propagation bumps the iteration counter of every material
//! that references a changed artifact, forcing the host's pipeline cache to
//! re-specialize it.

use vstd::prelude::*;

use crate::asset::{AssetEvent, HandleId};
use crate::builder_output::{RustGpuArtifact, RustGpuArtifacts};
use crate::entry_point::{constants_sorted, filter_consts, symbol_with, EntryPoint};
use crate::entry_point_export::{EntryPointExportContainer, Export};
use crate::rust_gpu_material::RustGpuMaterial;
use crate::shader_def::{ShaderDefV, ShaderDefVal};
use crate::symbol::type_tokens;

verus! {

/// Per-material-type settings: whether each stage falls back to the base
/// material's own shader instead of the host's stock default.
#[derive(Debug, Clone, Copy, PartialEq, Eq, Structural)]
pub struct RustGpuSettings {
    pub fallback_base_vertex: bool,
    pub fallback_base_fragment: bool,
}

impl Default for RustGpuSettings {
    /// Both stages fall back to the host's stock default shader.
    fn default() -> (r: Self)
        ensures
            !r.fallback_base_vertex,
            !r.fallback_base_fragment,
    {
        RustGpuSettings { fallback_base_vertex: false, fallback_base_fragment: false }
    }
}

/// The pipeline key of a [`RustGpu`] material: the base material's key data
/// plus the artifact references and the reload iteration, so that a content
/// change makes a distinct cache key.
#[derive(Debug, Clone, PartialEq, Eq, Hash)]
pub struct RustGpuKey<M> {
    pub base: M,
    pub vertex_shader: Option<HandleId>,
    pub fragment_shader: Option<HandleId>,
    pub iteration: usize,
}

/// A material extended with hot-swappable compiled shader stages.
#[derive(Debug, Clone, PartialEq, Eq)]
pub struct RustGpu<M> {
    /// The base material.
    pub base: M,
    /// If `Some`, overrides the vertex stage during specialization.
    pub vertex_shader: Option<HandleId>,
    /// If `Some`, overrides the fragment stage during specialization.
    pub fragment_shader: Option<HandleId>,
    /// Current reload iteration, used to drive hot-reloading.
    pub iteration: usize,
}

// ---------------------------------------------------------------------------
// The pipeline descriptor, as this library sees it.
// ---------------------------------------------------------------------------

/// One shader stage of a pipeline descriptor: the bound shader module, the
/// entry-point symbol, and the capability flags the host would hand to its
/// own shader preprocessor.
#[derive(Debug, Clone, PartialEq, Eq)]
pub struct StageDescriptor {
    pub shader: HandleId,
    pub entry_point: String,
    pub shader_defs: Vec<ShaderDefVal>,
}

/// The render-pipeline descriptor: a debug label, a vertex stage, and an
/// optional fragment stage.
#[derive(Debug, Clone, PartialEq, Eq)]
pub struct RenderPipelineDescriptor {
    pub label: Option<String>,
    pub vertex: StageDescriptor,
    pub fragment: Option<StageDescriptor>,
}

// ---------------------------------------------------------------------------
// Stage resolution.
// ---------------------------------------------------------------------------

/// The shader module to bind for `symbol` under `handle`, if any: the
/// artifact must be loaded, its entry-point list must contain the symbol,
/// and a module must exist for it.  `None` means "leave the host's default
/// shader in place" — the expected state during hot-reload windows.
pub open spec fn resolved_stage(
    artifacts: Map<HandleId, RustGpuArtifact>,
    handle: HandleId,
    symbol: Seq<char>,
) -> Option<HandleId> {
    if artifacts.contains_key(handle) {
        let a = artifacts[handle];
        if a.entry_points.deep_view().contains(symbol) {
            a.spec_module_for(symbol)
        } else {
            None
        }
    } else {
        None
    }
}

/// The full symbol an entry point `E` builds from a flag set.
pub open spec fn stage_symbol<E: EntryPoint>(defs: Seq<ShaderDefV>) -> Seq<char> {
    symbol_with(
        E::spec_name(),
        E::spec_permutation(defs),
        constants_sorted(defs, E::spec_constants()),
        type_tokens(E::spec_types()),
    )
}

/// A report for entry point `E` built from the flag set `defs`.
pub open spec fn is_stage_export<E: EntryPoint>(e: Export, defs: Seq<ShaderDefV>) -> bool {
    e.shader@ == E::spec_name() && e.permutation.deep_view() == E::spec_permutation(defs)
        && e.constants.deep_view() == filter_consts(defs, E::spec_constants())
        && e.types.deep_view() == E::spec_types()
}

/// What specialization does to one stage: untouched when no artifact handle
/// is bound or the symbol cannot be resolved; otherwise the resolved module
/// and the computed symbol are bound and the stage's flag list is cleared,
/// since permutation selection is already fully resolved into the symbol.
pub open spec fn stage_specialized(
    before: StageDescriptor,
    after: StageDescriptor,
    artifacts: Map<HandleId, RustGpuArtifact>,
    handle: Option<HandleId>,
    symbol: Seq<char>,
) -> bool {
    match handle {
        Option::None => after == before,
        Option::Some(h) => match resolved_stage(artifacts, h, symbol) {
            Option::None => after == before,
            Option::Some(m) => after.shader == m && after.entry_point@ == symbol
                && after.shader_defs@.len() == 0,
        },
    }
}

/// The reports specialization queues: one per stage that has an artifact
/// handle bound, vertex first, each queued only while the inbox has room.
pub open spec fn reports_queued<M: RustGpuMaterial>(
    before: EntryPointExportContainer,
    after: EntryPointExportContainer,
    vertex_defs: Seq<ShaderDefV>,
    fragment_defs: Option<Seq<ShaderDefV>>,
    key_vertex: bool,
    key_fragment: bool,
) -> bool {
    let n0 = before.queue@.len() as int;
    let v_sent = key_vertex && n0 < before.capacity;
    let n1 = n0 + if v_sent {
        1int
    } else {
        0int
    };
    let f_sent = key_fragment && n1 < before.capacity;
    let n2 = n1 + if f_sent {
        1int
    } else {
        0int
    };
    after.queue@.len() == n2 && after.queue@.subrange(0, n0) == before.queue@ && (v_sent
        ==> is_stage_export::<M::Vertex>(after.queue@[n0], vertex_defs)) && (f_sent
        ==> fragment_defs is Some && is_stage_export::<M::Fragment>(
        after.queue@[n1],
        fragment_defs->Some_0,
    ))
}

impl<M: RustGpuMaterial> RustGpu<M> {
    /// Specializes a pipeline descriptor for this material: per stage,
    /// computes the entry-point symbol from the stage's capability flags,
    /// validates it against the loaded artifact, and either binds the
    /// resolved module and symbol (clearing the stage's flag list) or falls
    /// back by leaving the stage untouched.  When a sink is attached, the
    /// requested permutation of each bound stage is reported to it,
    /// fire-and-forget.  The descriptor's label is prefixed for diagnostics.
    pub fn specialize_generic(
        descriptor: &mut RenderPipelineDescriptor,
        key: &RustGpuKey<M>,
        artifacts: &RustGpuArtifacts,
        sink: &mut EntryPointExportContainer,
        sink_enabled: bool,
    )
        requires
            artifacts.wf(),
        ensures
            stage_specialized(
                old(descriptor).vertex,
                final(descriptor).vertex,
                artifacts.as_map(),
                key.vertex_shader,
                stage_symbol::<M::Vertex>(old(descriptor).vertex.shader_defs.deep_view()),
            ),
            match (old(descriptor).fragment, key.fragment_shader) {
                (Option::Some(fd), Option::Some(h)) => final(descriptor).fragment is Some
                    && stage_specialized(
                    fd,
                    final(descriptor).fragment->0,
                    artifacts.as_map(),
                    Some(h),
                    stage_symbol::<M::Fragment>(fd.shader_defs.deep_view()),
                ),
                _ => final(descriptor).fragment == old(descriptor).fragment,
            },
            match old(descriptor).label {
                Option::None => final(descriptor).label is None,
                Option::Some(l) => final(descriptor).label is Some
                    && (final(descriptor).label->0)@ == "rust_gpu_"@ + l@,
            },
            !sink_enabled ==> *final(sink) == *old(sink),
            sink_enabled ==> reports_queued::<M>(
                *old(sink),
                *final(sink),
                old(descriptor).vertex.shader_defs.deep_view(),
                match old(descriptor).fragment {
                    Option::Some(fd) => Option::Some(fd.shader_defs.deep_view()),
                    Option::None => Option::None,
                },
                key.vertex_shader is Some,
                old(descriptor).fragment is Some && key.fragment_shader is Some,
            ),
            sink_enabled ==> final(sink).capacity == old(sink).capacity
                && final(sink).entry_points == old(sink).entry_points
                && final(sink).changed == old(sink).changed,
    {
        let ghost sink0 = *sink;

        // Vertex stage: compute the symbol, report the permutation, and
        // resolve the symbol against the loaded artifact.
        let v: Option<(HandleId, String)> = match key.vertex_shader {
            Some(h) => {
                let vertex_symbol = <M::Vertex as EntryPoint>::build(&descriptor.vertex.shader_defs);
                if sink_enabled {
                    let report = Export {
                        shader: <M::Vertex as EntryPoint>::name(),
                        permutation: <M::Vertex as EntryPoint>::permutation(
                            &descriptor.vertex.shader_defs,
                        ),
                        constants: <M::Vertex as EntryPoint>::filter_constants(
                            &descriptor.vertex.shader_defs,
                        ),
                        types: <M::Vertex as EntryPoint>::types(),
                    };
                    let _ = sink.try_send(report);
                }
                match artifacts.get(h) {
                    Some(artifact) => {
                        if artifact.has_entry_point(&vertex_symbol) {
                            match artifact.module_for(&vertex_symbol) {
                                Some(m) => Some((m, vertex_symbol)),
                                None => None,
                            }
                        } else {
                            None
                        }
                    },
                    None => None,
                }
            },
            None => None,
        };
        let ghost sink1 = *sink;

        // Fragment stage, independently.
        let f: Option<(HandleId, String)> = match (&descriptor.fragment, key.fragment_shader) {
            (Some(fd), Some(h)) => {
                let fragment_symbol = <M::Fragment as EntryPoint>::build(&fd.shader_defs);
                if sink_enabled {
                    let report = Export {
                        shader: <M::Fragment as EntryPoint>::name(),
                        permutation: <M::Fragment as EntryPoint>::permutation(&fd.shader_defs),
                        constants: <M::Fragment as EntryPoint>::filter_constants(&fd.shader_defs),
                        types: <M::Fragment as EntryPoint>::types(),
                    };
                    let _ = sink.try_send(report);
                }
                match artifacts.get(h) {
                    Some(artifact) => {
                        if artifact.has_entry_point(&fragment_symbol) {
                            match artifact.module_for(&fragment_symbol) {
                                Some(m) => Some((m, fragment_symbol)),
                                None => None,
                            }
                        } else {
                            None
                        }
                    },
                    None => None,
                }
            },
            _ => None,
        };
        proof {
            if sink_enabled {
                assert(sink.queue@.subrange(0, sink0.queue@.len() as int) =~= sink0.queue@);
            }
        }

        // Bind whatever resolved; a stage that did not resolve keeps the
        // host's default.
        match v {
            Some((m, ep)) => {
                descriptor.vertex.shader = m;
                descriptor.vertex.entry_point = ep;
                descriptor.vertex.shader_defs = Vec::new();
            },
            None => {},
        }
        match f {
            Some((m, ep)) => {
                match &mut descriptor.fragment {
                    Some(fd) => {
                        fd.shader = m;
                        fd.entry_point = ep;
                        fd.shader_defs = Vec::new();
                    },
                    None => {},
                }
            },
            None => {},
        }

        // Prefix the debug label, purely for diagnostics.
        let new_label: Option<String> = match &descriptor.label {
            Some(l) => {
                let mut nl = String::from_str("rust_gpu_");
                nl.append(l.as_str());
                Some(nl)
            },
            None => None,
        };
        descriptor.label = new_label;
    }
}

// ---------------------------------------------------------------------------
// Reload propagation.
// ---------------------------------------------------------------------------

/// Whether an artifact event concerns a material bound to the given stage
/// handles: a created-or-modified event whose handle either stage
/// references.  Removal events do not force a re-specialization; the next
/// lookup simply misses.
pub open spec fn touches(e: AssetEvent, v: Option<HandleId>, f: Option<HandleId>) -> bool {
    e.is_upsert() && (v == Some(e.spec_handle()) || f == Some(e.spec_handle()))
}

/// How many events of the batch concern a material with the given stage
/// handles — one per event, even when both stages match it.
pub open spec fn bump_count(
    events: Seq<AssetEvent>,
    v: Option<HandleId>,
    f: Option<HandleId>,
) -> int
    decreases events.len(),
{
    if events.len() == 0 {
        0
    } else {
        bump_count(events.drop_last(), v, f) + if touches(events.last(), v, f) {
            1int
        } else {
            0int
        }
    }
}

/// Iteration monotonicity: one more event raises a material's bump count by
/// exactly one if its handle matches either bound stage, and leaves it
/// unchanged otherwise.
pub proof fn lemma_iteration_bump(
    events: Seq<AssetEvent>,
    e: AssetEvent,
    v: Option<HandleId>,
    f: Option<HandleId>,
)
    ensures
        bump_count(events.push(e), v, f) == bump_count(events, v, f) + if touches(e, v, f) {
            1int
        } else {
            0int
        },
        bump_count(events, v, f) >= 0,
    decreases events.len(),
{
    assert(events.push(e).drop_last() =~= events);
    if events.len() > 0 {
        lemma_iteration_bump(events.drop_last(), events.last(), v, f);
    }
}

/// Marks every material referencing a created-or-modified artifact for
/// re-specialization by bumping its iteration counter once per matching
/// event; materials referencing only unrelated handles are untouched.
pub fn reload_materials<M>(
    builder_output_events: &Vec<AssetEvent>,
    materials: &mut Vec<RustGpu<M>>,
)
    requires
        forall|i: int|
            0 <= i < old(materials)@.len() ==> (#[trigger] old(materials)@[i]).iteration
                + builder_output_events@.len() <= usize::MAX,
    ensures
        final(materials)@.len() == old(materials)@.len(),
        forall|i: int|
            0 <= i < old(materials)@.len() ==> (#[trigger] final(materials)@[i]).base == old(
                materials,
            )@[i].base && final(materials)@[i].vertex_shader == old(materials)@[i].vertex_shader
                && final(materials)@[i].fragment_shader == old(materials)@[i].fragment_shader
                && final(materials)@[i].iteration == old(materials)@[i].iteration + bump_count(
                builder_output_events@,
                old(materials)@[i].vertex_shader,
                old(materials)@[i].fragment_shader,
            ),
{
    let events = builder_output_events;
    let ghost orig = materials@;
    let mut i: usize = 0;
    while i < materials.len()
        invariant
            0 <= i <= orig.len(),
            old(materials)@ == orig,
            materials@.len() == orig.len(),
            forall|j: int|
                0 <= j < orig.len() ==> (#[trigger] orig[j]).iteration + events@.len()
                    <= usize::MAX,
            forall|j: int| i <= j < orig.len() ==> #[trigger] materials@[j] == orig[j],
            forall|j: int|
                0 <= j < i ==> (#[trigger] materials@[j]).base == orig[j].base && materials@[j].vertex_shader
                    == orig[j].vertex_shader && materials@[j].fragment_shader
                    == orig[j].fragment_shader && materials@[j].iteration == orig[j].iteration
                    + bump_count(events@, orig[j].vertex_shader, orig[j].fragment_shader),
        decreases orig.len() - i,
    {
        let ghost before = materials@;
        let mut m = materials.remove(i);
        let mut bumps: usize = 0;
        proof {
            assert(events@.subrange(0, 0).len() == 0);
            lemma_iteration_bump(events@, AssetEvent::Removed { handle: HandleId(0) },
                m.vertex_shader, m.fragment_shader);
        }
        let mut k: usize = 0;
        while k < events.len()
            invariant
                0 <= k <= events@.len(),
                bumps <= k,
                bumps == bump_count(
                    events@.subrange(0, k as int),
                    m.vertex_shader,
                    m.fragment_shader,
                ),
            decreases events@.len() - k,
        {
            let e = events[k];
            proof {
                let pre = events@.subrange(0, k + 1);
                assert(pre.drop_last() =~= events@.subrange(0, k as int));
                assert(pre.last() == events@[k as int]);
            }
            let h = e.handle();
            let is_upsert = match &e {
                AssetEvent::Created { .. } => true,
                AssetEvent::Modified { .. } => true,
                AssetEvent::Removed { .. } => false,
            };
            let v_hit = match m.vertex_shader {
                Some(vh) => vh == h,
                None => false,
            };
            let f_hit = match m.fragment_shader {
                Some(fh) => fh == h,
                None => false,
            };
            if is_upsert && (v_hit || f_hit) {
                bumps = bumps + 1;
            }
            k = k + 1;
        }
        proof {
            assert(events@.subrange(0, events@.len() as int) =~= events@);
            assert(m == orig[i as int]);
        }
        m.iteration = m.iteration + bumps;
        materials.insert(i, m);
        proof {
            assert(materials@ =~= before.update(i as int, materials@[i as int]));
        }
        i = i + 1;
    }
}

// ---------------------------------------------------------------------------
// Per-material-type registries.
// ---------------------------------------------------------------------------

/// The settings stored under a material kind, if any.
pub open spec fn setting_lookup(
    entries: Seq<(u64, RustGpuSettings)>,
    kind: u64,
) -> Option<RustGpuSettings>
    decreases entries.len(),
{
    if entries.len() == 0 {
        None
    } else if entries[0].0 == kind {
        Some(entries[0].1)
    } else {
        setting_lookup(entries.drop_first(), kind)
    }
}

/// The settings in force before any were stored.
pub open spec fn default_settings() -> RustGpuSettings {
    RustGpuSettings { fallback_base_vertex: false, fallback_base_fragment: false }
}

/// Per-material-kind settings, keyed by an opaque kind identifier the
/// composition root assigns to each material type.
#[derive(Debug, Clone, PartialEq, Eq)]
pub struct MaterialSettings {
    pub entries: Vec<(u64, RustGpuSettings)>,
}

impl MaterialSettings {
    /// Each kind has at most one entry.
    pub open spec fn wf(self) -> bool {
        forall|a: int, b: int|
            0 <= a < b < self.entries@.len() ==> self.entries@[a].0 != self.entries@[b].0
    }

    /// No settings stored.
    pub fn new() -> (r: Self)
        ensures
            r.wf(),
            r.entries@.len() == 0,
    {
        MaterialSettings { entries: Vec::new() }
    }

    /// The settings stored under `kind`, if any.
    pub fn get(&self, kind: u64) -> (r: Option<RustGpuSettings>)
        ensures
            r == setting_lookup(self.entries@, kind),
    {
        proof {
            assert(self.entries@.skip(0) =~= self.entries@);
        }
        let mut i: usize = 0;
        while i < self.entries.len()
            invariant
                0 <= i <= self.entries@.len(),
                setting_lookup(self.entries@, kind) == setting_lookup(
                    self.entries@.skip(i as int),
                    kind,
                ),
            decreases self.entries@.len() - i,
        {
            proof {
                assert(self.entries@.skip(i as int)[0] == self.entries@[i as int]);
                assert(self.entries@.skip(i as int).drop_first() =~= self.entries@.skip(i + 1));
            }
            if self.entries[i].0 == kind {
                return Some(self.entries[i].1);
            }
            i = i + 1;
        }
        proof {
            assert(self.entries@.skip(self.entries@.len() as int).len() == 0);
        }
        None
    }
}

/// The export paths registered per material kind.
#[derive(Debug, Clone, PartialEq, Eq)]
pub struct MaterialExports {
    pub entries: Vec<(u64, String)>,
}

/// The export path registered under a material kind, if any.
pub open spec fn export_lookup(entries: Seq<(u64, String)>, kind: u64) -> Option<Seq<char>>
    decreases entries.len(),
{
    if entries.len() == 0 {
        None
    } else if entries[0].0 == kind {
        Some(entries[0].1@)
    } else {
        export_lookup(entries.drop_first(), kind)
    }
}

impl MaterialExports {
    /// Each kind has at most one entry.
    pub open spec fn wf(self) -> bool {
        forall|a: int, b: int|
            0 <= a < b < self.entries@.len() ==> self.entries@[a].0 != self.entries@[b].0
    }

    /// No export targets registered.
    pub fn new() -> (r: Self)
        ensures
            r.wf(),
            r.entries@.len() == 0,
    {
        MaterialExports { entries: Vec::new() }
    }

    /// The export path registered under `kind`, if any.
    pub fn get(&self, kind: u64) -> (r: Option<&String>)
        ensures
            match r {
                Some(p) => export_lookup(self.entries@, kind) == Some(p@),
                None => export_lookup(self.entries@, kind) is None,
            },
    {
        proof {
            assert(self.entries@.skip(0) =~= self.entries@);
        }
        let mut i: usize = 0;
        while i < self.entries.len()
            invariant
                0 <= i <= self.entries@.len(),
                export_lookup(self.entries@, kind) == export_lookup(
                    self.entries@.skip(i as int),
                    kind,
                ),
            decreases self.entries@.len() - i,
        {
            proof {
                assert(self.entries@.skip(i as int)[0] == self.entries@[i as int]);
                assert(self.entries@.skip(i as int).drop_first() =~= self.entries@.skip(i + 1));
            }
            if self.entries[i].0 == kind {
                return Some(&self.entries[i].1);
            }
            i = i + 1;
        }
        proof {
            assert(self.entries@.skip(self.entries@.len() as int).len() == 0);
        }
        None
    }
}

impl<M> RustGpu<M> {
    /// Applies `f` to this material kind's settings (starting from the
    /// defaults when none are stored yet) and stores the result.
    pub fn map_settings<F: FnOnce(RustGpuSettings) -> RustGpuSettings>(
        settings: &mut MaterialSettings,
        kind: u64,
        f: F,
    )
        requires
            old(settings).wf(),
            forall|x: RustGpuSettings| #[trigger] call_requires(f, (x,)),
        ensures
            final(settings).wf(),
            setting_lookup(final(settings).entries@, kind) is Some,
            call_ensures(
                f,
                (match setting_lookup(old(settings).entries@, kind) {
                    Option::Some(s) => s,
                    Option::None => default_settings(),
                },),
                setting_lookup(final(settings).entries@, kind)->Some_0,
            ),
            forall|k2: u64|
                k2 != kind ==> #[trigger] setting_lookup(final(settings).entries@, k2)
                    == setting_lookup(old(settings).entries@, k2),
    {
        let ghost orig = settings.entries@;
        let prior: RustGpuSettings = match settings.get(kind) {
            Some(s) => s,
            None => RustGpuSettings::default(),
        };
        let updated = f(prior);
        let mut i: usize = 0;
        while i < settings.entries.len() && settings.entries[i].0 != kind
            invariant
                0 <= i <= orig.len(),
                settings.entries@ == orig,
                old(settings).entries@ == orig,
                old(settings).wf(),
                forall|j: int| 0 <= j < i ==> orig[j].0 != kind,
            decreases orig.len() - i,
    {
            i = i + 1;
        }
        if i < settings.entries.len() {
            let _ = settings.entries.remove(i);
            settings.entries.insert(i, (kind, updated));
            proof {
                assert(settings.entries@ =~= orig.update(i as int, (kind, updated)));
                lemma_setting_lookup_update(orig, settings.entries@, i as int, kind, updated);
            }
        } else {
            settings.entries.push((kind, updated));
            proof {
                assert(settings.entries@.drop_last() =~= orig);
                lemma_setting_lookup_append(orig, kind, updated);
                assert forall|a: int, b: int|
                    0 <= a < b < settings.entries@.len() implies settings.entries@[a].0
                    != settings.entries@[b].0 by {
                    assert(settings.entries@[a] == orig[a]);
                    if b < settings.entries@.len() - 1 {
                        assert(settings.entries@[b] == orig[b]);
                    }
                }
            }
        }
    }

    /// Registers the export path for this material kind, replacing any
    /// earlier registration.
    pub fn export_to(exports: &mut MaterialExports, kind: u64, path: String)
        requires
            old(exports).wf(),
        ensures
            final(exports).wf(),
            export_lookup(final(exports).entries@, kind) == Some(path@),
            forall|k2: u64|
                k2 != kind ==> #[trigger] export_lookup(final(exports).entries@, k2)
                    == export_lookup(old(exports).entries@, k2),
    {
        let ghost orig = exports.entries@;
        let mut i: usize = 0;
        while i < exports.entries.len() && exports.entries[i].0 != kind
            invariant
                0 <= i <= orig.len(),
                exports.entries@ == orig,
                old(exports).entries@ == orig,
                old(exports).wf(),
                forall|j: int| 0 <= j < i ==> orig[j].0 != kind,
            decreases orig.len() - i,
        {
            i = i + 1;
        }
        if i < exports.entries.len() {
            let _ = exports.entries.remove(i);
            exports.entries.insert(i, (kind, path));
            proof {
                assert(exports.entries@ =~= orig.update(i as int, exports.entries@[i as int]));
                lemma_export_lookup_update(orig, exports.entries@, i as int, kind);
            }
        } else {
            exports.entries.push((kind, path));
            proof {
                assert(exports.entries@.drop_last() =~= orig);
                lemma_export_lookup_append(orig, exports.entries@);
                assert forall|a: int, b: int|
                    0 <= a < b < exports.entries@.len() implies exports.entries@[a].0
                    != exports.entries@[b].0 by {
                    assert(exports.entries@[a] == orig[a]);
                    if b < exports.entries@.len() - 1 {
                        assert(exports.entries@[b] == orig[b]);
                    }
                }
            }
        }
    }
}

/// Replacing the entry at `i` changes only lookups of its kind.
proof fn lemma_setting_lookup_update(
    before: Seq<(u64, RustGpuSettings)>,
    after: Seq<(u64, RustGpuSettings)>,
    i: int,
    kind: u64,
    value: RustGpuSettings,
)
    requires
        0 <= i < before.len(),
        after == before.update(i, (kind, value)),
        before[i].0 == kind,
        forall|j: int| 0 <= j < i ==> before[j].0 != kind,
    ensures
        setting_lookup(after, kind) == Some(value),
        forall|k2: u64|
            k2 != kind ==> #[trigger] setting_lookup(after, k2) == setting_lookup(before, k2),
    decreases before.len(),
{
    if i == 0 {
        assert(after[0] == (kind, value));
        assert(setting_lookup(after, kind) == Some(value));
        assert forall|k2: u64|
            k2 != kind implies #[trigger] setting_lookup(after, k2) == setting_lookup(
            before,
            k2,
        ) by {
            assert(after.drop_first() =~= before.drop_first());
        }
    } else {
        assert(after[0] == before[0]);
        assert(after.drop_first() =~= before.drop_first().update(i - 1, (kind, value)));
        assert(before.drop_first()[i - 1] == before[i]);
        assert forall|j: int| 0 <= j < i - 1 implies before.drop_first()[j].0 != kind by {
            assert(before.drop_first()[j] == before[j + 1]);
        }
        lemma_setting_lookup_update(
            before.drop_first(),
            after.drop_first(),
            i - 1,
            kind,
            value,
        );
        assert(before[0].0 != kind);
        assert(setting_lookup(after, kind) == Some(value)) by {
            assert(setting_lookup(after.drop_first(), kind) == Some(value));
        }
        assert forall|k2: u64|
            k2 != kind implies #[trigger] setting_lookup(after, k2) == setting_lookup(
            before,
            k2,
        ) by {
            assert(setting_lookup(after.drop_first(), k2) == setting_lookup(
                before.drop_first(),
                k2,
            ));
        }
    }
}

/// Appending an entry under a fresh kind changes only lookups of that kind.
proof fn lemma_setting_lookup_append(
    before: Seq<(u64, RustGpuSettings)>,
    kind: u64,
    value: RustGpuSettings,
)
    requires
        forall|j: int| 0 <= j < before.len() ==> before[j].0 != kind,
    ensures
        setting_lookup(before.push((kind, value)), kind) == Some(value),
        forall|k2: u64|
            k2 != kind ==> #[trigger] setting_lookup(before.push((kind, value)), k2)
                == setting_lookup(before, k2),
    decreases before.len(),
{
    let after = before.push((kind, value));
    if before.len() == 0 {
        assert(after[0] == (kind, value));
        assert(setting_lookup(after, kind) == Some(value));
        assert forall|k2: u64|
            k2 != kind implies #[trigger] setting_lookup(after, k2) == setting_lookup(
            before,
            k2,
        ) by {
            assert(after.drop_first().len() == 0);
            assert(setting_lookup(after.drop_first(), k2) is None);
            assert(setting_lookup(before, k2) is None);
        }
    } else {
        assert(after[0] == before[0]);
        assert(after.drop_first() =~= before.drop_first().push((kind, value)));
        assert forall|j: int| 0 <= j < before.drop_first().len() implies before.drop_first()[j].0
            != kind by {
            assert(before.drop_first()[j] == before[j + 1]);
        }
        lemma_setting_lookup_append(before.drop_first(), kind, value);
        assert(before[0].0 != kind);
        assert(setting_lookup(after, kind) == Some(value)) by {
            assert(setting_lookup(after.drop_first(), kind) == Some(value));
        }
        assert forall|k2: u64|
            k2 != kind implies #[trigger] setting_lookup(after, k2) == setting_lookup(
            before,
            k2,
        ) by {
            assert(setting_lookup(after.drop_first(), k2) == setting_lookup(
                before.drop_first().push((kind, value)),
                k2,
            ));
            assert(setting_lookup(before.drop_first().push((kind, value)), k2)
                == setting_lookup(before.drop_first(), k2));
        }
    }
}

/// Replacing the entry at `i` changes only lookups of its kind.
proof fn lemma_export_lookup_update(
    before: Seq<(u64, String)>,
    after: Seq<(u64, String)>,
    i: int,
    kind: u64,
)
    requires
        0 <= i < before.len(),
        after.len() == before.len(),
        forall|j: int| 0 <= j < before.len() && j != i ==> after[j] == before[j],
        after[i].0 == kind,
        before[i].0 == kind,
        forall|j: int| 0 <= j < i ==> before[j].0 != kind,
    ensures
        export_lookup(after, kind) == Some(after[i].1@),
        forall|k2: u64|
            k2 != kind ==> #[trigger] export_lookup(after, k2) == export_lookup(before, k2),
    decreases before.len(),
{
    if i == 0 {
        assert(export_lookup(after, kind) == Some(after[0].1@));
        assert forall|k2: u64|
            k2 != kind implies #[trigger] export_lookup(after, k2) == export_lookup(
            before,
            k2,
        ) by {
            assert(after.drop_first() =~= before.drop_first());
        }
    } else {
        assert(after[0] == before[0]);
        assert(after.drop_first().len() == before.drop_first().len());
        assert forall|j: int|
            0 <= j < before.drop_first().len() && j != i - 1 implies after.drop_first()[j]
            == before.drop_first()[j] by {
            assert(after.drop_first()[j] == after[j + 1]);
            assert(before.drop_first()[j] == before[j + 1]);
        }
        assert(after.drop_first()[i - 1] == after[i]);
        assert(before.drop_first()[i - 1] == before[i]);
        assert forall|j: int| 0 <= j < i - 1 implies before.drop_first()[j].0 != kind by {
            assert(before.drop_first()[j] == before[j + 1]);
        }
        lemma_export_lookup_update(before.drop_first(), after.drop_first(), i - 1, kind);
        assert(after.drop_first()[i - 1].1 == after[i].1);
        assert(before[0].0 != kind);
        assert(export_lookup(after, kind) == Some(after[i].1@)) by {
            assert(export_lookup(after.drop_first(), kind) == Some(after[i].1@));
        }
        assert forall|k2: u64|
            k2 != kind implies #[trigger] export_lookup(after, k2) == export_lookup(
            before,
            k2,
        ) by {
            assert(export_lookup(after.drop_first(), k2) == export_lookup(
                before.drop_first(),
                k2,
            ));
        }
    }
}

/// Appending an entry under a fresh kind changes only lookups of that kind.
proof fn lemma_export_lookup_append(before: Seq<(u64, String)>, after: Seq<(u64, String)>)
    requires
        after.len() == before.len() + 1,
        forall|j: int| 0 <= j < before.len() ==> after[j] == before[j],
        forall|j: int| 0 <= j < before.len() ==> before[j].0 != after[before.len() as int].0,
    ensures
        export_lookup(after, after[before.len() as int].0) == Some(
            after[before.len() as int].1@,
        ),
        forall|k2: u64|
            k2 != after[before.len() as int].0 ==> #[trigger] export_lookup(after, k2)
                == export_lookup(before, k2),
    decreases before.len(),
{
    let kind = after[before.len() as int].0;
    if before.len() == 0 {
        assert(export_lookup(after, kind) == Some(after[0].1@));
        assert forall|k2: u64|
            k2 != kind implies #[trigger] export_lookup(after, k2) == export_lookup(
            before,
            k2,
        ) by {
            assert(after.drop_first().len() == 0);
            assert(export_lookup(after.drop_first(), k2) is None);
            assert(export_lookup(before, k2) is None);
        }
    } else {
        assert(after[0] == before[0]);
        assert(after.drop_first().len() == before.drop_first().len() + 1);
        assert forall|j: int|
            0 <= j < before.drop_first().len() implies after.drop_first()[j]
            == before.drop_first()[j] by {
            assert(after.drop_first()[j] == after[j + 1]);
            assert(before.drop_first()[j] == before[j + 1]);
        }
        assert(after.drop_first()[before.drop_first().len() as int]
            == after[before.len() as int]);
        assert forall|j: int|
            0 <= j < before.drop_first().len() implies before.drop_first()[j].0 != kind by {
            assert(before.drop_first()[j] == before[j + 1]);
        }
        lemma_export_lookup_append(before.drop_first(), after.drop_first());
        assert(before[0].0 != kind);
        assert(export_lookup(after, kind) == Some(after[before.len() as int].1@)) by {
            assert(export_lookup(after.drop_first(), kind) == Some(
                after.drop_first()[before.drop_first().len() as int].1@,
            ));
        }
        assert forall|k2: u64|
            k2 != kind implies #[trigger] export_lookup(after, k2) == export_lookup(
            before,
            k2,
        ) by {
            assert(export_lookup(after.drop_first(), k2) == export_lookup(
                before.drop_first(),
                k2,
            ));
        }
    }
}

} // verus!
