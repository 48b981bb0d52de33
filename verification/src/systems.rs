//! Frame-pass systems: aggregating shader change events and re-specializing
//! the materials they affect.

use vstd::prelude::*;

use crate::asset::{AssetEvent, HandleId};
use crate::rust_gpu::RustGpu;
use crate::shader_meta::ShaderMeta;

verus! {

/// The shader handles whose content changed since the last pass, aggregated
/// so that affected materials can be re-specialized once per pass.
#[derive(Debug, Clone, PartialEq, Eq)]
pub struct ChangedShaders {
    pub handles: Vec<HandleId>,
}

impl ChangedShaders {
    /// The set of changed handles.
    pub open spec fn as_set(self) -> Set<HandleId> {
        self.handles@.to_set()
    }

    /// No changes recorded.
    pub fn new() -> (r: Self)
        ensures
            r.as_set() == Set::<HandleId>::empty(),
    {
        let r = ChangedShaders { handles: Vec::new() };
        proof {
            assert(r.handles@.to_set() =~= Set::<HandleId>::empty());
        }
        r
    }

    /// Marks a handle as changed.
    pub fn insert(&mut self, handle: HandleId)
        ensures
            final(self).as_set() == old(self).as_set().insert(handle),
    {
        self.handles.push(handle);
        proof {
            assert(self.handles@.drop_last() =~= old(self).handles@);
            assert(self.handles@.to_set() =~= old(self).handles@.to_set().insert(handle)) by {
                assert forall|h: HandleId| self.handles@.to_set().contains(h) implies old(
                    self,
                ).handles@.to_set().contains(h) || h == handle by {
                    let i = choose|i: int| 0 <= i < self.handles@.len() && self.handles@[i] == h;
                    if i < self.handles@.len() - 1 {
                        assert(old(self).handles@[i] == h);
                    }
                }
                assert forall|h: HandleId|
                    old(self).handles@.to_set().contains(h) implies self.handles@.to_set().contains(
                    h,
                ) by {
                    let i = choose|i: int|
                        0 <= i < old(self).handles@.len() && old(self).handles@[i] == h;
                    assert(self.handles@[i] == h);
                }
                assert(self.handles@[self.handles@.len() - 1] == handle);
            }
        }
    }

    /// Whether a handle is marked as changed.
    pub fn contains(&self, handle: HandleId) -> (r: bool)
        ensures
            r == self.as_set().contains(handle),
    {
        let mut i: usize = 0;
        while i < self.handles.len()
            invariant
                0 <= i <= self.handles@.len(),
                forall|j: int| 0 <= j < i ==> self.handles@[j] != handle,
            decreases self.handles@.len() - i,
        {
            if self.handles[i] == handle {
                proof {
                    assert(self.handles@.to_set().contains(handle));
                }
                return true;
            }
            i = i + 1;
        }
        proof {
            if self.handles@.to_set().contains(handle) {
                let j = choose|j: int|
                    0 <= j < self.handles@.len() && self.handles@[j] == handle;
            }
        }
        false
    }

    /// Forgets all recorded changes.
    pub fn clear(&mut self)
        ensures
            final(self).as_set() == Set::<HandleId>::empty(),
    {
        self.handles.clear();
        proof {
            assert(self.handles@.to_set() =~= Set::<HandleId>::empty());
        }
    }
}

/// Listens for shader asset events: each created or modified shader loses
/// any cached metadata (the shader and its metadata may load on different
/// frames) and is marked for material reloading.
pub fn shader_events(
    shader_events: &Vec<AssetEvent>,
    changed_shaders: &mut ChangedShaders,
    shader_meta: &mut ShaderMeta,
)
    requires
        old(shader_meta).wf(),
    ensures
        final(shader_meta).wf(),
        final(changed_shaders).as_set() == old(changed_shaders).as_set() + upsert_handles(
            shader_events@,
        ),
        final(shader_meta).as_map() == old(shader_meta).as_map().remove_keys(
            upsert_handles(shader_events@),
        ),
{
    let events = shader_events;
    proof {
        assert(events@.subrange(0, 0).len() == 0);
        assert(upsert_handles(events@.subrange(0, 0)) =~= Set::<HandleId>::empty());
        assert(changed_shaders.as_set() =~= changed_shaders.as_set() + upsert_handles(
            events@.subrange(0, 0),
        ));
        assert(shader_meta.as_map() =~= shader_meta.as_map().remove_keys(
            upsert_handles(events@.subrange(0, 0)),
        ));
    }
    let mut k: usize = 0;
    while k < events.len()
        invariant
            0 <= k <= events@.len(),
            shader_meta.wf(),
            changed_shaders.as_set() == old(changed_shaders).as_set() + upsert_handles(
                events@.subrange(0, k as int),
            ),
            shader_meta.as_map() == old(shader_meta).as_map().remove_keys(
                upsert_handles(events@.subrange(0, k as int)),
            ),
        decreases events@.len() - k,
    {
        let e = events[k];
        proof {
            let pre = events@.subrange(0, k + 1);
            assert(pre.drop_last() =~= events@.subrange(0, k as int));
            assert(pre.last() == events@[k as int]);
        }
        let is_upsert = match &e {
            AssetEvent::Created { .. } => true,
            AssetEvent::Modified { .. } => true,
            AssetEvent::Removed { .. } => false,
        };
        if is_upsert {
            let h = e.handle();
            shader_meta.remove(h);
            changed_shaders.insert(h);
            proof {
                assert(upsert_handles(events@.subrange(0, k + 1)) =~= upsert_handles(
                    events@.subrange(0, k as int),
                ).insert(h));
                assert(changed_shaders.as_set() =~= old(changed_shaders).as_set()
                    + upsert_handles(events@.subrange(0, k + 1)));
                assert(shader_meta.as_map() =~= old(shader_meta).as_map().remove_keys(
                    upsert_handles(events@.subrange(0, k + 1)),
                ));
            }
        } else {
            proof {
                assert(upsert_handles(events@.subrange(0, k + 1)) =~= upsert_handles(
                    events@.subrange(0, k as int),
                ));
            }
        }
        k = k + 1;
    }
    proof {
        assert(events@.subrange(0, events@.len() as int) =~= events@);
    }
}

/// The handles of the created-or-modified events of the batch.
pub open spec fn upsert_handles(events: Seq<AssetEvent>) -> Set<HandleId>
    decreases events.len(),
{
    if events.len() == 0 {
        Set::empty()
    } else if events.last().is_upsert() {
        upsert_handles(events.drop_last()).insert(events.last().spec_handle())
    } else {
        upsert_handles(events.drop_last())
    }
}

/// Consumes the aggregated shader change markers and re-specializes the
/// affected materials: every material whose bound vertex or fragment shader
/// is marked gets its iteration bumped by one; the markers are then
/// cleared.
pub fn reload_materials<M>(
    changed_shaders: &mut ChangedShaders,
    materials: &mut Vec<RustGpu<M>>,
)
    requires
        forall|i: int|
            0 <= i < old(materials)@.len() ==> (#[trigger] old(materials)@[i]).iteration
                < usize::MAX,
    ensures
        final(changed_shaders).as_set() == Set::<HandleId>::empty(),
        final(materials)@.len() == old(materials)@.len(),
        forall|i: int|
            0 <= i < old(materials)@.len() ==> (#[trigger] final(materials)@[i]).base == old(
                materials,
            )@[i].base && final(materials)@[i].vertex_shader == old(materials)@[i].vertex_shader
                && final(materials)@[i].fragment_shader == old(materials)@[i].fragment_shader
                && final(materials)@[i].iteration == old(materials)@[i].iteration + (
            if marked(old(changed_shaders).as_set(), old(materials)@[i]) {
                1int
            } else {
                0int
            }),
{
    let ghost orig = materials@;
    let ghost changed0 = changed_shaders.as_set();
    let mut i: usize = 0;
    while i < materials.len()
        invariant
            0 <= i <= orig.len(),
            old(materials)@ == orig,
            changed_shaders.as_set() == changed0,
            changed0 == old(changed_shaders).as_set(),
            materials@.len() == orig.len(),
            forall|j: int|
                0 <= j < orig.len() ==> (#[trigger] orig[j]).iteration < usize::MAX,
            forall|j: int| i <= j < orig.len() ==> #[trigger] materials@[j] == orig[j],
            forall|j: int|
                0 <= j < i ==> (#[trigger] materials@[j]).base == orig[j].base
                    && materials@[j].vertex_shader == orig[j].vertex_shader
                    && materials@[j].fragment_shader == orig[j].fragment_shader
                    && materials@[j].iteration == orig[j].iteration + (
                if marked(changed0, orig[j]) {
                    1int
                } else {
                    0int
                }),
        decreases orig.len() - i,
    {
        let ghost before = materials@;
        let mut m = materials.remove(i);
        let v_hit = match m.vertex_shader {
            Some(vh) => changed_shaders.contains(vh),
            None => false,
        };
        let f_hit = match m.fragment_shader {
            Some(fh) => changed_shaders.contains(fh),
            None => false,
        };
        proof {
            assert(m == orig[i as int]);
        }
        if v_hit || f_hit {
            m.iteration = m.iteration + 1;
        }
        materials.insert(i, m);
        proof {
            assert(materials@ =~= before.update(i as int, materials@[i as int]));
        }
        i = i + 1;
    }
    changed_shaders.clear();
}

/// Whether a material references a marked shader with either stage.
pub open spec fn marked<M>(changed: Set<HandleId>, m: RustGpu<M>) -> bool {
    (match m.vertex_shader {
        Option::Some(h) => changed.contains(h),
        Option::None => false,
    }) || (match m.fragment_shader {
        Option::Some(h) => changed.contains(h),
        Option::None => false,
    })
}

/// Listens for metadata asset events, updates the stored metadata, and
/// aggregates change markers for [`reload_materials`].
pub fn module_meta_events(
    meta_events: &Vec<AssetEvent>,
    assets: &Vec<(HandleId, crate::shader_meta::ModuleMeta)>,
    shader_meta_map: &crate::shader_meta::ShaderMetaMap,
    changed_shaders: &mut ChangedShaders,
    shader_meta: &mut ShaderMeta,
)
    requires
        old(shader_meta).wf(),
        shader_meta_map.wf(),
    ensures
        final(shader_meta).wf(),
        final(changed_shaders).as_set() == old(changed_shaders).as_set()
            + crate::shader_meta::mapped_shaders(meta_events@, *shader_meta_map),
        crate::shader_meta::metas_applied(
            meta_events@,
            assets@,
            *shader_meta_map,
            old(shader_meta).as_map(),
            final(shader_meta).as_map(),
        ),
{
    crate::shader_meta::module_meta_events(
        meta_events,
        assets,
        shader_meta_map,
        changed_shaders,
        shader_meta,
    );
}

} // verus!
