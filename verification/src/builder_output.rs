//! Compiled shader artifacts and the process-wide artifact store.
//!
//! The off-process builder emits a decoded container per shader bundle: the
//! list of entry-point symbols known to exist in the binary, and either one
//! unnamed binary module or a name-keyed set of them.  Ingestion registers
//! each distinct binary exactly once with the host's shader assets and
//! records the result in the artifact store, keyed by the bundle's asset
//! handle; removal events evict the entry, so a lookup after removal misses
//! cleanly.

use vstd::prelude::*;

use crate::asset::{AssetEvent, HandleId};
use crate::handle_map::{lemma_map_of_at, lemma_map_of_contains, lemma_map_of_remove, map_of};

verus! {

/// Binary module data of a decoded builder bundle.
#[derive(Debug, Clone, PartialEq, Eq)]
pub enum RustGpuBuilderModules {
    /// A single unnamed module.
    Single(Vec<u8>),
    /// Multiple named modules; names are expected to be distinct.
    Multi(Vec<(String, Vec<u8>)>),
}

/// Compile output of the off-process builder: binary modules plus the
/// entry-point symbols compiled into them.
#[derive(Debug, Clone, PartialEq, Eq)]
pub struct RustGpuBuilderOutput {
    pub entry_points: Vec<String>,
    pub modules: RustGpuBuilderModules,
}

/// Shader handles of a stored artifact's modules.
#[derive(Debug, Clone, PartialEq, Eq)]
pub enum RustGpuModules {
    /// A single unnamed shader.
    Single(HandleId),
    /// Multiple named shaders.
    Multi(Vec<(String, HandleId)>),
}

/// The first handle under `name`, if any.
pub open spec fn module_lookup(pairs: Seq<(Seq<char>, HandleId)>, name: Seq<char>) -> Option<
    HandleId,
>
    decreases pairs.len(),
{
    if pairs.len() == 0 {
        None
    } else if pairs[0].0 == name {
        Some(pairs[0].1)
    } else {
        module_lookup(pairs.drop_first(), name)
    }
}

/// A stored artifact: the entry-point symbols known to exist in the binary,
/// and the shader handle(s) of its module(s).
#[derive(Debug, Clone, PartialEq, Eq)]
pub struct RustGpuArtifact {
    pub entry_points: Vec<String>,
    pub modules: RustGpuModules,
}

impl RustGpuArtifact {
    /// The shader handle to bind for `entry_point`: the single module if
    /// there is only one, else the module stored under that exact symbol.
    pub open spec fn spec_module_for(self, entry_point: Seq<char>) -> Option<HandleId> {
        match self.modules {
            RustGpuModules::Single(h) => Some(h),
            RustGpuModules::Multi(pairs) => module_lookup(pairs.deep_view(), entry_point),
        }
    }

    /// Whether the artifact's entry-point list contains `name`.
    pub fn has_entry_point(&self, name: &String) -> (r: bool)
        ensures
            r == self.entry_points.deep_view().contains(name@),
    {
        crate::entry_point::contains_name(&self.entry_points, name)
    }

    /// The shader handle to bind for `entry_point`, if the artifact has one.
    pub fn module_for(&self, entry_point: &String) -> (r: Option<HandleId>)
        ensures
            r == self.spec_module_for(entry_point@),
    {
        match &self.modules {
            RustGpuModules::Single(h) => Some(*h),
            RustGpuModules::Multi(pairs) => {
                proof {
                    assert(pairs.deep_view().skip(0) =~= pairs.deep_view());
                }
                let mut i: usize = 0;
                while i < pairs.len()
                    invariant
                        0 <= i <= pairs.len(),
                        self.spec_module_for(entry_point@) == module_lookup(
                            pairs.deep_view(),
                            entry_point@,
                        ),
                        module_lookup(pairs.deep_view(), entry_point@) == module_lookup(
                            pairs.deep_view().skip(i as int),
                            entry_point@,
                        ),
                    decreases pairs.len() - i,
                {
                    proof {
                        assert(pairs.deep_view().skip(i as int)[0] == pairs.deep_view()[i as int]);
                        assert(pairs.deep_view().skip(i as int).drop_first()
                            =~= pairs.deep_view().skip(i + 1));
                    }
                    if pairs[i].0.eq(entry_point) {
                        proof {
                            assert(pairs.deep_view()[i as int] == pairs@[i as int].deep_view());
                            assert(pairs.deep_view()[i as int].0 == entry_point@);
                            assert(pairs.deep_view()[i as int].1 == pairs@[i as int].1);
                        }
                        return Some(pairs[i].1);
                    }
                    i = i + 1;
                }
                proof {
                    assert(pairs.deep_view().skip(pairs.len() as int).len() == 0);
                }
                None
            },
        }
    }
}

// ---------------------------------------------------------------------------
// Shader registration.
// ---------------------------------------------------------------------------

/// The shader objects this library has registered with the host's asset
/// system, by content.  Registration happens exactly once per distinct
/// binary module: handing in bytes seen before returns the handle they were
/// first registered under, so frequent hot-reloads do not leak shader
/// resources.
#[derive(Debug, Clone)]
pub struct ShaderAssets {
    pub entries: Vec<(HandleId, Vec<u8>)>,
}

impl ShaderAssets {
    /// Handles are the registration order, and no two entries hold the same
    /// bytes.
    pub open spec fn wf(self) -> bool {
        (forall|i: int| 0 <= i < self.entries@.len() ==> (#[trigger] self.entries@[i].0).0 == i)
            && (forall|i: int, j: int|
            0 <= i < j < self.entries@.len() ==> self.entries@[i].1@ != self.entries@[j].1@)
    }

    /// The bytes registered under `h`, if any.
    pub open spec fn blob_of(self, h: HandleId) -> Option<Seq<u8>> {
        if h.0 < self.entries@.len() {
            Some(self.entries@[h.0 as int].1@)
        } else {
            None
        }
    }

    /// How many modules are registered.
    pub open spec fn count(self) -> int {
        self.entries@.len() as int
    }

    /// `self` holds everything `prev` held, under the same handles.
    pub open spec fn extends(self, prev: Self) -> bool {
        prev.entries@.len() <= self.entries@.len() && forall|i: int|
            0 <= i < prev.entries@.len() ==> self.entries@[i] == prev.entries@[i]
    }

    /// An empty registry.
    pub fn new() -> (r: Self)
        ensures
            r.wf(),
            r.count() == 0,
    {
        ShaderAssets { entries: Vec::new() }
    }

    /// Registers a binary module and returns its shader handle.  Bytes seen
    /// before give back their existing handle and leave the registry
    /// untouched; new bytes are registered under a fresh handle.
    pub fn add(&mut self, blob: Vec<u8>) -> (r: HandleId)
        requires
            old(self).wf(),
        ensures
            final(self).wf(),
            final(self).extends(*old(self)),
            final(self).blob_of(r) == Some(blob@),
            (exists|i: int|
                0 <= i < old(self).entries@.len() && old(self).entries@[i].1@ == blob@)
                ==> *final(self) == *old(self),
            !(exists|i: int|
                0 <= i < old(self).entries@.len() && old(self).entries@[i].1@ == blob@)
                ==> final(self).count() == old(self).count() + 1,
    {
        let mut i: usize = 0;
        while i < self.entries.len()
            invariant
                0 <= i <= self.entries@.len(),
                self == old(self),
                old(self).wf(),
                forall|j: int| 0 <= j < i ==> self.entries@[j].1@ != blob@,
            decreases self.entries@.len() - i,
        {
            if bytes_eq(&self.entries[i].1, &blob) {
                return self.entries[i].0;
            }
            i = i + 1;
        }
        let h = HandleId(self.entries.len() as u64);
        let ghost orig = self.entries@;
        self.entries.push((h, blob));
        proof {
            assert forall|a: int| 0 <= a < self.entries@.len() implies (
            #[trigger] self.entries@[a].0).0 == a by {
                if a < self.entries@.len() - 1 {
                    assert(self.entries@[a] == orig[a]);
                }
            }
            assert forall|a: int, b: int|
                0 <= a < b < self.entries@.len() implies self.entries@[a].1@
                != self.entries@[b].1@ by {
                assert(self.entries@[a] == orig[a]);
                if b < self.entries@.len() - 1 {
                    assert(self.entries@[b] == orig[b]);
                }
            }
        }
        h
    }
}

/// Whether two byte vectors hold the same bytes.
fn bytes_eq(a: &Vec<u8>, b: &Vec<u8>) -> (r: bool)
    ensures
        r == (a@ == b@),
{
    if a.len() != b.len() {
        proof {
            assert(a@.len() != b@.len());
        }
        return false;
    }
    let mut i: usize = 0;
    while i < a.len()
        invariant
            0 <= i <= a@.len(),
            a@.len() == b@.len(),
            forall|j: int| 0 <= j < i ==> a@[j] == b@[j],
        decreases a@.len() - i,
    {
        if a[i] != b[i] {
            return false;
        }
        i = i + 1;
    }
    proof {
        assert(a@ =~= b@);
    }
    true
}

/// A copy of the bytes.
fn clone_bytes(v: &Vec<u8>) -> (r: Vec<u8>)
    ensures
        r@ == v@,
{
    let mut r: Vec<u8> = Vec::new();
    let mut i: usize = 0;
    while i < v.len()
        invariant
            0 <= i <= v@.len(),
            r@ == v@.subrange(0, i as int),
        decreases v@.len() - i,
    {
        r.push(v[i]);
        proof {
            assert(v@.subrange(0, i + 1) =~= v@.subrange(0, i as int).push(v@[i as int]));
        }
        i = i + 1;
    }
    proof {
        assert(v@.subrange(0, v@.len() as int) =~= v@);
    }
    r
}

/// A copy of the strings.
pub(crate) fn clone_strings(v: &Vec<String>) -> (r: Vec<String>)
    ensures
        r.deep_view() == v.deep_view(),
{
    broadcast use crate::seqs::lemma_vec_deep_view, crate::seqs::lemma_deep_of_push;

    let mut r: Vec<String> = Vec::new();
    proof {
        assert(r.deep_view() =~= v.deep_view().subrange(0, 0));
    }
    let mut i: usize = 0;
    while i < v.len()
        invariant
            0 <= i <= v@.len(),
            r.deep_view() == v.deep_view().subrange(0, i as int),
        decreases v@.len() - i,
    {
        r.push(v[i].clone());
        proof {
            assert(v.deep_view().subrange(0, i + 1) =~= v.deep_view().subrange(0, i as int).push(
                v.deep_view()[i as int],
            ));
        }
        i = i + 1;
    }
    proof {
        assert(v.deep_view().subrange(0, v@.len() as int) =~= v.deep_view());
    }
    r
}

// ---------------------------------------------------------------------------
// The artifact store.
// ---------------------------------------------------------------------------

/// The process-wide artifact store: the single source of truth mapping an
/// artifact handle to its decoded contents.
#[derive(Debug, Clone)]
pub struct RustGpuArtifacts {
    pub artifacts: Vec<(HandleId, RustGpuArtifact)>,
}

impl RustGpuArtifacts {
    /// Each handle has at most one entry.
    pub open spec fn wf(self) -> bool {
        forall|a: int, b: int|
            0 <= a < b < self.artifacts@.len() ==> self.artifacts@[a].0 != self.artifacts@[b].0
    }

    /// The handle-to-artifact map the store holds.
    pub open spec fn as_map(self) -> Map<HandleId, RustGpuArtifact> {
        map_of(self.artifacts@)
    }

    /// An empty store.
    pub fn new() -> (r: Self)
        ensures
            r.wf(),
            r.as_map() == Map::<HandleId, RustGpuArtifact>::empty(),
    {
        RustGpuArtifacts { artifacts: Vec::new() }
    }

    /// The index of the entry under `handle`, if any.
    fn index_of(&self, handle: HandleId) -> (r: Option<usize>)
        ensures
            match r {
                Some(i) => i < self.artifacts@.len() && self.artifacts@[i as int].0 == handle,
                None => forall|i: int|
                    0 <= i < self.artifacts@.len() ==> self.artifacts@[i].0 != handle,
            },
    {
        let mut i: usize = 0;
        while i < self.artifacts.len()
            invariant
                0 <= i <= self.artifacts@.len(),
                forall|j: int| 0 <= j < i ==> self.artifacts@[j].0 != handle,
            decreases self.artifacts@.len() - i,
        {
            if self.artifacts[i].0 == handle {
                return Some(i);
            }
            i = i + 1;
        }
        None
    }

    /// Replaces any existing entry for `handle` with `artifact`, atomically
    /// from a reader's point of view: afterwards the store holds exactly the
    /// new artifact under `handle`, and every other handle is untouched.
    pub fn upsert(&mut self, handle: HandleId, artifact: RustGpuArtifact)
        requires
            old(self).wf(),
        ensures
            final(self).wf(),
            final(self).as_map() == old(self).as_map().insert(handle, artifact),
    {
        let ghost orig = self.artifacts@;
        match self.index_of(handle) {
            Some(i) => {
                let _ = self.artifacts.remove(i);
                proof {
                    lemma_map_of_remove(orig, i as int);
                }
                let ghost removed = self.artifacts@;
                self.artifacts.push((handle, artifact));
                proof {
                    assert(self.artifacts@.drop_last() =~= removed);
                    assert(map_of(self.artifacts@) == map_of(removed).insert(handle, artifact));
                    assert(map_of(orig).remove(handle).insert(handle, artifact) =~= map_of(
                        orig,
                    ).insert(handle, artifact));
                    assert forall|a: int, b: int|
                        0 <= a < b < self.artifacts@.len() implies self.artifacts@[a].0
                        != self.artifacts@[b].0 by {
                        if b < self.artifacts@.len() - 1 {
                            // Both inside the removed-from prefix.
                            assert(removed[a] == if a < i as int {
                                orig[a]
                            } else {
                                orig[a + 1]
                            });
                            assert(removed[b] == if b < i as int {
                                orig[b]
                            } else {
                                orig[b + 1]
                            });
                        } else {
                            // The new last entry carries `handle`; the only
                            // old entry under it was removed.
                            assert(self.artifacts@[b].0 == handle);
                            assert(removed[a] == if a < i as int {
                                orig[a]
                            } else {
                                orig[a + 1]
                            });
                        }
                    }
                }
            },
            None => {
                self.artifacts.push((handle, artifact));
                proof {
                    assert(self.artifacts@.drop_last() =~= orig);
                    assert forall|a: int, b: int|
                        0 <= a < b < self.artifacts@.len() implies self.artifacts@[a].0
                        != self.artifacts@[b].0 by {
                        if b == self.artifacts@.len() - 1 {
                            assert(self.artifacts@[a] == orig[a]);
                        } else {
                            assert(self.artifacts@[a] == orig[a]);
                            assert(self.artifacts@[b] == orig[b]);
                        }
                    }
                }
            },
        }
    }

    /// Deletes the entry for `handle`; afterwards a lookup for `handle`
    /// misses cleanly, and every other handle is untouched.  Removing an
    /// unknown handle is a no-op, not an error.
    pub fn remove(&mut self, handle: HandleId)
        requires
            old(self).wf(),
        ensures
            final(self).wf(),
            final(self).as_map() == old(self).as_map().remove(handle),
    {
        let ghost orig = self.artifacts@;
        match self.index_of(handle) {
            Some(i) => {
                let _ = self.artifacts.remove(i);
                proof {
                    lemma_map_of_remove(orig, i as int);
                    assert forall|a: int, b: int|
                        0 <= a < b < self.artifacts@.len() implies self.artifacts@[a].0
                        != self.artifacts@[b].0 by {
                        assert(self.artifacts@[a] == if a < i as int {
                            orig[a]
                        } else {
                            orig[a + 1]
                        });
                        assert(self.artifacts@[b] == if b < i as int {
                            orig[b]
                        } else {
                            orig[b + 1]
                        });
                    }
                }
            },
            None => {
                proof {
                    lemma_map_of_contains(orig);
                    assert(!map_of(orig).contains_key(handle));
                    assert(map_of(orig) =~= map_of(orig).remove(handle));
                }
            },
        }
    }

    /// Read-only lookup: the artifact stored under `handle`, or `None` when
    /// the artifact is not (or no longer) loaded — which callers treat as
    /// "fall back to the default shader", never as an error.
    pub fn get(&self, handle: HandleId) -> (r: Option<&RustGpuArtifact>)
        requires
            self.wf(),
        ensures
            match r {
                Some(a) => self.as_map().contains_key(handle) && *a == self.as_map()[handle],
                None => !self.as_map().contains_key(handle),
            },
    {
        proof {
            lemma_map_of_contains(self.artifacts@);
        }
        match self.index_of(handle) {
            Some(i) => {
                proof {
                    lemma_map_of_at(self.artifacts@, i as int);
                }
                Some(&self.artifacts[i].1)
            },
            None => None,
        }
    }
}

// ---------------------------------------------------------------------------
// Ingestion.
// ---------------------------------------------------------------------------

/// A stored artifact matches a decoded bundle under a registry: same
/// entry-point list, and each binary module registered under the shader
/// handle the artifact records for it, key for key and in order.
pub open spec fn corresponds(
    a: RustGpuArtifact,
    o: RustGpuBuilderOutput,
    shaders: ShaderAssets,
) -> bool {
    a.entry_points.deep_view() == o.entry_points.deep_view() && match (o.modules, a.modules) {
        (RustGpuBuilderModules::Single(b), RustGpuModules::Single(h)) => shaders.blob_of(h)
            == Some(b@),
        (RustGpuBuilderModules::Multi(src), RustGpuModules::Multi(dst)) => dst@.len() == src@.len()
            && forall|i: int|
            0 <= i < dst@.len() ==> (#[trigger] dst@[i]).0@ == src@[i].0@ && shaders.blob_of(
                dst@[i].1,
            ) == Some(src@[i].1@),
        _ => false,
    }
}

/// A registry extension preserves every registered module, so artifact
/// correspondence survives later registrations.
pub proof fn lemma_corresponds_extends(
    a: RustGpuArtifact,
    o: RustGpuBuilderOutput,
    s1: ShaderAssets,
    s2: ShaderAssets,
)
    requires
        corresponds(a, o, s1),
        s2.extends(s1),
    ensures
        corresponds(a, o, s2),
{
    match (o.modules, a.modules) {
        (RustGpuBuilderModules::Single(b), RustGpuModules::Single(h)) => {
            assert(s2.entries@[h.0 as int] == s1.entries@[h.0 as int]);
        },
        (RustGpuBuilderModules::Multi(src), RustGpuModules::Multi(dst)) => {
            assert forall|i: int|
                0 <= i < dst@.len() implies (#[trigger] dst@[i]).0@ == src@[i].0@ && s2.blob_of(
                dst@[i].1,
            ) == Some(src@[i].1@) by {
                let h = dst@[i].1;
                assert(s1.blob_of(h) == Some(src@[i].1@));
                assert(s2.entries@[h.0 as int] == s1.entries@[h.0 as int]);
            }
        },
        _ => {},
    }
}

/// Turns a decoded builder bundle into a stored artifact, registering each
/// binary module (at most once) with the shader registry.
pub fn ingest_builder_output(output: &RustGpuBuilderOutput, shaders: &mut ShaderAssets) -> (r:
    RustGpuArtifact)
    requires
        old(shaders).wf(),
    ensures
        final(shaders).wf(),
        final(shaders).extends(*old(shaders)),
        corresponds(r, *output, *final(shaders)),
{
    let entry_points = clone_strings(&output.entry_points);
    match &output.modules {
        RustGpuBuilderModules::Single(b) => {
            let h = shaders.add(clone_bytes(b));
            RustGpuArtifact { entry_points, modules: RustGpuModules::Single(h) }
        },
        RustGpuBuilderModules::Multi(src) => {
            let mut dst: Vec<(String, HandleId)> = Vec::new();
            let ghost start = *shaders;
            let mut i: usize = 0;
            while i < src.len()
                invariant
                    0 <= i <= src@.len(),
                    shaders.wf(),
                    shaders.extends(start),
                    start.wf(),
                    dst@.len() == i,
                    forall|j: int|
                        0 <= j < i ==> (#[trigger] dst@[j]).0@ == src@[j].0@ && shaders.blob_of(
                            dst@[j].1,
                        ) == Some(src@[j].1@),
                decreases src@.len() - i,
            {
                let ghost mid = *shaders;
                let h = shaders.add(clone_bytes(&src[i].1));
                proof {
                    assert forall|j: int|
                        0 <= j < i implies (#[trigger] dst@[j]).0@ == src@[j].0@
                        && shaders.blob_of(dst@[j].1) == Some(src@[j].1@) by {
                        let hj = dst@[j].1;
                        assert(mid.blob_of(hj) == Some(src@[j].1@));
                        assert(shaders.entries@[hj.0 as int] == mid.entries@[hj.0 as int]);
                    }
                }
                dst.push((src[i].0.clone(), h));
                i = i + 1;
            }
            proof {
                assert(shaders.extends(*old(shaders)));
            }
            RustGpuArtifact { entry_points, modules: RustGpuModules::Multi(dst) }
        },
    }
}

// ---------------------------------------------------------------------------
// Asset-event handling.
// ---------------------------------------------------------------------------

/// The decoded bundle stored under `h`, if any.
pub open spec fn output_at(
    outputs: Seq<(HandleId, RustGpuBuilderOutput)>,
    h: HandleId,
) -> Option<RustGpuBuilderOutput>
    decreases outputs.len(),
{
    if outputs.len() == 0 {
        None
    } else if outputs[0].0 == h {
        Some(outputs[0].1)
    } else {
        output_at(outputs.drop_first(), h)
    }
}

/// The decoded bundle stored under `h`, if any.
fn find_output<'a>(outputs: &'a Vec<(HandleId, RustGpuBuilderOutput)>, h: HandleId) -> (r: Option<
    &'a RustGpuBuilderOutput,
>)
    ensures
        match r {
            Some(o) => output_at(outputs@, h) == Some(*o),
            None => output_at(outputs@, h) is None,
        },
{
    proof {
        assert(outputs@.skip(0) =~= outputs@);
    }
    let mut i: usize = 0;
    while i < outputs.len()
        invariant
            0 <= i <= outputs@.len(),
            output_at(outputs@, h) == output_at(outputs@.skip(i as int), h),
        decreases outputs@.len() - i,
    {
        proof {
            assert(outputs@.skip(i as int)[0] == outputs@[i as int]);
            assert(outputs@.skip(i as int).drop_first() =~= outputs@.skip(i + 1));
        }
        if outputs[i].0 == h {
            return Some(&outputs[i].1);
        }
        i = i + 1;
    }
    proof {
        assert(outputs@.skip(outputs@.len() as int).len() == 0);
    }
    None
}

/// What the last event concerning `h` did: `Some(true)` created or modified
/// it, `Some(false)` removed it, `None` when no event concerns it.
pub open spec fn last_action(events: Seq<AssetEvent>, h: HandleId) -> Option<bool>
    decreases events.len(),
{
    if events.len() == 0 {
        None
    } else if events.last().spec_handle() == h {
        Some(events.last().is_upsert())
    } else {
        last_action(events.drop_last(), h)
    }
}

/// The artifact store after a batch of asset events: for every handle, the
/// last event concerning it wins — an upsert leaves an entry matching the
/// decoded bundle, a removal leaves none — and untouched handles keep their
/// entries.
pub open spec fn events_applied(
    events: Seq<AssetEvent>,
    outputs: Seq<(HandleId, RustGpuBuilderOutput)>,
    before: Map<HandleId, RustGpuArtifact>,
    after: Map<HandleId, RustGpuArtifact>,
    shaders: ShaderAssets,
) -> bool {
    forall|h: HandleId|
        match #[trigger] last_action(events, h) {
            Option::None => after.contains_key(h) == before.contains_key(h) && (before.contains_key(
                h,
            ) ==> after[h] == before[h]),
            Option::Some(up) => if up {
                after.contains_key(h) && corresponds(
                    after[h],
                    output_at(outputs, h)->Some_0,
                    shaders,
                )
            } else {
                !after.contains_key(h)
            },
        }
}

/// Applies a batch of asset events to the artifact store: each created or
/// modified bundle is decoded from `outputs`, its modules are registered
/// (once each), and the store entry is replaced wholesale; each removed
/// handle's entry is evicted.  For every handle, the last event wins, and
/// untouched handles keep their entries.
pub fn builder_output_events(
    events: &Vec<AssetEvent>,
    outputs: &Vec<(HandleId, RustGpuBuilderOutput)>,
    artifacts: &mut RustGpuArtifacts,
    shaders: &mut ShaderAssets,
)
    requires
        old(artifacts).wf(),
        old(shaders).wf(),
        forall|k: int|
            0 <= k < events@.len() && (#[trigger] events@[k]).is_upsert() ==> output_at(
                outputs@,
                events@[k].spec_handle(),
            ) is Some,
    ensures
        final(artifacts).wf(),
        final(shaders).wf(),
        final(shaders).extends(*old(shaders)),
        events_applied(
            events@,
            outputs@,
            old(artifacts).as_map(),
            final(artifacts).as_map(),
            *final(shaders),
        ),
{
    proof {
        assert(events@.subrange(0, 0).len() == 0);
    }
    let mut k: usize = 0;
    while k < events.len()
        invariant
            0 <= k <= events@.len(),
            old(artifacts).wf(),
            old(shaders).wf(),
            artifacts.wf(),
            shaders.wf(),
            shaders.extends(*old(shaders)),
            forall|j: int|
                0 <= j < events@.len() && (#[trigger] events@[j]).is_upsert() ==> output_at(
                    outputs@,
                    events@[j].spec_handle(),
                ) is Some,
            events_applied(
                events@.subrange(0, k as int),
                outputs@,
                old(artifacts).as_map(),
                artifacts.as_map(),
                *shaders,
            ),
        decreases events@.len() - k,
    {
        let event = events[k];
        let handle = event.handle();
        let ghost prefix = events@.subrange(0, k as int);
        let ghost prefix1 = events@.subrange(0, k + 1);
        proof {
            assert(prefix1.drop_last() =~= prefix);
            assert(prefix1.last() == events@[k as int]);
        }
        let is_upsert = match &event {
            AssetEvent::Created { .. } => true,
            AssetEvent::Modified { .. } => true,
            AssetEvent::Removed { .. } => false,
        };
        if is_upsert {
            // The precondition rules the missing-bundle case out: every
            // created or modified handle has a decoded bundle.
            if let Some(output) = find_output(outputs, handle) {
                let ghost mid_shaders = *shaders;
                let artifact = ingest_builder_output(output, shaders);
                proof {
                    assert forall|h: HandleId|
                        last_action(prefix, h) == Some(true) implies corresponds(
                        artifacts.as_map()[h],
                        output_at(outputs@, h)->Some_0,
                        *shaders,
                    ) by {
                        lemma_corresponds_extends(
                            artifacts.as_map()[h],
                            output_at(outputs@, h)->Some_0,
                            mid_shaders,
                            *shaders,
                        );
                    }
                }
                artifacts.upsert(handle, artifact);
            } else {
                proof {
                    assert(events@[k as int].is_upsert());
                    assert(output_at(outputs@, events@[k as int].spec_handle()) is Some);
                }
            }
        } else {
            artifacts.remove(handle);
        }
        proof {
            assert forall|h: HandleId|
                last_action(prefix1, h) == last_action(prefix, h) || h == events@[
                k as int
            ].spec_handle() by {}
        }
        k = k + 1;
    }
    proof {
        assert(events@.subrange(0, events@.len() as int) =~= events@);
    }
}

} // verus!
