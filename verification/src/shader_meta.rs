//! Shader metadata: per-binary entry-point lists loaded from companion
//! metadata files, used to pre-validate a computed symbol before binding.

use vstd::prelude::*;

use crate::asset::{AssetEvent, HandleId};
use crate::handle_map::{lemma_map_of_at, lemma_map_of_contains, lemma_map_of_remove, map_of};
use crate::systems::ChangedShaders;

verus! {

/// Metadata of one compiled binary module: the entry-point symbols compiled
/// into it, and the path of the binary it describes.
#[derive(Debug, PartialEq, Eq)]
pub struct ModuleMeta {
    /// The entry points compiled into the corresponding binary.
    pub entry_points: Vec<String>,
    /// Path to the corresponding binary file.
    pub module: String,
}

impl DeepView for ModuleMeta {
    type V = (Seq<Seq<char>>, Seq<char>);

    open spec fn deep_view(&self) -> (Seq<Seq<char>>, Seq<char>) {
        (self.entry_points.deep_view(), self.module@)
    }
}

impl Clone for ModuleMeta {
    /// A clone describes the same entry points and module path.
    fn clone(&self) -> (r: Self)
        ensures
            r.deep_view() == self.deep_view(),
    {
        ModuleMeta {
            entry_points: crate::builder_output::clone_strings(&self.entry_points),
            module: self.module.clone(),
        }
    }
}

// ---------------------------------------------------------------------------
// The metadata store.
// ---------------------------------------------------------------------------

/// The loaded metadata, keyed by the shader handle it describes.
#[derive(Debug, PartialEq, Eq)]
pub struct ShaderMeta {
    pub metas: Vec<(HandleId, ModuleMeta)>,
}

impl ShaderMeta {
    /// Each shader handle has at most one entry.
    pub open spec fn wf(self) -> bool {
        forall|a: int, b: int|
            0 <= a < b < self.metas@.len() ==> self.metas@[a].0 != self.metas@[b].0
    }

    /// The handle-to-metadata map the store holds.
    pub open spec fn as_map(self) -> Map<HandleId, ModuleMeta> {
        map_of(self.metas@)
    }

    /// An empty store.
    pub fn new() -> (r: Self)
        ensures
            r.wf(),
            r.as_map() == Map::<HandleId, ModuleMeta>::empty(),
    {
        ShaderMeta { metas: Vec::new() }
    }

    /// The index of the entry under `handle`, if any.
    fn index_of(&self, handle: HandleId) -> (r: Option<usize>)
        ensures
            match r {
                Some(i) => i < self.metas@.len() && self.metas@[i as int].0 == handle,
                None => forall|i: int|
                    0 <= i < self.metas@.len() ==> self.metas@[i].0 != handle,
            },
    {
        let mut i: usize = 0;
        while i < self.metas.len()
            invariant
                0 <= i <= self.metas@.len(),
                forall|j: int| 0 <= j < i ==> self.metas@[j].0 != handle,
            decreases self.metas@.len() - i,
        {
            if self.metas[i].0 == handle {
                return Some(i);
            }
            i = i + 1;
        }
        None
    }

    /// Replaces any existing metadata for `handle` with `meta`.
    pub fn insert(&mut self, handle: HandleId, meta: ModuleMeta)
        requires
            old(self).wf(),
        ensures
            final(self).wf(),
            final(self).as_map() == old(self).as_map().insert(handle, meta),
    {
        let ghost orig = self.metas@;
        match self.index_of(handle) {
            Some(i) => {
                let _ = self.metas.remove(i);
                proof {
                    lemma_map_of_remove(orig, i as int);
                }
                let ghost removed = self.metas@;
                self.metas.push((handle, meta));
                proof {
                    assert(self.metas@.drop_last() =~= removed);
                    assert(map_of(self.metas@) == map_of(removed).insert(handle, meta));
                    assert(map_of(orig).remove(handle).insert(handle, meta) =~= map_of(
                        orig,
                    ).insert(handle, meta));
                    assert forall|a: int, b: int|
                        0 <= a < b < self.metas@.len() implies self.metas@[a].0
                        != self.metas@[b].0 by {
                        if b < self.metas@.len() - 1 {
                            assert(removed[a] == if a < i as int {
                                orig[a]
                            } else {
                                orig[a + 1]
                            });
                            assert(removed[b] == if b < i as int {
                                orig[b]
                            } else {
                                orig[b + 1]
                            });
                        } else {
                            assert(self.metas@[b].0 == handle);
                            assert(removed[a] == if a < i as int {
                                orig[a]
                            } else {
                                orig[a + 1]
                            });
                        }
                    }
                }
            },
            None => {
                self.metas.push((handle, meta));
                proof {
                    assert(self.metas@.drop_last() =~= orig);
                    assert forall|a: int, b: int|
                        0 <= a < b < self.metas@.len() implies self.metas@[a].0
                        != self.metas@[b].0 by {
                        assert(self.metas@[a] == orig[a]);
                        if b < self.metas@.len() - 1 {
                            assert(self.metas@[b] == orig[b]);
                        }
                    }
                }
            },
        }
    }

    /// Forgets the metadata for `handle`; forgetting an unknown handle is a
    /// no-op.
    pub fn remove(&mut self, handle: HandleId)
        requires
            old(self).wf(),
        ensures
            final(self).wf(),
            final(self).as_map() == old(self).as_map().remove(handle),
    {
        let ghost orig = self.metas@;
        match self.index_of(handle) {
            Some(i) => {
                let _ = self.metas.remove(i);
                proof {
                    lemma_map_of_remove(orig, i as int);
                    assert forall|a: int, b: int|
                        0 <= a < b < self.metas@.len() implies self.metas@[a].0
                        != self.metas@[b].0 by {
                        assert(self.metas@[a] == if a < i as int {
                            orig[a]
                        } else {
                            orig[a + 1]
                        });
                        assert(self.metas@[b] == if b < i as int {
                            orig[b]
                        } else {
                            orig[b + 1]
                        });
                    }
                }
            },
            None => {
                proof {
                    lemma_map_of_contains(orig);
                    assert(!map_of(orig).contains_key(handle));
                    assert(map_of(orig) =~= map_of(orig).remove(handle));
                }
            },
        }
    }

    /// The metadata stored for `handle`, if any.
    pub fn get(&self, handle: HandleId) -> (r: Option<&ModuleMeta>)
        requires
            self.wf(),
        ensures
            match r {
                Some(m) => self.as_map().contains_key(handle) && *m == self.as_map()[handle],
                None => !self.as_map().contains_key(handle),
            },
    {
        proof {
            lemma_map_of_contains(self.metas@);
        }
        match self.index_of(handle) {
            Some(i) => {
                proof {
                    lemma_map_of_at(self.metas@, i as int);
                }
                Some(&self.metas[i].1)
            },
            None => None,
        }
    }
}

// ---------------------------------------------------------------------------
// The shader-to-metadata binding.
// ---------------------------------------------------------------------------

/// The two-way binding between a shader handle and the handle of its
/// metadata asset.
#[derive(Debug, Clone, PartialEq, Eq)]
pub struct ShaderMetaMap {
    pub shader_to_meta: Vec<(HandleId, HandleId)>,
    pub meta_to_shader: Vec<(HandleId, HandleId)>,
}

impl ShaderMetaMap {
    /// Both directions have unique keys, and each binding stands in both.
    pub open spec fn wf(self) -> bool {
        (forall|a: int, b: int|
            0 <= a < b < self.shader_to_meta@.len() ==> self.shader_to_meta@[a].0
                != self.shader_to_meta@[b].0) && (forall|a: int, b: int|
            0 <= a < b < self.meta_to_shader@.len() ==> self.meta_to_shader@[a].0
                != self.meta_to_shader@[b].0) && (forall|i: int|
            0 <= i < self.shader_to_meta@.len() ==> self.meta_to_shader@.contains(
                ((#[trigger] self.shader_to_meta@[i]).1, self.shader_to_meta@[i].0),
            )) && (forall|i: int|
            0 <= i < self.meta_to_shader@.len() ==> self.shader_to_meta@.contains(
                ((#[trigger] self.meta_to_shader@[i]).1, self.meta_to_shader@[i].0),
            ))
    }

    /// The metadata handle bound to a shader, if any.
    pub open spec fn meta_of(self, shader: HandleId) -> Option<HandleId> {
        if map_of(self.shader_to_meta@).contains_key(shader) {
            Some(map_of(self.shader_to_meta@)[shader])
        } else {
            None
        }
    }

    /// The shader handle bound to a metadata asset, if any.
    pub open spec fn shader_of(self, meta: HandleId) -> Option<HandleId> {
        if map_of(self.meta_to_shader@).contains_key(meta) {
            Some(map_of(self.meta_to_shader@)[meta])
        } else {
            None
        }
    }

    /// An empty binding.
    pub fn new() -> (r: Self)
        ensures
            r.wf(),
            r.shader_to_meta@.len() == 0,
            r.meta_to_shader@.len() == 0,
    {
        ShaderMetaMap { shader_to_meta: Vec::new(), meta_to_shader: Vec::new() }
    }

    /// Binds a freshly loaded shader to its metadata asset.  Both handles
    /// must be unbound: a binding is made once, when the pair is loaded.
    pub fn add(&mut self, shader: HandleId, meta: HandleId)
        requires
            old(self).wf(),
            old(self).meta_of(shader) is None,
            old(self).shader_of(meta) is None,
        ensures
            final(self).wf(),
            final(self).meta_of(shader) == Some(meta),
            final(self).shader_of(meta) == Some(shader),
            forall|s2: HandleId|
                s2 != shader ==> #[trigger] final(self).meta_of(s2) == old(self).meta_of(s2),
            forall|m2: HandleId|
                m2 != meta ==> #[trigger] final(self).shader_of(m2) == old(self).shader_of(m2),
    {
        proof {
            lemma_map_of_contains(self.shader_to_meta@);
            lemma_map_of_contains(self.meta_to_shader@);
        }
        let ghost s2m0 = self.shader_to_meta@;
        let ghost m2s0 = self.meta_to_shader@;
        self.shader_to_meta.push((shader, meta));
        self.meta_to_shader.push((meta, shader));
        proof {
            assert(self.shader_to_meta@.drop_last() =~= s2m0);
            assert(self.meta_to_shader@.drop_last() =~= m2s0);
            lemma_map_of_contains(self.shader_to_meta@);
            lemma_map_of_contains(self.meta_to_shader@);
            assert forall|a: int, b: int|
                0 <= a < b < self.shader_to_meta@.len() implies self.shader_to_meta@[a].0
                != self.shader_to_meta@[b].0 by {
                assert(self.shader_to_meta@[a] == s2m0[a]);
                if b < self.shader_to_meta@.len() - 1 {
                    assert(self.shader_to_meta@[b] == s2m0[b]);
                } else {
                    assert(self.shader_to_meta@[b] == (shader, meta));
                    if s2m0[a].0 == shader {
                        assert(map_of(s2m0).contains_key(shader));
                    }
                }
            }
            assert forall|a: int, b: int|
                0 <= a < b < self.meta_to_shader@.len() implies self.meta_to_shader@[a].0
                != self.meta_to_shader@[b].0 by {
                assert(self.meta_to_shader@[a] == m2s0[a]);
                if b < self.meta_to_shader@.len() - 1 {
                    assert(self.meta_to_shader@[b] == m2s0[b]);
                } else {
                    assert(self.meta_to_shader@[b] == (meta, shader));
                    if m2s0[a].0 == meta {
                        assert(map_of(m2s0).contains_key(meta));
                    }
                }
            }
            assert forall|i: int|
                0 <= i < self.shader_to_meta@.len() implies self.meta_to_shader@.contains(
                ((#[trigger] self.shader_to_meta@[i]).1, self.shader_to_meta@[i].0),
            ) by {
                if i < self.shader_to_meta@.len() - 1 {
                    assert(self.shader_to_meta@[i] == s2m0[i]);
                    let p = (s2m0[i].1, s2m0[i].0);
                    let j = choose|j: int| 0 <= j < m2s0.len() && m2s0[j] == p;
                    assert(self.meta_to_shader@[j] == p);
                } else {
                    assert(self.meta_to_shader@[self.meta_to_shader@.len() - 1] == (
                        meta,
                        shader,
                    ));
                }
            }
            assert forall|i: int|
                0 <= i < self.meta_to_shader@.len() implies self.shader_to_meta@.contains(
                ((#[trigger] self.meta_to_shader@[i]).1, self.meta_to_shader@[i].0),
            ) by {
                if i < self.meta_to_shader@.len() - 1 {
                    assert(self.meta_to_shader@[i] == m2s0[i]);
                    let p = (m2s0[i].1, m2s0[i].0);
                    let j = choose|j: int| 0 <= j < s2m0.len() && s2m0[j] == p;
                    assert(self.shader_to_meta@[j] == p);
                } else {
                    assert(self.shader_to_meta@[self.shader_to_meta@.len() - 1] == (
                        shader,
                        meta,
                    ));
                }
            }
            lemma_map_of_at(self.shader_to_meta@, self.shader_to_meta@.len() - 1);
            lemma_map_of_at(self.meta_to_shader@, self.meta_to_shader@.len() - 1);
            assert forall|s2: HandleId|
                s2 != shader implies #[trigger] self.meta_of(s2) == old(self).meta_of(s2) by {
                assert(map_of(self.shader_to_meta@) == map_of(s2m0).insert(shader, meta));
            }
            assert forall|m2: HandleId|
                m2 != meta implies #[trigger] self.shader_of(m2) == old(self).shader_of(m2) by {
                assert(map_of(self.meta_to_shader@) == map_of(m2s0).insert(meta, shader));
            }
        }
    }

    /// The metadata handle bound to `shader`, if any.
    pub fn meta(&self, shader: HandleId) -> (r: Option<HandleId>)
        requires
            self.wf(),
        ensures
            r == self.meta_of(shader),
    {
        proof {
            lemma_map_of_contains(self.shader_to_meta@);
        }
        let mut i: usize = 0;
        while i < self.shader_to_meta.len()
            invariant
                0 <= i <= self.shader_to_meta@.len(),
                self.wf(),
                forall|j: int| 0 <= j < i ==> self.shader_to_meta@[j].0 != shader,
            decreases self.shader_to_meta@.len() - i,
        {
            if self.shader_to_meta[i].0 == shader {
                proof {
                    lemma_map_of_at(self.shader_to_meta@, i as int);
                }
                return Some(self.shader_to_meta[i].1);
            }
            i = i + 1;
        }
        proof {
            lemma_map_of_contains(self.shader_to_meta@);
        }
        None
    }

    /// Drops the binding of `shader`, in both directions.
    pub fn remove_by_shader(&mut self, shader: HandleId)
        requires
            old(self).wf(),
            old(self).meta_of(shader) is Some,
        ensures
            final(self).wf(),
            final(self).meta_of(shader) is None,
            final(self).shader_of(old(self).meta_of(shader)->Some_0) is None,
            forall|s2: HandleId|
                s2 != shader ==> #[trigger] final(self).meta_of(s2) == old(self).meta_of(s2),
            forall|m2: HandleId|
                m2 != old(self).meta_of(shader)->Some_0 ==> #[trigger] final(self).shader_of(m2)
                    == old(self).shader_of(m2),
    {
        proof {
            lemma_map_of_contains(self.shader_to_meta@);
        }
        let mut i: usize = 0;
        while i < self.shader_to_meta.len() && self.shader_to_meta[i].0 != shader
            invariant
                0 <= i <= self.shader_to_meta@.len(),
                self == old(self),
                old(self).wf(),
                map_of(old(self).shader_to_meta@).contains_key(shader),
                exists|j: int|
                    0 <= j < self.shader_to_meta@.len() && (#[trigger] self.shader_to_meta@[j]).0
                        == shader,
                forall|j: int| 0 <= j < i ==> self.shader_to_meta@[j].0 != shader,
            decreases self.shader_to_meta@.len() - i,
        {
            i = i + 1;
        }
        proof {
            if i >= self.shader_to_meta@.len() {
                let j = choose|j: int|
                    0 <= j < self.shader_to_meta@.len() && (#[trigger] self.shader_to_meta@[j]).0
                        == shader;
                assert(false);
            }
            lemma_map_of_at(self.shader_to_meta@, i as int);
        }
        let meta = self.shader_to_meta[i].1;
        let _ = self.shader_to_meta.remove(i);
        proof {
            lemma_map_of_contains(self.meta_to_shader@);
            assert(old(self).shader_to_meta@.contains((shader, meta)));
            assert(self.meta_to_shader@.contains((meta, shader)));
        }
        let mut j: usize = 0;
        while j < self.meta_to_shader.len() && self.meta_to_shader[j].0 != meta
            invariant
                0 <= j <= self.meta_to_shader@.len(),
                self.meta_to_shader@ == old(self).meta_to_shader@,
                self.meta_to_shader@.contains((meta, shader)),
                forall|k: int| 0 <= k < j ==> self.meta_to_shader@[k].0 != meta,
            decreases self.meta_to_shader@.len() - j,
        {
            j = j + 1;
        }
        proof {
            if j >= self.meta_to_shader@.len() {
                let k = choose|k: int|
                    0 <= k < self.meta_to_shader@.len() && self.meta_to_shader@[k] == (
                        meta,
                        shader,
                    );
                assert(false);
            }
        }
        let _ = self.meta_to_shader.remove(j);
        proof {
            self.lemma_after_unbind(*old(self), shader, meta, i as int, j as int);
        }
    }

    /// Drops the binding of `meta`, in both directions.
    pub fn remove_by_meta(&mut self, meta: HandleId)
        requires
            old(self).wf(),
            old(self).shader_of(meta) is Some,
        ensures
            final(self).wf(),
            final(self).shader_of(meta) is None,
            final(self).meta_of(old(self).shader_of(meta)->Some_0) is None,
            forall|m2: HandleId|
                m2 != meta ==> #[trigger] final(self).shader_of(m2) == old(self).shader_of(m2),
            forall|s2: HandleId|
                s2 != old(self).shader_of(meta)->Some_0 ==> #[trigger] final(self).meta_of(s2)
                    == old(self).meta_of(s2),
    {
        let shader = match self.shader(meta) {
            Some(s) => s,
            None => {
                proof {
                    assert(false);
                }
                HandleId(0)
            },
        };
        proof {
            lemma_map_of_contains(self.meta_to_shader@);
            let k = choose|k: int|
                0 <= k < self.meta_to_shader@.len() && (#[trigger] self.meta_to_shader@[k]).0
                    == meta;
            lemma_map_of_at(self.meta_to_shader@, k);
            assert(self.meta_to_shader@.contains((meta, shader)));
            assert(self.shader_to_meta@.contains((shader, meta)));
            let w = choose|w: int|
                0 <= w < self.shader_to_meta@.len() && self.shader_to_meta@[w] == (shader, meta);
            lemma_map_of_at(self.shader_to_meta@, w);
            assert(self.meta_of(shader) == Some(meta));
        }
        self.remove_by_shader(shader);
    }

    /// After removing the pair bound at `i`/`j`, the binding is gone in both
    /// directions and every other binding stands.
    proof fn lemma_after_unbind(
        self,
        before: Self,
        shader: HandleId,
        meta: HandleId,
        i: int,
        j: int,
    )
        requires
            before.wf(),
            0 <= i < before.shader_to_meta@.len(),
            0 <= j < before.meta_to_shader@.len(),
            before.shader_to_meta@[i] == (shader, meta),
            before.meta_to_shader@[j] == (meta, shader),
            self.shader_to_meta@ == before.shader_to_meta@.remove(i),
            self.meta_to_shader@ == before.meta_to_shader@.remove(j),
        ensures
            self.wf(),
            self.meta_of(shader) is None,
            self.shader_of(meta) is None,
            forall|s2: HandleId|
                s2 != shader ==> #[trigger] self.meta_of(s2) == before.meta_of(s2),
            forall|m2: HandleId|
                m2 != meta ==> #[trigger] self.shader_of(m2) == before.shader_of(m2),
    {
        let s2m0 = before.shader_to_meta@;
        let m2s0 = before.meta_to_shader@;
        let s2m1 = self.shader_to_meta@;
        let m2s1 = self.meta_to_shader@;
        assert forall|a: int| 0 <= a < s2m1.len() implies #[trigger] s2m1[a] == (if a < i {
            s2m0[a]
        } else {
            s2m0[a + 1]
        }) by {}
        assert forall|a: int| 0 <= a < m2s1.len() implies #[trigger] m2s1[a] == (if a < j {
            m2s0[a]
        } else {
            m2s0[a + 1]
        }) by {}
        lemma_map_of_remove(s2m0, i);
        lemma_map_of_remove(m2s0, j);
        lemma_map_of_contains(s2m1);
        lemma_map_of_contains(m2s1);
        lemma_map_of_contains(s2m0);
        lemma_map_of_contains(m2s0);
        assert forall|a: int, b: int| 0 <= a < b < s2m1.len() implies s2m1[a].0 != s2m1[b].0 by {}
        assert forall|a: int, b: int| 0 <= a < b < m2s1.len() implies m2s1[a].0 != m2s1[b].0 by {}
        assert forall|a: int| 0 <= a < s2m1.len() implies m2s1.contains(
            ((#[trigger] s2m1[a]).1, s2m1[a].0),
        ) by {
            let p = (s2m1[a].1, s2m1[a].0);
            assert(s2m0.contains(s2m1[a]));
            assert(m2s0.contains(p));
            let w = choose|w: int| 0 <= w < m2s0.len() && m2s0[w] == p;
            if w == j {
                // Then the binding is the removed one, so its forward entry
                // was at index i.
                assert(s2m1[a] == (shader, meta));
                let a0 = if a < i {
                    a
                } else {
                    a + 1
                };
                assert(s2m0[a0] == (shader, meta));
                assert(s2m0[i].0 == s2m0[a0].0);
                assert(a0 == i);
                assert(false);
            } else {
                let w1 = if w < j {
                    w
                } else {
                    w - 1
                };
                assert(m2s1[w1] == p);
            }
        }
        assert forall|a: int| 0 <= a < m2s1.len() implies s2m1.contains(
            ((#[trigger] m2s1[a]).1, m2s1[a].0),
        ) by {
            let p = (m2s1[a].1, m2s1[a].0);
            assert(m2s0.contains(m2s1[a]));
            assert(s2m0.contains(p));
            let w = choose|w: int| 0 <= w < s2m0.len() && s2m0[w] == p;
            if w == i {
                assert(m2s1[a] == (meta, shader));
                let a0 = if a < j {
                    a
                } else {
                    a + 1
                };
                assert(m2s0[a0] == (meta, shader));
                assert(m2s0[j].0 == m2s0[a0].0);
                assert(a0 == j);
                assert(false);
            } else {
                let w1 = if w < i {
                    w
                } else {
                    w - 1
                };
                assert(s2m1[w1] == p);
            }
        }
        lemma_map_of_at(s2m0, i);
        lemma_map_of_at(m2s0, j);
    }

    /// The shader handle bound to `meta`, if any.
    pub fn shader(&self, meta: HandleId) -> (r: Option<HandleId>)
        requires
            self.wf(),
        ensures
            r == self.shader_of(meta),
    {
        proof {
            lemma_map_of_contains(self.meta_to_shader@);
        }
        let mut i: usize = 0;
        while i < self.meta_to_shader.len()
            invariant
                0 <= i <= self.meta_to_shader@.len(),
                self.wf(),
                forall|j: int| 0 <= j < i ==> self.meta_to_shader@[j].0 != meta,
            decreases self.meta_to_shader@.len() - i,
        {
            if self.meta_to_shader[i].0 == meta {
                proof {
                    lemma_map_of_at(self.meta_to_shader@, i as int);
                }
                return Some(self.meta_to_shader[i].1);
            }
            i = i + 1;
        }
        None
    }
}

// ---------------------------------------------------------------------------
// Metadata asset events.
// ---------------------------------------------------------------------------

/// The metadata asset stored under `h`, if any.
pub open spec fn meta_at(assets: Seq<(HandleId, ModuleMeta)>, h: HandleId) -> Option<ModuleMeta>
    decreases assets.len(),
{
    if assets.len() == 0 {
        None
    } else if assets[0].0 == h {
        Some(assets[0].1)
    } else {
        meta_at(assets.drop_first(), h)
    }
}

/// The metadata asset stored under `h`, if any.
fn find_meta<'a>(assets: &'a Vec<(HandleId, ModuleMeta)>, h: HandleId) -> (r: Option<
    &'a ModuleMeta,
>)
    ensures
        match r {
            Some(m) => meta_at(assets@, h) == Some(*m),
            None => meta_at(assets@, h) is None,
        },
{
    proof {
        assert(assets@.skip(0) =~= assets@);
    }
    let mut i: usize = 0;
    while i < assets.len()
        invariant
            0 <= i <= assets@.len(),
            meta_at(assets@, h) == meta_at(assets@.skip(i as int), h),
        decreases assets@.len() - i,
    {
        proof {
            assert(assets@.skip(i as int)[0] == assets@[i as int]);
            assert(assets@.skip(i as int).drop_first() =~= assets@.skip(i + 1));
        }
        if assets[i].0 == h {
            return Some(&assets[i].1);
        }
        i = i + 1;
    }
    proof {
        assert(assets@.skip(assets@.len() as int).len() == 0);
    }
    None
}

/// The shaders whose metadata saw a created-or-modified event.
pub open spec fn mapped_shaders(events: Seq<AssetEvent>, map: ShaderMetaMap) -> Set<HandleId>
    decreases events.len(),
{
    if events.len() == 0 {
        Set::empty()
    } else {
        let prev = mapped_shaders(events.drop_last(), map);
        if events.last().is_upsert() && map.shader_of(events.last().spec_handle()) is Some {
            prev.insert(map.shader_of(events.last().spec_handle())->Some_0)
        } else {
            prev
        }
    }
}

/// Whether the batch carries fresh metadata for the shader `s`: its bound
/// metadata asset saw a created-or-modified event, and the decoded asset is
/// available.
pub open spec fn meta_updated(
    events: Seq<AssetEvent>,
    assets: Seq<(HandleId, ModuleMeta)>,
    map: ShaderMetaMap,
    s: HandleId,
) -> bool {
    map.meta_of(s) is Some && (exists|k: int|
        0 <= k < events.len() && (#[trigger] events[k]).is_upsert() && events[k].spec_handle()
            == map.meta_of(s)->Some_0) && meta_at(assets, map.meta_of(s)->Some_0) is Some
}

/// The metadata store after a batch of metadata asset events: every shader
/// whose metadata changed holds the freshly decoded asset, and every other
/// shader's entry stands.
pub open spec fn metas_applied(
    events: Seq<AssetEvent>,
    assets: Seq<(HandleId, ModuleMeta)>,
    map: ShaderMetaMap,
    before: Map<HandleId, ModuleMeta>,
    after: Map<HandleId, ModuleMeta>,
) -> bool {
    forall|s: HandleId|
        if #[trigger] meta_updated(events, assets, map, s) {
            after.contains_key(s) && after[s].deep_view() == meta_at(
                assets,
                map.meta_of(s)->Some_0,
            )->Some_0.deep_view()
        } else {
            after.contains_key(s) == before.contains_key(s) && (before.contains_key(s)
                ==> after[s] == before[s])
        }
}

/// Listens for metadata asset events: each created or modified metadata
/// asset that is bound to a shader marks that shader for material
/// reloading, and the decoded metadata (when available) replaces the
/// shader's stored entry.
pub fn module_meta_events(
    module_meta_events: &Vec<AssetEvent>,
    assets: &Vec<(HandleId, ModuleMeta)>,
    shader_meta_map: &ShaderMetaMap,
    changed_shaders: &mut ChangedShaders,
    shader_meta: &mut ShaderMeta,
)
    requires
        old(shader_meta).wf(),
        shader_meta_map.wf(),
    ensures
        final(shader_meta).wf(),
        final(changed_shaders).as_set() == old(changed_shaders).as_set() + mapped_shaders(
            module_meta_events@,
            *shader_meta_map,
        ),
        metas_applied(
            module_meta_events@,
            assets@,
            *shader_meta_map,
            old(shader_meta).as_map(),
            final(shader_meta).as_map(),
        ),
{
    let events = module_meta_events;
    proof {
        assert(events@.subrange(0, 0).len() == 0);
        assert(mapped_shaders(events@.subrange(0, 0), *shader_meta_map)
            =~= Set::<HandleId>::empty());
        assert(changed_shaders.as_set() =~= changed_shaders.as_set() + mapped_shaders(
            events@.subrange(0, 0),
            *shader_meta_map,
        ));
        assert forall|s: HandleId|
            !meta_updated(events@.subrange(0, 0), assets@, *shader_meta_map, s) by {}
    }
    let mut k: usize = 0;
    while k < events.len()
        invariant
            0 <= k <= events@.len(),
            shader_meta.wf(),
            shader_meta_map.wf(),
            changed_shaders.as_set() == old(changed_shaders).as_set() + mapped_shaders(
                events@.subrange(0, k as int),
                *shader_meta_map,
            ),
            metas_applied(
                events@.subrange(0, k as int),
                assets@,
                *shader_meta_map,
                old(shader_meta).as_map(),
                shader_meta.as_map(),
            ),
        decreases events@.len() - k,
    {
        let e = events[k];
        let ghost prefix = events@.subrange(0, k as int);
        let ghost prefix1 = events@.subrange(0, k + 1);
        proof {
            assert(prefix1.drop_last() =~= prefix);
            assert(prefix1.last() == events@[k as int]);
        }
        let is_upsert = match &e {
            AssetEvent::Created { .. } => true,
            AssetEvent::Modified { .. } => true,
            AssetEvent::Removed { .. } => false,
        };
        if is_upsert {
            let h = e.handle();
            match shader_meta_map.shader(h) {
                Some(shader) => {
                    changed_shaders.insert(shader);
                    proof {
                        assert(mapped_shaders(prefix1, *shader_meta_map) =~= mapped_shaders(
                            prefix,
                            *shader_meta_map,
                        ).insert(shader));
                        assert(changed_shaders.as_set() =~= old(changed_shaders).as_set()
                            + mapped_shaders(prefix1, *shader_meta_map));
                        // The bound pair stands in both directions.
                        lemma_map_of_contains(shader_meta_map.meta_to_shader@);
                        let w = choose|w: int|
                            0 <= w < shader_meta_map.meta_to_shader@.len()
                                && (#[trigger] shader_meta_map.meta_to_shader@[w]).0 == h;
                        lemma_map_of_at(shader_meta_map.meta_to_shader@, w);
                        assert(shader_meta_map.meta_to_shader@.contains((h, shader)));
                        assert(shader_meta_map.shader_to_meta@.contains((shader, h)));
                        let w2 = choose|w2: int|
                            0 <= w2 < shader_meta_map.shader_to_meta@.len()
                                && shader_meta_map.shader_to_meta@[w2] == (shader, h);
                        lemma_map_of_at(shader_meta_map.shader_to_meta@, w2);
                        assert(shader_meta_map.meta_of(shader) == Some(h));
                    }
                    match find_meta(assets, h) {
                        Some(asset) => {
                            let fresh = asset.clone();
                            let ghost fdv = fresh.deep_view();
                            let ghost mid_map = shader_meta.as_map();
                            shader_meta.insert(shader, fresh);
                            proof {
                                assert forall|s: HandleId|
                                    s != shader && meta_updated(
                                        prefix1,
                                        assets@,
                                        *shader_meta_map,
                                        s,
                                    ) implies meta_updated(prefix, assets@, *shader_meta_map, s) by {
                                    let m = shader_meta_map.meta_of(s)->Some_0;
                                    let k2 = choose|k2: int|
                                        0 <= k2 < prefix1.len() && (#[trigger] prefix1[k2]).is_upsert()
                                            && prefix1[k2].spec_handle() == m;
                                    if k2 == prefix1.len() - 1 {
                                        // The event's handle is bound to
                                        // `shader`, so a different shader
                                        // cannot also be bound to it.
                                        assert(m == h);
                                        lemma_map_of_contains(shader_meta_map.shader_to_meta@);
                                        let a0 = choose|a0: int|
                                            0 <= a0 < shader_meta_map.shader_to_meta@.len()
                                                && (#[trigger] shader_meta_map.shader_to_meta@[a0]).0
                                                == s;
                                        lemma_map_of_at(shader_meta_map.shader_to_meta@, a0);
                                        assert(shader_meta_map.shader_to_meta@[a0] == (s, h));
                                        assert(shader_meta_map.shader_to_meta@.contains((s, h)));
                                        assert(shader_meta_map.meta_to_shader@.contains((h, s)));
                                        let a = choose|a: int|
                                            0 <= a < shader_meta_map.meta_to_shader@.len()
                                                && shader_meta_map.meta_to_shader@[a] == (h, s);
                                        let b = choose|b: int|
                                            0 <= b < shader_meta_map.meta_to_shader@.len()
                                                && shader_meta_map.meta_to_shader@[b] == (
                                                h,
                                                shader,
                                            );
                                        assert(false);
                                    } else {
                                        assert(prefix[k2].is_upsert() && prefix[k2].spec_handle()
                                            == m);
                                    }
                                }
                                assert(meta_updated(prefix1, assets@, *shader_meta_map, shader));
                                assert(fdv == meta_at(assets@, h)->Some_0.deep_view());
                                assert forall|s: HandleId|
                                    (if #[trigger] meta_updated(
                                        prefix1,
                                        assets@,
                                        *shader_meta_map,
                                        s,
                                    ) {
                                        shader_meta.as_map().contains_key(s)
                                            && shader_meta.as_map()[s].deep_view() == meta_at(
                                            assets@,
                                            shader_meta_map.meta_of(s)->Some_0,
                                        )->Some_0.deep_view()
                                    } else {
                                        shader_meta.as_map().contains_key(s) == old(
                                            shader_meta,
                                        ).as_map().contains_key(s) && (old(
                                            shader_meta,
                                        ).as_map().contains_key(s) ==> shader_meta.as_map()[s]
                                            == old(shader_meta).as_map()[s])
                                    }) by {
                                    if s == shader {
                                        assert(shader_meta.as_map()[shader].deep_view() == fdv);
                                    } else {
                                        assert(shader_meta.as_map().contains_key(s)
                                            == mid_map.contains_key(s));
                                        if mid_map.contains_key(s) {
                                            assert(shader_meta.as_map()[s] == mid_map[s]);
                                        }
                                        if !meta_updated(prefix1, assets@, *shader_meta_map, s) {
                                            if meta_updated(prefix, assets@, *shader_meta_map, s) {
                                                let m = shader_meta_map.meta_of(s)->Some_0;
                                                let k2 = choose|k2: int|
                                                    0 <= k2 < prefix.len() && (#[trigger] prefix[k2]).is_upsert()
                                                        && prefix[k2].spec_handle() == m;
                                                assert(prefix1[k2].is_upsert()
                                                    && prefix1[k2].spec_handle() == m);
                                                assert(false);
                                            }
                                        }
                                    }
                                }
                                assert(metas_applied(
                                    prefix1,
                                    assets@,
                                    *shader_meta_map,
                                    old(shader_meta).as_map(),
                                    shader_meta.as_map(),
                                ));
                            }
                        },
                        None => {
                            proof {
                                assert forall|s: HandleId|
                                    meta_updated(prefix1, assets@, *shader_meta_map, s) implies
                                    meta_updated(prefix, assets@, *shader_meta_map, s) by {
                                    let m = shader_meta_map.meta_of(s)->Some_0;
                                    let k2 = choose|k2: int|
                                        0 <= k2 < prefix1.len() && (#[trigger] prefix1[k2]).is_upsert()
                                            && prefix1[k2].spec_handle() == m;
                                    if k2 == prefix1.len() - 1 {
                                        assert(m == h);
                                        assert(meta_at(assets@, m) is None);
                                        assert(false);
                                    } else {
                                        assert(prefix[k2].is_upsert() && prefix[k2].spec_handle()
                                            == m);
                                    }
                                }
                
                assert forall|s: HandleId|
                    (if #[trigger] meta_updated(prefix1, assets@, *shader_meta_map, s) {
                        shader_meta.as_map().contains_key(s) && shader_meta.as_map()[s].deep_view()
                            == meta_at(
                            assets@,
                            shader_meta_map.meta_of(s)->Some_0,
                        )->Some_0.deep_view()
                    } else {
                        shader_meta.as_map().contains_key(s) == old(
                            shader_meta,
                        ).as_map().contains_key(s) && (old(shader_meta).as_map().contains_key(s)
                            ==> shader_meta.as_map()[s] == old(shader_meta).as_map()[s])
                    }) by {
                    if !meta_updated(prefix1, assets@, *shader_meta_map, s) {
                        if meta_updated(prefix, assets@, *shader_meta_map, s) {
                            let m = shader_meta_map.meta_of(s)->Some_0;
                            let k2 = choose|k2: int|
                                0 <= k2 < prefix.len() && (#[trigger] prefix[k2]).is_upsert()
                                    && prefix[k2].spec_handle() == m;
                            assert(prefix1[k2].is_upsert() && prefix1[k2].spec_handle() == m);
                            assert(false);
                        }
                    }
                }
                assert(metas_applied(
                    prefix1,
                    assets@,
                    *shader_meta_map,
                    old(shader_meta).as_map(),
                    shader_meta.as_map(),
                ));
                            }
                        },
                    }
                },
                None => {
                    proof {
                        assert(mapped_shaders(prefix1, *shader_meta_map) =~= mapped_shaders(
                            prefix,
                            *shader_meta_map,
                        ));
                        assert forall|s: HandleId|
                            meta_updated(prefix1, assets@, *shader_meta_map, s) implies
                            meta_updated(prefix, assets@, *shader_meta_map, s) by {
                            let m = shader_meta_map.meta_of(s)->Some_0;
                            let k2 = choose|k2: int|
                                0 <= k2 < prefix1.len() && (#[trigger] prefix1[k2]).is_upsert()
                                    && prefix1[k2].spec_handle() == m;
                            if k2 == prefix1.len() - 1 {
                                assert(m == h);
                                lemma_map_of_contains(shader_meta_map.shader_to_meta@);
                                let a0 = choose|a0: int|
                                    0 <= a0 < shader_meta_map.shader_to_meta@.len()
                                        && (#[trigger] shader_meta_map.shader_to_meta@[a0]).0 == s;
                                lemma_map_of_at(shader_meta_map.shader_to_meta@, a0);
                                assert(shader_meta_map.shader_to_meta@[a0] == (s, h));
                                assert(shader_meta_map.shader_to_meta@.contains((s, h)));
                                assert(shader_meta_map.meta_to_shader@.contains((h, s)));
                                lemma_map_of_contains(shader_meta_map.meta_to_shader@);
                                assert(shader_meta_map.shader_of(h) is Some);
                                assert(false);
                            } else {
                                assert(prefix[k2].is_upsert() && prefix[k2].spec_handle() == m);
                            }
                        }
                        
                        assert forall|s: HandleId|
                            (if #[trigger] meta_updated(prefix1, assets@, *shader_meta_map, s) {
                                shader_meta.as_map().contains_key(s) && shader_meta.as_map()[s].deep_view()
                                    == meta_at(
                                    assets@,
                                    shader_meta_map.meta_of(s)->Some_0,
                                )->Some_0.deep_view()
                            } else {
                                shader_meta.as_map().contains_key(s) == old(
                                    shader_meta,
                                ).as_map().contains_key(s) && (old(shader_meta).as_map().contains_key(s)
                                    ==> shader_meta.as_map()[s] == old(shader_meta).as_map()[s])
                            }) by {
                            if !meta_updated(prefix1, assets@, *shader_meta_map, s) {
                                if meta_updated(prefix, assets@, *shader_meta_map, s) {
                                    let m = shader_meta_map.meta_of(s)->Some_0;
                                    let k2 = choose|k2: int|
                                        0 <= k2 < prefix.len() && (#[trigger] prefix[k2]).is_upsert()
                                            && prefix[k2].spec_handle() == m;
                                    assert(prefix1[k2].is_upsert() && prefix1[k2].spec_handle() == m);
                                    assert(false);
                                }
                            }
                        }
                        assert(metas_applied(
                            prefix1,
                            assets@,
                            *shader_meta_map,
                            old(shader_meta).as_map(),
                            shader_meta.as_map(),
                        ));
                    }
                },
            }
        } else {
            proof {
                assert(mapped_shaders(prefix1, *shader_meta_map) =~= mapped_shaders(
                    prefix,
                    *shader_meta_map,
                ));
                assert forall|s: HandleId|
                    meta_updated(prefix1, assets@, *shader_meta_map, s) implies meta_updated(
                    prefix,
                    assets@,
                    *shader_meta_map,
                    s,
                ) by {
                    let m = shader_meta_map.meta_of(s)->Some_0;
                    let k2 = choose|k2: int|
                        0 <= k2 < prefix1.len() && (#[trigger] prefix1[k2]).is_upsert()
                            && prefix1[k2].spec_handle() == m;
                    assert(prefix[k2].is_upsert() && prefix[k2].spec_handle() == m);
                }
                
                assert forall|s: HandleId|
                    (if #[trigger] meta_updated(prefix1, assets@, *shader_meta_map, s) {
                        shader_meta.as_map().contains_key(s) && shader_meta.as_map()[s].deep_view()
                            == meta_at(
                            assets@,
                            shader_meta_map.meta_of(s)->Some_0,
                        )->Some_0.deep_view()
                    } else {
                        shader_meta.as_map().contains_key(s) == old(
                            shader_meta,
                        ).as_map().contains_key(s) && (old(shader_meta).as_map().contains_key(s)
                            ==> shader_meta.as_map()[s] == old(shader_meta).as_map()[s])
                    }) by {
                    if !meta_updated(prefix1, assets@, *shader_meta_map, s) {
                        if meta_updated(prefix, assets@, *shader_meta_map, s) {
                            let m = shader_meta_map.meta_of(s)->Some_0;
                            let k2 = choose|k2: int|
                                0 <= k2 < prefix.len() && (#[trigger] prefix[k2]).is_upsert()
                                    && prefix[k2].spec_handle() == m;
                            assert(prefix1[k2].is_upsert() && prefix1[k2].spec_handle() == m);
                            assert(false);
                        }
                    }
                }
                assert(metas_applied(
                    prefix1,
                    assets@,
                    *shader_meta_map,
                    old(shader_meta).as_map(),
                    shader_meta.as_map(),
                ));
            }
        }
        k = k + 1;
    }
    proof {
        assert(events@.subrange(0, events@.len() as int) =~= events@);
    }
}

} // verus!
