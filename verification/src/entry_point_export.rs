//! The entry-point export sink: accumulates the set of permutations actually
//! requested at runtime, de-duplicated, so the off-process compiler knows
//! exactly which permutations to build.
//!
//! Each registered export target keeps an insertion-ordered mapping from
//! base entry-point name to the distinct permutations seen under it, a
//! bounded inbox of pending messages, and a dirty flag.  The set only ever
//! grows: a session accumulates every permutation it has needed.

use vstd::prelude::*;

use crate::entry_point::upsert_sorted;
use crate::shader_def::{def_name, def_value_str, ShaderDefV, ShaderDefVal};

verus! {

/// A message reporting that a material requested an entry-point
/// permutation.
#[derive(Debug, Clone, PartialEq, Eq)]
pub struct Export {
    /// The entry point's base name.
    pub shader: String,
    /// The permutation-variant tokens, in parameter order.
    pub permutation: Vec<String>,
    /// The constant-selector flags carried into the symbol.
    pub constants: Vec<ShaderDefVal>,
    /// The type-derived (key, value) pairs.
    pub types: Vec<(String, String)>,
}

/// One recorded permutation: the parameter tokens, the constants in sorted
/// canonical (name, rendered value) form, and the type-derived pairs.
#[derive(Debug, Clone, PartialEq, Eq)]
pub struct Permutation {
    pub parameters: Vec<String>,
    pub constants: Vec<(String, String)>,
    pub types: Vec<(String, String)>,
}

/// The structural identity of a recorded permutation.
pub type PermutationV = (Seq<Seq<char>>, Seq<(Seq<char>, Seq<char>)>, Seq<(Seq<char>, Seq<char>)>);

impl DeepView for Permutation {
    type V = PermutationV;

    open spec fn deep_view(&self) -> PermutationV {
        (self.parameters.deep_view(), self.constants.deep_view(), self.types.deep_view())
    }
}

/// The sorted canonical constants a message's flags denote: keyed by name,
/// a later flag with the same name replacing an earlier one.
pub open spec fn canon_constants(defs: Seq<ShaderDefV>) -> Seq<(Seq<char>, Seq<char>)>
    decreases defs.len(),
{
    if defs.len() == 0 {
        Seq::empty()
    } else {
        upsert_sorted(
            canon_constants(defs.drop_last()),
            def_name(defs.last()),
            def_value_str(defs.last()),
        )
    }
}

/// The permutation a message denotes.
pub open spec fn perm_of_export(e: Export) -> PermutationV {
    (e.permutation.deep_view(), canon_constants(e.constants.deep_view()), e.types.deep_view())
}

/// The accumulated entry points of one export target: an insertion-ordered
/// mapping from base name to the distinct permutations seen under it.
#[derive(Debug, Clone, PartialEq, Eq)]
pub struct EntryPoints {
    pub entry_points: Vec<(String, Vec<Permutation>)>,
}

/// The spec-level shape of the accumulated entry points.
pub type EntryPointsV = Seq<(Seq<char>, Seq<PermutationV>)>;

impl EntryPoints {
    /// The accumulated structure, by name and permutation identity.
    pub open spec fn view_of(self) -> EntryPointsV {
        self.entry_points.deep_view()
    }

    /// An empty accumulation.
    pub fn new() -> (r: Self)
        ensures
            r.view_of() =~= Seq::<(Seq<char>, Seq<PermutationV>)>::empty(),
    {
        let r = EntryPoints { entry_points: Vec::new() };
        proof {
            broadcast use crate::seqs::lemma_vec_deep_view;

            assert(r.entry_points.deep_view() =~= Seq::<(Seq<char>, Seq<PermutationV>)>::empty());
        }
        r
    }
}

/// Where a base name stands in the accumulation, if anywhere.
pub open spec fn name_index(eps: EntryPointsV, name: Seq<char>) -> Option<int> {
    if exists|i: int| 0 <= i < eps.len() && eps[i].0 == name {
        Some(choose|i: int| 0 <= i < eps.len() && eps[i].0 == name)
    } else {
        None
    }
}

/// The accumulation after recording one (base name, permutation) report:
/// a new base name is appended with that one permutation; a known base name
/// gains the permutation unless it already holds it.
pub open spec fn record_one(eps: EntryPointsV, name: Seq<char>, p: PermutationV) -> EntryPointsV {
    match name_index(eps, name) {
        Option::None => eps.push((name, seq![p])),
        Option::Some(i) => if eps[i].1.contains(p) {
            eps
        } else {
            eps.update(i, (eps[i].0, eps[i].1.push(p)))
        },
    }
}

/// Whether recording would change the accumulation.
pub open spec fn record_is_new(eps: EntryPointsV, name: Seq<char>, p: PermutationV) -> bool {
    match name_index(eps, name) {
        Option::None => true,
        Option::Some(i) => !eps[i].1.contains(p),
    }
}

/// The accumulation after a batch of messages, in order.
pub open spec fn record_all(eps: EntryPointsV, msgs: Seq<Export>) -> EntryPointsV
    decreases msgs.len(),
{
    if msgs.len() == 0 {
        eps
    } else {
        record_one(
            record_all(eps, msgs.drop_last()),
            msgs.last().shader@,
            perm_of_export(msgs.last()),
        )
    }
}

/// Whether any message of the batch changes the accumulation.
pub open spec fn any_new(eps: EntryPointsV, msgs: Seq<Export>) -> bool
    decreases msgs.len(),
{
    if msgs.len() == 0 {
        false
    } else {
        any_new(eps, msgs.drop_last()) || record_is_new(
            record_all(eps, msgs.drop_last()),
            msgs.last().shader@,
            perm_of_export(msgs.last()),
        )
    }
}

/// No two entries share a base name.
pub open spec fn unique_keys(eps: EntryPointsV) -> bool {
    forall|i: int, j: int| 0 <= i < j < eps.len() ==> eps[i].0 != eps[j].0
}

// ---------------------------------------------------------------------------
// Executable accumulation.
// ---------------------------------------------------------------------------

/// The sorted canonical constants of a message's flags.
fn canon_constants_list(defs: &Vec<ShaderDefVal>) -> (r: Vec<(String, String)>)
    ensures
        r.deep_view() == canon_constants(defs.deep_view()),
{
    let mut r: Vec<(String, String)> = Vec::new();
    proof {
        assert(r.deep_view() =~= canon_constants(defs.deep_view().subrange(0, 0)));
    }
    let mut i: usize = 0;
    while i < defs.len()
        invariant
            0 <= i <= defs.len(),
            r.deep_view() == canon_constants(defs.deep_view().subrange(0, i as int)),
        decreases defs.len() - i,
    {
        proof {
            let pre = defs.deep_view().subrange(0, i + 1);
            assert(pre.drop_last() =~= defs.deep_view().subrange(0, i as int));
            assert(pre.last() == defs.deep_view()[i as int]);
        }
        let name = crate::shader_def::def_name_string(&defs[i]).clone();
        let value = crate::shader_def::def_value_string(&defs[i]);
        crate::entry_point::upsert_constant(&mut r, name, value);
        i = i + 1;
    }
    proof {
        assert(defs.deep_view().subrange(0, defs.len() as int) =~= defs.deep_view());
    }
    r
}

/// A copy of string pairs.
pub(crate) fn clone_string_pairs(v: &Vec<(String, String)>) -> (r: Vec<(String, String)>)
    ensures
        r.deep_view() == v.deep_view(),
{
    broadcast use crate::seqs::lemma_vec_deep_view, crate::seqs::lemma_deep_of_push;

    let mut r: Vec<(String, String)> = Vec::new();
    proof {
        assert(r.deep_view() =~= v.deep_view().subrange(0, 0));
    }
    let mut i: usize = 0;
    while i < v.len()
        invariant
            0 <= i <= v.len(),
            r.deep_view() == v.deep_view().subrange(0, i as int),
        decreases v.len() - i,
    {
        r.push((v[i].0.clone(), v[i].1.clone()));
        proof {
            assert(v.deep_view().subrange(0, i + 1) =~= v.deep_view().subrange(0, i as int).push(
                v.deep_view()[i as int],
            ));
        }
        i = i + 1;
    }
    proof {
        assert(v.deep_view().subrange(0, v.len() as int) =~= v.deep_view());
    }
    r
}

/// The recorded form of a message.
fn permutation_of_export(e: &Export) -> (r: Permutation)
    ensures
        r.deep_view() == perm_of_export(*e),
{
    Permutation {
        parameters: crate::builder_output::clone_strings(&e.permutation),
        constants: canon_constants_list(&e.constants),
        types: clone_string_pairs(&e.types),
    }
}

/// Whether two string vectors hold the same strings.
fn strings_eq(a: &Vec<String>, b: &Vec<String>) -> (r: bool)
    ensures
        r == (a.deep_view() == b.deep_view()),
{
    if a.len() != b.len() {
        proof {
            assert(a.deep_view().len() != b.deep_view().len());
        }
        return false;
    }
    let mut i: usize = 0;
    while i < a.len()
        invariant
            0 <= i <= a.len(),
            a.deep_view().len() == b.deep_view().len(),
            a@.len() == a.deep_view().len(),
            b@.len() == b.deep_view().len(),
            forall|j: int| 0 <= j < i ==> a.deep_view()[j] == b.deep_view()[j],
        decreases a.len() - i,
    {
        if !a[i].eq(&b[i]) {
            proof {
                assert(a.deep_view()[i as int] != b.deep_view()[i as int]);
            }
            return false;
        }
        proof {
            assert(a.deep_view()[i as int] == b.deep_view()[i as int]);
        }
        i = i + 1;
    }
    proof {
        assert(a.deep_view() =~= b.deep_view());
    }
    true
}

/// Whether two vectors of string pairs hold the same pairs.
fn string_pairs_eq(a: &Vec<(String, String)>, b: &Vec<(String, String)>) -> (r: bool)
    ensures
        r == (a.deep_view() == b.deep_view()),
{
    if a.len() != b.len() {
        proof {
            assert(a.deep_view().len() != b.deep_view().len());
        }
        return false;
    }
    let mut i: usize = 0;
    while i < a.len()
        invariant
            0 <= i <= a.len(),
            a.deep_view().len() == b.deep_view().len(),
            a@.len() == a.deep_view().len(),
            b@.len() == b.deep_view().len(),
            forall|j: int| 0 <= j < i ==> a.deep_view()[j] == b.deep_view()[j],
        decreases a.len() - i,
    {
        if !(a[i].0.eq(&b[i].0) && a[i].1.eq(&b[i].1)) {
            proof {
                assert(a.deep_view()[i as int] == a@[i as int].deep_view());
                assert(b.deep_view()[i as int] == b@[i as int].deep_view());
                assert(a.deep_view()[i as int] != b.deep_view()[i as int]);
            }
            return false;
        }
        proof {
            assert(a.deep_view()[i as int] == a@[i as int].deep_view());
            assert(b.deep_view()[i as int] == b@[i as int].deep_view());
            assert(a.deep_view()[i as int] == b.deep_view()[i as int]);
        }
        i = i + 1;
    }
    proof {
        assert(a.deep_view() =~= b.deep_view());
    }
    true
}

/// Whether two recorded permutations are the same.
fn permutation_eq(a: &Permutation, b: &Permutation) -> (r: bool)
    ensures
        r == (a.deep_view() == b.deep_view()),
{
    let p = strings_eq(&a.parameters, &b.parameters);
    let c = string_pairs_eq(&a.constants, &b.constants);
    let t = string_pairs_eq(&a.types, &b.types);
    p && c && t
}

/// Whether `perms` holds `p`.
fn contains_permutation(perms: &Vec<Permutation>, p: &Permutation) -> (r: bool)
    ensures
        r == perms.deep_view().contains(p.deep_view()),
{
    let mut i: usize = 0;
    while i < perms.len()
        invariant
            0 <= i <= perms.len(),
            forall|j: int| 0 <= j < i ==> perms.deep_view()[j] != p.deep_view(),
        decreases perms.len() - i,
    {
        if permutation_eq(&perms[i], p) {
            proof {
                assert(perms.deep_view()[i as int] == perms@[i as int].deep_view());
            }
            return true;
        }
        proof {
            assert(perms.deep_view()[i as int] == perms@[i as int].deep_view());
        }
        i = i + 1;
    }
    proof {
        if perms.deep_view().contains(p.deep_view()) {
            let j = choose|j: int|
                0 <= j < perms.deep_view().len() && perms.deep_view()[j] == p.deep_view();
        }
    }
    false
}

/// With unique base names, an entry's position is the position every lookup
/// finds.
proof fn lemma_name_index_unique(eps: EntryPointsV, name: Seq<char>, i: int)
    requires
        unique_keys(eps),
        0 <= i < eps.len(),
        eps[i].0 == name,
    ensures
        name_index(eps, name) == Some(i),
{
    let j = choose|j: int| 0 <= j < eps.len() && eps[j].0 == name;
    if i != j {
        assert(false);
    }
}

impl EntryPoints {
    /// Records one report: a new base name is appended with its one
    /// permutation; a known base name gains the permutation unless it
    /// already holds it.  Returns whether anything changed.
    pub fn record(&mut self, e: &Export) -> (is_new: bool)
        requires
            unique_keys(old(self).view_of()),
        ensures
            unique_keys(final(self).view_of()),
            final(self).view_of() == record_one(
                old(self).view_of(),
                e.shader@,
                perm_of_export(*e),
            ),
            is_new == record_is_new(old(self).view_of(), e.shader@, perm_of_export(*e)),
    {
        broadcast use crate::seqs::lemma_vec_deep_view, crate::seqs::lemma_deep_of_push,
            crate::seqs::lemma_deep_of_insert, crate::seqs::lemma_deep_of_remove;

        let ghost orig = self.view_of();
        let perm = permutation_of_export(e);
        let mut i: usize = 0;
        while i < self.entry_points.len()
            invariant
                0 <= i <= self.entry_points@.len(),
                orig == self.view_of(),
                self == old(self),
                unique_keys(orig),
                perm.deep_view() == perm_of_export(*e),
                forall|j: int| 0 <= j < i ==> orig[j].0 != e.shader@,
            decreases self.entry_points@.len() - i,
        {
            proof {
                assert(orig[i as int] == self.entry_points@[i as int].deep_view());
            }
            if self.entry_points[i].0.eq(&e.shader) {
                proof {
                    lemma_name_index_unique(orig, e.shader@, i as int);
                }
                if contains_permutation(&self.entry_points[i].1, &perm) {
                    return false;
                }
                let mut entry = self.entry_points.remove(i);
                let ghost removed = self.entry_points@;
                entry.1.push(perm);
                self.entry_points.insert(i, entry);
                proof {
                    assert(self.entry_points@ =~= old(self).entry_points@.update(
                        i as int,
                        self.entry_points@[i as int],
                    ));
                    assert(self.view_of() =~~= record_one(orig, e.shader@, perm_of_export(*e)));
                    assert forall|a: int, b: int|
                        0 <= a < b < self.view_of().len() implies self.view_of()[a].0
                        != self.view_of()[b].0 by {
                        assert(self.view_of()[a] == if a == i as int {
                            self.view_of()[i as int]
                        } else {
                            orig[a]
                        });
                        assert(self.view_of()[b] == if b == i as int {
                            self.view_of()[i as int]
                        } else {
                            orig[b]
                        });
                        assert(self.view_of()[i as int].0 == orig[i as int].0);
                    }
                }
                return true;
            }
            i = i + 1;
        }
        proof {
            if exists|j: int| 0 <= j < orig.len() && orig[j].0 == e.shader@ {
                let j = choose|j: int| 0 <= j < orig.len() && orig[j].0 == e.shader@;
                assert(false);
            }
            assert(name_index(orig, e.shader@) is None);
        }
        let mut perms: Vec<Permutation> = Vec::new();
        perms.push(perm);
        proof {
            assert(perms.deep_view() =~= seq![perm_of_export(*e)]);
        }
        self.entry_points.push((e.shader.clone(), perms));
        proof {
            assert(self.view_of() =~~= record_one(orig, e.shader@, perm_of_export(*e)));
            assert forall|a: int, b: int|
                0 <= a < b < self.view_of().len() implies self.view_of()[a].0
                != self.view_of()[b].0 by {
                assert(self.view_of()[a] == orig[a]);
                if b < self.view_of().len() - 1 {
                    assert(self.view_of()[b] == orig[b]);
                } else {
                    assert(self.view_of()[b].0 == e.shader@);
                }
            }
        }
        true
    }
}

// ---------------------------------------------------------------------------
// Export targets.
// ---------------------------------------------------------------------------

/// How many pending messages an export target's inbox holds at most.
pub const EXPORT_QUEUE_CAPACITY: usize = 32;

/// One export target: a bounded inbox of pending reports, the accumulated
/// entry points, and a dirty flag that marks unpersisted growth.
#[derive(Debug, Clone, PartialEq, Eq)]
pub struct EntryPointExportContainer {
    pub queue: Vec<Export>,
    pub capacity: usize,
    pub entry_points: EntryPoints,
    pub changed: bool,
}

impl EntryPointExportContainer {
    /// Base names in the accumulation are unique.
    pub open spec fn wf(self) -> bool {
        unique_keys(self.entry_points.view_of())
    }

    /// An empty container with the given inbox capacity.
    pub fn new(capacity: usize) -> (r: Self)
        ensures
            r.wf(),
            r.queue@.len() == 0,
            r.entry_points.view_of().len() == 0,
            r.capacity == capacity,
            !r.changed,
    {
        let r = EntryPointExportContainer {
            queue: Vec::new(),
            capacity,
            entry_points: EntryPoints::new(),
            changed: false,
        };
        r
    }

    /// Fire-and-forget send: queues the report, or drops it when the inbox
    /// is full — reporting must never block or fail the render path.
    pub fn try_send(&mut self, e: Export) -> (r: bool)
        ensures
            old(self).queue@.len() < old(self).capacity ==> r && final(self).queue@ == old(
                self,
            ).queue@.push(e),
            old(self).queue@.len() >= old(self).capacity ==> !r && final(self).queue@ == old(
                self,
            ).queue@,
            final(self).capacity == old(self).capacity,
            final(self).entry_points == old(self).entry_points,
            final(self).changed == old(self).changed,
    {
        if self.queue.len() < self.capacity {
            self.queue.push(e);
            true
        } else {
            false
        }
    }

    /// Drains the inbox into the accumulation, in arrival order, and marks
    /// the container dirty if anything new was recorded.
    pub fn drain(&mut self)
        requires
            old(self).wf(),
        ensures
            final(self).wf(),
            final(self).entry_points.view_of() == record_all(
                old(self).entry_points.view_of(),
                old(self).queue@,
            ),
            final(self).queue@.len() == 0,
            final(self).changed == (old(self).changed || any_new(
                old(self).entry_points.view_of(),
                old(self).queue@,
            )),
            final(self).capacity == old(self).capacity,
    {
        let ghost orig_eps = self.entry_points.view_of();
        let ghost orig_queue = self.queue@;
        let ghost orig_changed = self.changed;
        let mut j: usize = 0;
        proof {
            assert(orig_queue.subrange(0, 0).len() == 0);
        }
        while j < self.queue.len()
            invariant
                0 <= j <= self.queue@.len(),
                self.queue@ == orig_queue,
                self.capacity == old(self).capacity,
                unique_keys(self.entry_points.view_of()),
                self.entry_points.view_of() == record_all(
                    orig_eps,
                    orig_queue.subrange(0, j as int),
                ),
                self.changed == (orig_changed || any_new(
                    orig_eps,
                    orig_queue.subrange(0, j as int),
                )),
            decreases self.queue@.len() - j,
        {
            proof {
                let pre = orig_queue.subrange(0, j + 1);
                assert(pre.drop_last() =~= orig_queue.subrange(0, j as int));
                assert(pre.last() == orig_queue[j as int]);
            }
            let is_new = self.entry_points.record(&self.queue[j]);
            self.changed = self.changed || is_new;
            j = j + 1;
        }
        proof {
            assert(orig_queue.subrange(0, orig_queue.len() as int) =~= orig_queue);
        }
        self.queue.clear();
    }
}

impl DeepView for EntryPoints {
    type V = EntryPointsV;

    open spec fn deep_view(&self) -> EntryPointsV {
        self.view_of()
    }
}

/// A copy of a recorded permutation.
fn clone_permutation(p: &Permutation) -> (r: Permutation)
    ensures
        r.deep_view() == p.deep_view(),
{
    Permutation {
        parameters: crate::builder_output::clone_strings(&p.parameters),
        constants: clone_string_pairs(&p.constants),
        types: clone_string_pairs(&p.types),
    }
}

/// A copy of recorded permutations.
fn clone_permutations(v: &Vec<Permutation>) -> (r: Vec<Permutation>)
    ensures
        r.deep_view() == v.deep_view(),
{
    broadcast use crate::seqs::lemma_vec_deep_view, crate::seqs::lemma_deep_of_push;

    let mut r: Vec<Permutation> = Vec::new();
    proof {
        assert(r.deep_view() =~= v.deep_view().subrange(0, 0));
    }
    let mut i: usize = 0;
    while i < v.len()
        invariant
            0 <= i <= v.len(),
            r.deep_view() == v.deep_view().subrange(0, i as int),
        decreases v.len() - i,
    {
        let c = clone_permutation(&v[i]);
        proof {
            assert(v.deep_view()[i as int] == v@[i as int].deep_view());
        }
        r.push(c);
        proof {
            assert(v.deep_view().subrange(0, i + 1) =~= v.deep_view().subrange(0, i as int).push(
                v.deep_view()[i as int],
            ));
            assert(r.deep_view() =~= v.deep_view().subrange(0, i + 1));
        }
        i = i + 1;
    }
    proof {
        assert(v.deep_view().subrange(0, v.len() as int) =~= v.deep_view());
    }
    r
}

/// A copy of an accumulation.
fn clone_entry_points(eps: &EntryPoints) -> (r: EntryPoints)
    ensures
        r.view_of() == eps.view_of(),
{
    broadcast use crate::seqs::lemma_vec_deep_view, crate::seqs::lemma_deep_of_push;

    let src = &eps.entry_points;
    let mut dst: Vec<(String, Vec<Permutation>)> = Vec::new();
    proof {
        assert(dst.deep_view() =~= src.deep_view().subrange(0, 0));
    }
    let mut i: usize = 0;
    while i < src.len()
        invariant
            0 <= i <= src.len(),
            dst.deep_view() == src.deep_view().subrange(0, i as int),
        decreases src.len() - i,
    {
        let name = src[i].0.clone();
        let perms = clone_permutations(&src[i].1);
        proof {
            assert(src.deep_view()[i as int] == src@[i as int].deep_view());
        }
        proof {
            assert(src.deep_view()[i as int].0 == src@[i as int].0@);
            assert(src.deep_view()[i as int].1 == src@[i as int].1.deep_view());
        }
        dst.push((name, perms));
        proof {
            assert(src.deep_view().subrange(0, i + 1) =~= src.deep_view().subrange(
                0,
                i as int,
            ).push(src.deep_view()[i as int]));
            assert(dst.deep_view() =~~= src.deep_view().subrange(0, i + 1));
        }
        i = i + 1;
    }
    proof {
        assert(src.deep_view().subrange(0, src.len() as int) =~= src.deep_view());
    }
    EntryPoints { entry_points: dst }
}

/// The drained form of a container: inbox applied to the accumulation in
/// arrival order, inbox emptied, dirty flag raised if anything was new.
pub open spec fn drained(before: EntryPointExportContainer, after: EntryPointExportContainer) -> bool {
    after.entry_points.view_of() == record_all(before.entry_points.view_of(), before.queue@)
        && after.queue@.len() == 0 && after.changed == (before.changed || any_new(
        before.entry_points.view_of(),
        before.queue@,
    )) && after.capacity == before.capacity
}

/// The (path, accumulation) snapshots of the dirty containers, in order.
pub open spec fn dirty_of(s: Seq<(String, EntryPointExportContainer)>) -> Seq<
    (Seq<char>, EntryPointsV),
>
    decreases s.len(),
{
    if s.len() == 0 {
        Seq::empty()
    } else {
        let prev = dirty_of(s.drop_last());
        if s.last().1.changed {
            prev.push((s.last().0@, s.last().1.entry_points.view_of()))
        } else {
            prev
        }
    }
}

/// The inbox after a send: the message is queued if there is room, else
/// dropped.
pub open spec fn queue_after_send(c: EntryPointExportContainer, e: Export) -> Seq<Export> {
    if c.queue@.len() < c.capacity {
        c.queue@.push(e)
    } else {
        c.queue@
    }
}

/// What `send` does to one target: only the inbox of the target under
/// `path` changes, and only by queueing (or dropping) the message.
pub open spec fn sent_pair(
    before: (String, EntryPointExportContainer),
    after: (String, EntryPointExportContainer),
    path: Seq<char>,
    e: Export,
) -> bool {
    after.0 == before.0 && after.1.entry_points == before.1.entry_points && after.1.changed
        == before.1.changed && after.1.capacity == before.1.capacity && (if before.0@ == path {
        after.1.queue@ == queue_after_send(before.1, e)
    } else {
        after.1.queue == before.1.queue
    })
}

/// What `take_dirty` does to one target: the dirty flag is cleared and
/// everything else stands.
pub open spec fn flag_cleared(
    before: (String, EntryPointExportContainer),
    after: (String, EntryPointExportContainer),
) -> bool {
    after.0 == before.0 && after.1.queue == before.1.queue && after.1.entry_points
        == before.1.entry_points && after.1.capacity == before.1.capacity && !after.1.changed
}

/// The registered export targets, keyed by output path, each aggregating
/// the entry points reported for it.
#[derive(Debug, Clone, PartialEq, Eq)]
pub struct EntryPointExport {
    pub exports: Vec<(String, EntryPointExportContainer)>,
}

impl EntryPointExport {
    /// Paths are unique and every container is well-formed.
    pub open spec fn wf(self) -> bool {
        (forall|i: int, j: int|
            0 <= i < j < self.exports@.len() ==> self.exports@[i].0@ != self.exports@[j].0@)
            && (forall|i: int| 0 <= i < self.exports@.len() ==> (#[trigger] self.exports@[i].1).wf())
    }

    /// Whether a target is registered under `path`.
    pub open spec fn has_target(self, path: Seq<char>) -> bool {
        exists|i: int| 0 <= i < self.exports@.len() && self.exports@[i].0@ == path
    }

    /// No export targets.
    pub fn new() -> (r: Self)
        ensures
            r.wf(),
            r.exports@.len() == 0,
    {
        EntryPointExport { exports: Vec::new() }
    }

    /// Queues a report for the target registered under `path`, dropping it
    /// if the target's inbox is full or no target is registered — reporting
    /// must never block or fail the caller.
    pub fn send(&mut self, path: &String, e: Export)
        requires
            old(self).wf(),
        ensures
            final(self).wf(),
            final(self).exports@.len() == old(self).exports@.len(),
            forall|i: int|
                0 <= i < old(self).exports@.len() ==> sent_pair(
                    #[trigger] old(self).exports@[i],
                    final(self).exports@[i],
                    path@,
                    e,
                ),
    {
        let ghost orig = self.exports@;
        let mut i: usize = 0;
        while i < self.exports.len()
            invariant
                0 <= i <= orig.len(),
                self.exports@ == orig,
                old(self).exports@ == orig,
                old(self).wf(),
                forall|j: int| 0 <= j < i ==> orig[j].0@ != path@,
            decreases orig.len() - i,
        {
            if self.exports[i].0.eq(path) {
                let mut pair = self.exports.remove(i);
                let _ = pair.1.try_send(e);
                self.exports.insert(i, pair);
                proof {
                    assert(self.exports@ =~= orig.update(i as int, self.exports@[i as int]));
                    assert forall|a: int, b: int|
                        0 <= a < b < self.exports@.len() implies self.exports@[a].0@
                        != self.exports@[b].0@ by {
                        assert(self.exports@[a].0 == orig[a].0);
                        assert(self.exports@[b].0 == orig[b].0);
                    }
                    assert forall|a: int|
                        0 <= a < self.exports@.len() implies (
                    #[trigger] self.exports@[a].1).wf() by {
                        if a != i as int {
                            assert(self.exports@[a] == orig[a]);
                        }
                    }
                    assert forall|a: int|
                        0 <= a < orig.len() && orig[a].0@ == path@ implies a == i as int by {
                    }
                }
                return;
            }
            i = i + 1;
        }
    }

    /// Registers a container for every path that has none yet; existing
    /// targets are untouched, and each new target starts empty.
    pub fn create_export_containers_system(&mut self, registered: &Vec<String>)
        requires
            old(self).wf(),
        ensures
            final(self).wf(),
            final(self).exports@.len() >= old(self).exports@.len(),
            forall|i: int|
                0 <= i < old(self).exports@.len() ==> #[trigger] final(self).exports@[i]
                    == old(self).exports@[i],
            forall|j: int|
                old(self).exports@.len() <= j < final(self).exports@.len()
                    ==> (#[trigger] final(self).exports@[j]).1.queue@.len() == 0
                    && final(self).exports@[j].1.entry_points.view_of().len() == 0
                    && !final(self).exports@[j].1.changed
                    && !old(self).has_target(final(self).exports@[j].0@),
            forall|k: int|
                0 <= k < registered@.len() ==> final(self).has_target(
                    (#[trigger] registered@[k])@,
                ),
    {
        let ghost orig = self.exports@;
        let mut k: usize = 0;
        while k < registered.len()
            invariant
                0 <= k <= registered@.len(),
                old(self).exports@ == orig,
                old(self).wf(),
                self.wf(),
                self.exports@.len() >= orig.len(),
                forall|i: int| 0 <= i < orig.len() ==> #[trigger] self.exports@[i] == orig[i],
                forall|j: int|
                    orig.len() <= j < self.exports@.len() ==> (#[trigger] self.exports@[j]).1.queue@.len()
                        == 0 && self.exports@[j].1.entry_points.view_of().len() == 0
                        && !self.exports@[j].1.changed && !old(self).has_target(
                        self.exports@[j].0@,
                    ),
                forall|k2: int|
                    0 <= k2 < k ==> self.has_target((#[trigger] registered@[k2])@),
            decreases registered@.len() - k,
        {
            let path = &registered[k];
            let mut found = false;
            let mut i: usize = 0;
            while i < self.exports.len() && !found
                invariant
                    0 <= i <= self.exports@.len(),
                    found ==> self.has_target(path@),
                    !found ==> forall|j: int| 0 <= j < i ==> self.exports@[j].0@ != path@,
                decreases self.exports@.len() - i + (if found {
                    0int
                } else {
                    1int
                }),
            {
                if self.exports[i].0.eq(path) {
                    found = true;
                    proof {
                        assert(self.exports@[i as int].0@ == path@);
                    }
                } else {
                    i = i + 1;
                }
            }
            if !found {
                let ghost prev = self.exports@;
                proof {
                    assert forall|j: int| 0 <= j < prev.len() implies (#[trigger] prev[j]).0@
                        != path@ by {
                        assert(self.exports@[j].0@ != path@);
                    }
                }
                self.exports.push((path.clone(), EntryPointExportContainer::new(
                    EXPORT_QUEUE_CAPACITY,
                )));
                proof {
                    assert(self.exports@.drop_last() =~= prev);
                    assert(self.exports@[self.exports@.len() - 1].0@ == path@);
                    assert forall|a: int, b: int|
                        0 <= a < b < self.exports@.len() implies self.exports@[a].0@
                        != self.exports@[b].0@ by {
                        assert(self.exports@[a] == prev[a]);
                        if b < self.exports@.len() - 1 {
                            assert(self.exports@[b] == prev[b]);
                        } else {
                            assert(prev[a].0@ != path@);
                        }
                    }
                    assert forall|j: int|
                        orig.len() <= j < self.exports@.len() implies (
                    #[trigger] self.exports@[j]).1.queue@.len() == 0
                        && self.exports@[j].1.entry_points.view_of().len() == 0
                        && !self.exports@[j].1.changed && !old(self).has_target(
                        self.exports@[j].0@,
                    ) by {
                        if j < self.exports@.len() - 1 {
                            assert(self.exports@[j] == prev[j]);
                        } else {
                            if old(self).has_target(path@) {
                                let w = choose|w: int|
                                    0 <= w < orig.len() && orig[w].0@ == path@;
                                assert(prev[w] == orig[w]);
                                assert(prev[w].0@ != path@);
                            }
                        }
                    }
                    assert forall|a: int|
                        0 <= a < self.exports@.len() implies (
                    #[trigger] self.exports@[a].1).wf() by {
                        if a < self.exports@.len() - 1 {
                            assert(self.exports@[a] == prev[a]);
                        }
                    }
                    assert forall|k2: int|
                        0 <= k2 < k + 1 implies self.has_target(
                        (#[trigger] registered@[k2])@,
                    ) by {
                        if k2 < k {
                            let w = choose|w: int|
                                0 <= w < prev.len() && prev[w].0@ == registered@[k2]@;
                            assert(self.exports@[w].0@ == registered@[k2]@);
                        } else {
                            assert(self.exports@[self.exports@.len() - 1].0@ == path@);
                        }
                    }
                }
            }
            k = k + 1;
        }
    }

    /// Receives and stores the pending reports of every target: each
    /// container's inbox is drained into its accumulation in arrival order,
    /// marking the container dirty when something new was recorded.
    pub fn receive_entry_points_system(&mut self)
        requires
            old(self).wf(),
        ensures
            final(self).wf(),
            final(self).exports@.len() == old(self).exports@.len(),
            forall|i: int|
                0 <= i < old(self).exports@.len() ==> (#[trigger] final(self).exports@[i]).0
                    == old(self).exports@[i].0 && drained(
                    old(self).exports@[i].1,
                    final(self).exports@[i].1,
                ),
    {
        let ghost orig = self.exports@;
        let mut i: usize = 0;
        while i < self.exports.len()
            invariant
                0 <= i <= orig.len(),
                old(self).exports@ == orig,
                old(self).wf(),
                self.exports@.len() == orig.len(),
                forall|j: int| i <= j < orig.len() ==> #[trigger] self.exports@[j] == orig[j],
                forall|j: int|
                    0 <= j < i ==> (#[trigger] self.exports@[j]).0 == orig[j].0 && drained(
                        orig[j].1,
                        self.exports@[j].1,
                    ) && self.exports@[j].1.wf(),
            decreases orig.len() - i,
        {
            let ghost before = self.exports@;
            let mut pair = self.exports.remove(i);
            pair.1.drain();
            self.exports.insert(i, pair);
            proof {
                assert(self.exports@ =~= before.update(i as int, self.exports@[i as int]));
            }
            i = i + 1;
        }
        proof {
            assert forall|a: int, b: int|
                0 <= a < b < self.exports@.len() implies self.exports@[a].0@
                != self.exports@[b].0@ by {
                assert(self.exports@[a].0 == orig[a].0);
                assert(self.exports@[b].0 == orig[b].0);
            }
        }
    }

    /// Snapshots the accumulations of the dirty targets, in registration
    /// order, and clears their dirty flags; everything else is untouched.
    /// The caller persists each snapshot — a report arriving after the
    /// snapshot marks the target dirty again, so no growth is lost.
    pub fn take_dirty(&mut self) -> (r: Vec<(String, EntryPoints)>)
        requires
            old(self).wf(),
        ensures
            final(self).wf(),
            final(self).exports@.len() == old(self).exports@.len(),
            forall|i: int|
                0 <= i < old(self).exports@.len() ==> flag_cleared(
                    #[trigger] old(self).exports@[i],
                    final(self).exports@[i],
                ),
            r.deep_view() == dirty_of(old(self).exports@),
    {
        let ghost orig = self.exports@;
        let mut r: Vec<(String, EntryPoints)> = Vec::new();
        proof {
            assert(r.deep_view() =~= dirty_of(orig.subrange(0, 0)));
        }
        let mut i: usize = 0;
        while i < self.exports.len()
            invariant
                0 <= i <= orig.len(),
                old(self).exports@ == orig,
                old(self).wf(),
                self.exports@.len() == orig.len(),
                forall|j: int| i <= j < orig.len() ==> #[trigger] self.exports@[j] == orig[j],
                forall|j: int|
                    0 <= j < i ==> (#[trigger] self.exports@[j]).0 == orig[j].0
                        && self.exports@[j].1.queue == orig[j].1.queue
                        && self.exports@[j].1.entry_points == orig[j].1.entry_points
                        && self.exports@[j].1.capacity == orig[j].1.capacity
                        && !self.exports@[j].1.changed,
                r.deep_view() == dirty_of(orig.subrange(0, i as int)),
            decreases orig.len() - i,
        {
            proof {
                let pre = orig.subrange(0, i + 1);
                assert(pre.drop_last() =~= orig.subrange(0, i as int));
                assert(pre.last() == orig[i as int]);
            }
            if self.exports[i].1.changed {
                let name = self.exports[i].0.clone();
                let snapshot = clone_entry_points(&self.exports[i].1.entry_points);
                r.push((name, snapshot));
                proof {
                    assert(r.deep_view() =~~= dirty_of(orig.subrange(0, i + 1)));
                }
                let ghost before = self.exports@;
                let mut pair = self.exports.remove(i);
                pair.1.changed = false;
                self.exports.insert(i, pair);
                proof {
                    assert(self.exports@ =~= before.update(i as int, self.exports@[i as int]));
                }
            }
            i = i + 1;
        }
        proof {
            assert(orig.subrange(0, orig.len() as int) =~= orig);
            assert forall|a: int, b: int|
                0 <= a < b < self.exports@.len() implies self.exports@[a].0@
                != self.exports@[b].0@ by {
                assert(self.exports@[a].0 == orig[a].0);
                assert(self.exports@[b].0 == orig[b].0);
            }
            assert forall|a: int|
                0 <= a < self.exports@.len() implies (#[trigger] self.exports@[a].1).wf() by {
                assert(self.exports@[a].1.entry_points == orig[a].1.entry_points);
            }
        }
        r
    }
}

// ---------------------------------------------------------------------------
// Laws of the accumulation.
// ---------------------------------------------------------------------------

/// How many permutations stand under a base name.
pub open spec fn perm_count(eps: EntryPointsV, name: Seq<char>) -> int {
    match name_index(eps, name) {
        Option::None => 0,
        Option::Some(i) => eps[i].1.len() as int,
    }
}

/// Round trip via export: recording a new (base name, permutation) report
/// raises that base name's permutation count by exactly one; recording one
/// seen before changes nothing; and recording the same report twice is the
/// same as recording it once.
pub proof fn lemma_record_roundtrip(eps: EntryPointsV, name: Seq<char>, p: PermutationV)
    requires
        unique_keys(eps),
    ensures
        unique_keys(record_one(eps, name, p)),
        record_is_new(eps, name, p) ==> perm_count(record_one(eps, name, p), name) == perm_count(
            eps,
            name,
        ) + 1,
        !record_is_new(eps, name, p) ==> record_one(eps, name, p) == eps,
        record_one(record_one(eps, name, p), name, p) == record_one(eps, name, p),
{
    let r = record_one(eps, name, p);
    match name_index(eps, name) {
        Option::None => {
            assert(forall|j: int| 0 <= j < eps.len() ==> (#[trigger] eps[j]).0 != name);
            assert forall|a: int, b: int| 0 <= a < b < r.len() implies r[a].0 != r[b].0 by {
                assert(r[a] == eps[a]);
                if b < r.len() - 1 {
                    assert(r[b] == eps[b]);
                }
            }
            lemma_name_index_unique(r, name, r.len() - 1);
            assert(r[r.len() - 1].1 == seq![p]);
            assert(r[r.len() - 1].1.contains(p)) by {
                assert(r[r.len() - 1].1[0] == p);
            }
        },
        Option::Some(i) => {
            if eps[i].1.contains(p) {
            } else {
                assert forall|a: int, b: int| 0 <= a < b < r.len() implies r[a].0 != r[b].0 by {
                    assert(r[a].0 == eps[a].0);
                    assert(r[b].0 == eps[b].0);
                }
                lemma_name_index_unique(r, name, i);
                assert(r[i].1 == eps[i].1.push(p));
                assert(r[i].1.contains(p)) by {
                    assert(r[i].1[r[i].1.len() - 1] == p);
                }
            }
        },
    }
}

} // verus!
