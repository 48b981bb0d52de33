//! Laws of the permutation engine, proved once for every descriptor and
//! every flag set.

use vstd::prelude::*;

use crate::entry_point::{
    constants_sorted, entry_symbol, first_match, param_token, permutation_of, selects,
    upsert_sorted,
};
use crate::shader_def::{
    def_name, def_value_str, first_uint, flag_set, is_bool_true, unique_names, ShaderDefV,
};
use crate::symbol::{lemma_lex_transitive, lemma_lex_trichotomy, lex_lt};

verus! {

/// Two flag sets with the same members: every flag of one occurs in the
/// other, whatever the insertion order.
pub open spec fn same_defs(f1: Seq<ShaderDefV>, f2: Seq<ShaderDefV>) -> bool {
    forall|d: ShaderDefV| f1.contains(d) <==> f2.contains(d)
}

/// An association list strictly sorted by name.
pub open spec fn sorted_strict(s: Seq<(Seq<char>, Seq<char>)>) -> bool {
    forall|i: int, j: int| 0 <= i < j < s.len() ==> lex_lt(s[i].0, s[j].0)
}

/// Membership in a nonempty sequence is membership of the head or of the
/// tail.
proof fn lemma_contains_head_tail<T>(s: Seq<T>, p: T)
    requires
        s.len() > 0,
    ensures
        s.contains(p) <==> (p == s[0] || s.drop_first().contains(p)),
{
    if s.contains(p) {
        let i = choose|i: int| 0 <= i < s.len() && s[i] == p;
        if i > 0 {
            assert(s.drop_first()[i - 1] == p);
            assert(s.drop_first().contains(p));
        }
    }
    if s.drop_first().contains(p) {
        let i = choose|i: int| 0 <= i < s.drop_first().len() && s.drop_first()[i] == p;
        assert(s[i + 1] == p);
        assert(s.contains(p));
    }
    if s.len() > 0 && p == s[0] {
        assert(s.contains(p));
    }
}

/// Every element of an upsert result is the new entry or an entry of the
/// original list.
proof fn lemma_upsert_members_weak(acc: Seq<(Seq<char>, Seq<char>)>, k: Seq<char>, v: Seq<char>)
    ensures
        forall|p: (Seq<char>, Seq<char>)|
            #[trigger] upsert_sorted(acc, k, v).contains(p) ==> p == (k, v) || acc.contains(p),
    decreases acc.len(),
{
    let r = upsert_sorted(acc, k, v);
    if acc.len() == 0 {
        assert forall|p: (Seq<char>, Seq<char>)| #[trigger] r.contains(p) implies p == (k, v)
            || acc.contains(p) by {
            lemma_contains_head_tail(r, p);
        }
    } else if k == acc[0].0 || lex_lt(k, acc[0].0) {
        assert forall|p: (Seq<char>, Seq<char>)| #[trigger] r.contains(p) implies p == (k, v)
            || acc.contains(p) by {
            lemma_contains_head_tail(r, p);
            if p != (k, v) {
                assert(r.drop_first().contains(p));
                if k == acc[0].0 {
                    assert(r.drop_first() =~= acc.drop_first());
                    lemma_contains_head_tail(acc, p);
                } else {
                    assert(r.drop_first() =~= acc);
                }
            }
        }
    } else {
        lemma_upsert_members_weak(acc.drop_first(), k, v);
        assert forall|p: (Seq<char>, Seq<char>)| #[trigger] r.contains(p) implies p == (k, v)
            || acc.contains(p) by {
            lemma_contains_head_tail(r, p);
            if p != (k, v) && p != acc[0] {
                assert(r.drop_first() =~= upsert_sorted(acc.drop_first(), k, v));
                assert(upsert_sorted(acc.drop_first(), k, v).contains(p));
                assert(acc.drop_first().contains(p));
                lemma_contains_head_tail(acc, p);
            } else if p == acc[0] {
                lemma_contains_head_tail(acc, p);
            }
        }
    }
}

/// Upserting into a strictly name-sorted list keeps it strictly sorted.
proof fn lemma_upsert_sorted_strict(acc: Seq<(Seq<char>, Seq<char>)>, k: Seq<char>, v: Seq<char>)
    requires
        sorted_strict(acc),
    ensures
        sorted_strict(upsert_sorted(acc, k, v)),
    decreases acc.len(),
{
    let r = upsert_sorted(acc, k, v);
    if acc.len() == 0 {
    } else if k == acc[0].0 {
        assert(r =~= seq![(k, v)] + acc.drop_first());
        assert forall|i: int, j: int| 0 <= i < j < r.len() implies lex_lt(r[i].0, r[j].0) by {
            if i == 0 {
                assert(r[j] == acc[j]);
                assert(lex_lt(acc[0].0, acc[j].0));
            } else {
                assert(r[i] == acc[i] && r[j] == acc[j]);
            }
        }
    } else if lex_lt(k, acc[0].0) {
        assert(r =~= seq![(k, v)] + acc);
        assert forall|i: int, j: int| 0 <= i < j < r.len() implies lex_lt(r[i].0, r[j].0) by {
            if i == 0 {
                assert(r[j] == acc[j - 1]);
                if j > 1 {
                    assert(lex_lt(acc[0].0, acc[j - 1].0));
                    lemma_lex_transitive(k, acc[0].0, acc[j - 1].0);
                }
            } else {
                assert(r[i] == acc[i - 1] && r[j] == acc[j - 1]);
            }
        }
    } else {
        assert(sorted_strict(acc.drop_first())) by {
            assert forall|i: int, j: int|
                0 <= i < j < acc.drop_first().len() implies lex_lt(
                acc.drop_first()[i].0,
                acc.drop_first()[j].0,
            ) by {
                assert(acc.drop_first()[i] == acc[i + 1]);
                assert(acc.drop_first()[j] == acc[j + 1]);
            }
        }
        lemma_upsert_sorted_strict(acc.drop_first(), k, v);
        lemma_upsert_members_weak(acc.drop_first(), k, v);
        lemma_lex_trichotomy(k, acc[0].0);
        let rest = upsert_sorted(acc.drop_first(), k, v);
        assert(r =~= seq![acc[0]] + rest);
        assert forall|i: int, j: int| 0 <= i < j < r.len() implies lex_lt(r[i].0, r[j].0) by {
            if i == 0 {
                assert(r[j] == rest[j - 1]);
                assert(rest.contains(rest[j - 1]));
                if rest[j - 1] == (k, v) {
                    assert(lex_lt(acc[0].0, k));
                } else {
                    assert(acc.drop_first().contains(rest[j - 1]));
                    let m = choose|m: int|
                        0 <= m < acc.drop_first().len() && acc.drop_first()[m] == rest[j - 1];
                    assert(acc.drop_first()[m] == acc[m + 1]);
                    assert(lex_lt(acc[0].0, acc[m + 1].0));
                }
            } else {
                assert(r[i] == rest[i - 1] && r[j] == rest[j - 1]);
            }
        }
    }
}

/// Exact membership of an upsert result: the new entry, plus every old entry
/// under a different name.
proof fn lemma_upsert_members(acc: Seq<(Seq<char>, Seq<char>)>, k: Seq<char>, v: Seq<char>)
    requires
        sorted_strict(acc),
    ensures
        forall|p: (Seq<char>, Seq<char>)|
            #[trigger] upsert_sorted(acc, k, v).contains(p) <==> (p == (k, v) || (acc.contains(p)
                && p.0 != k)),
    decreases acc.len(),
{
    let r = upsert_sorted(acc, k, v);
    if acc.len() == 0 {
        assert forall|p: (Seq<char>, Seq<char>)| #[trigger] r.contains(p) <==> (p == (k, v) || (
        acc.contains(p) && p.0 != k)) by {
            lemma_contains_head_tail(r, p);
        }
    } else {
        assert(sorted_strict(acc.drop_first())) by {
            assert forall|i: int, j: int|
                0 <= i < j < acc.drop_first().len() implies lex_lt(
                acc.drop_first()[i].0,
                acc.drop_first()[j].0,
            ) by {
                assert(acc.drop_first()[i] == acc[i + 1]);
                assert(acc.drop_first()[j] == acc[j + 1]);
            }
        }
        if k == acc[0].0 {
            assert forall|p: (Seq<char>, Seq<char>)| #[trigger] r.contains(p) <==> (p == (k, v)
                || (acc.contains(p) && p.0 != k)) by {
                lemma_contains_head_tail(r, p);
                lemma_contains_head_tail(acc, p);
                assert(r.drop_first() =~= acc.drop_first());
                if acc.drop_first().contains(p) {
                    let m = choose|m: int|
                        0 <= m < acc.drop_first().len() && acc.drop_first()[m] == p;
                    assert(acc.drop_first()[m] == acc[m + 1]);
                    assert(lex_lt(acc[0].0, p.0));
                    lemma_lex_trichotomy(acc[0].0, p.0);
                }
            }
        } else if lex_lt(k, acc[0].0) {
            assert forall|p: (Seq<char>, Seq<char>)| #[trigger] r.contains(p) <==> (p == (k, v)
                || (acc.contains(p) && p.0 != k)) by {
                lemma_contains_head_tail(r, p);
                assert(r.drop_first() =~= acc);
                if acc.contains(p) {
                    let m = choose|m: int| 0 <= m < acc.len() && acc[m] == p;
                    if m == 0 {
                        lemma_lex_trichotomy(k, acc[0].0);
                    } else {
                        assert(lex_lt(acc[0].0, acc[m].0));
                        lemma_lex_transitive(k, acc[0].0, acc[m].0);
                        lemma_lex_trichotomy(k, acc[m].0);
                    }
                }
            }
        } else {
            lemma_lex_trichotomy(k, acc[0].0);
            lemma_upsert_members(acc.drop_first(), k, v);
            let rest = upsert_sorted(acc.drop_first(), k, v);
            assert(r =~= seq![acc[0]] + rest);
            assert forall|p: (Seq<char>, Seq<char>)| #[trigger] r.contains(p) <==> (p == (k, v)
                || (acc.contains(p) && p.0 != k)) by {
                lemma_contains_head_tail(r, p);
                lemma_contains_head_tail(acc, p);
                assert(r.drop_first() =~= rest);
                assert(rest.contains(p) <==> (p == (k, v) || (acc.drop_first().contains(p) && p.0
                    != k)));
            }
        }
    }
}

/// Whether some flag of `defs` is named `n`.
pub open spec fn has_named(defs: Seq<ShaderDefV>, n: Seq<char>) -> bool {
    exists|i: int| 0 <= i < defs.len() && def_name(defs[i]) == n
}

/// The rendered value of the last flag of `defs` named `n`.
pub open spec fn last_value_named(defs: Seq<ShaderDefV>, n: Seq<char>) -> Seq<char>
    decreases defs.len(),
{
    if defs.len() == 0 {
        Seq::empty()
    } else if def_name(defs.last()) == n {
        def_value_str(defs.last())
    } else {
        last_value_named(defs.drop_last(), n)
    }
}

/// A name occurs in `defs` exactly when it is the last flag's name or occurs
/// earlier.
proof fn lemma_has_named_snoc(defs: Seq<ShaderDefV>, n: Seq<char>)
    requires
        defs.len() > 0,
    ensures
        has_named(defs, n) <==> (def_name(defs.last()) == n || has_named(defs.drop_last(), n)),
{
    if has_named(defs, n) {
        let i = choose|i: int| 0 <= i < defs.len() && def_name(defs[i]) == n;
        if i < defs.len() - 1 {
            assert(defs.drop_last()[i] == defs[i]);
            assert(has_named(defs.drop_last(), n));
        }
    }
    if has_named(defs.drop_last(), n) {
        let i = choose|i: int|
            0 <= i < defs.drop_last().len() && def_name(defs.drop_last()[i]) == n;
        assert(defs.drop_last()[i] == defs[i]);
        assert(has_named(defs, n));
    }
}

/// The sorted constants list is strictly sorted by name.
proof fn lemma_constants_sorted_strict(defs: Seq<ShaderDefV>, consts: Seq<Seq<char>>)
    ensures
        sorted_strict(constants_sorted(defs, consts)),
    decreases defs.len(),
{
    if defs.len() > 0 {
        lemma_constants_sorted_strict(defs.drop_last(), consts);
        if selects(consts, defs.last()) {
            lemma_upsert_sorted_strict(
                constants_sorted(defs.drop_last(), consts),
                def_name(defs.last()),
                def_value_str(defs.last()),
            );
        }
    }
}

/// Exact membership of the sorted constants list: the selected names that
/// occur in the flag set, each with the value of its last occurrence.
proof fn lemma_constants_members(defs: Seq<ShaderDefV>, consts: Seq<Seq<char>>)
    ensures
        forall|p: (Seq<char>, Seq<char>)|
            #[trigger] constants_sorted(defs, consts).contains(p) <==> (consts.contains(p.0)
                && has_named(defs, p.0) && p.1 == last_value_named(defs, p.0)),
    decreases defs.len(),
{
    let r = constants_sorted(defs, consts);
    if defs.len() == 0 {
        assert forall|p: (Seq<char>, Seq<char>)| #[trigger] r.contains(p) <==> (consts.contains(
            p.0,
        ) && has_named(defs, p.0) && p.1 == last_value_named(defs, p.0)) by {
            assert(!r.contains(p)) by {
                if r.contains(p) {
                    let i = choose|i: int| 0 <= i < r.len() && r[i] == p;
                }
            }
            assert(!has_named(defs, p.0));
        }
    } else {
        let prev = constants_sorted(defs.drop_last(), consts);
        let d = defs.last();
        lemma_constants_members(defs.drop_last(), consts);
        lemma_constants_sorted_strict(defs.drop_last(), consts);
        assert forall|p: (Seq<char>, Seq<char>)| #[trigger] r.contains(p) <==> (consts.contains(
            p.0,
        ) && has_named(defs, p.0) && p.1 == last_value_named(defs, p.0)) by {
            lemma_has_named_snoc(defs, p.0);
            if selects(consts, d) {
                lemma_upsert_members(prev, def_name(d), def_value_str(d));
                if p.0 == def_name(d) {
                    assert(last_value_named(defs, p.0) == def_value_str(d));
                    assert(has_named(defs, p.0)) by {
                        assert(def_name(defs[defs.len() - 1]) == p.0);
                    }
                } else {
                    assert(last_value_named(defs, p.0) == last_value_named(
                        defs.drop_last(),
                        p.0,
                    ));
                }
            } else {
                if p.0 == def_name(d) {
                    // The last flag's name is not selected, so neither side
                    // admits an entry under it.
                    assert(!consts.contains(p.0));
                } else {
                    assert(last_value_named(defs, p.0) == last_value_named(
                        defs.drop_last(),
                        p.0,
                    ));
                }
            }
        }
    }
}

/// Two strictly sorted association lists with the same members are equal.
proof fn lemma_sorted_same_members(s1: Seq<(Seq<char>, Seq<char>)>, s2: Seq<(Seq<char>, Seq<char>)>)
    requires
        sorted_strict(s1),
        sorted_strict(s2),
        forall|p: (Seq<char>, Seq<char>)| s1.contains(p) <==> s2.contains(p),
    ensures
        s1 == s2,
    decreases s1.len(),
{
    if s1.len() == 0 {
        if s2.len() > 0 {
            assert(s2.contains(s2[0]));
            assert(s1.contains(s2[0]));
            let i = choose|i: int| 0 <= i < s1.len() && s1[i] == s2[0];
            assert(false);
        }
        assert(s1 =~= s2);
    } else {
        assert(s1.contains(s1[0]));
        assert(s2.contains(s1[0]));
        let j = choose|j: int| 0 <= j < s2.len() && s2[j] == s1[0];
        assert(s2.contains(s2[0]));
        assert(s1.contains(s2[0]));
        let m = choose|m: int| 0 <= m < s1.len() && s1[m] == s2[0];
        if j > 0 {
            assert(lex_lt(s2[0].0, s2[j].0));
            if m > 0 {
                assert(lex_lt(s1[0].0, s1[m].0));
                lemma_lex_transitive(s1[0].0, s2[0].0, s1[0].0);
                lemma_lex_trichotomy(s1[0].0, s1[0].0);
            } else {
                lemma_lex_trichotomy(s1[0].0, s2[0].0);
            }
            assert(false);
        }
        assert(s2[0] == s1[0]);
        let t1 = s1.drop_first();
        let t2 = s2.drop_first();
        assert(sorted_strict(t1)) by {
            assert forall|i: int, j2: int| 0 <= i < j2 < t1.len() implies lex_lt(
                t1[i].0,
                t1[j2].0,
            ) by {
                assert(t1[i] == s1[i + 1] && t1[j2] == s1[j2 + 1]);
            }
        }
        assert(sorted_strict(t2)) by {
            assert forall|i: int, j2: int| 0 <= i < j2 < t2.len() implies lex_lt(
                t2[i].0,
                t2[j2].0,
            ) by {
                assert(t2[i] == s2[i + 1] && t2[j2] == s2[j2 + 1]);
            }
        }
        assert forall|p: (Seq<char>, Seq<char>)| t1.contains(p) <==> t2.contains(p) by {
            lemma_contains_head_tail(s1, p);
            lemma_contains_head_tail(s2, p);
            if t1.contains(p) {
                let i = choose|i: int| 0 <= i < t1.len() && t1[i] == p;
                assert(t1[i] == s1[i + 1]);
                assert(lex_lt(s1[0].0, p.0));
                lemma_lex_trichotomy(s1[0].0, p.0);
                assert(s2.contains(p) && p != s2[0]);
            }
            if t2.contains(p) {
                let i = choose|i: int| 0 <= i < t2.len() && t2[i] == p;
                assert(t2[i] == s2[i + 1]);
                assert(lex_lt(s2[0].0, p.0));
                lemma_lex_trichotomy(s2[0].0, p.0);
                assert(s1.contains(p) && p != s1[0]);
            }
        }
        lemma_sorted_same_members(t1, t2);
        assert(s1.len() == s2.len());
        assert forall|i: int| 0 <= i < s1.len() implies s1[i] == s2[i] by {
            if i > 0 {
                assert(s1[i] == t1[i - 1]);
                assert(s2[i] == t2[i - 1]);
            }
        }
        assert(s1 =~= s2);
    }
}

/// Under unique names, the last flag named `n` is the only one, so its value
/// is the value of any flag named `n`.
proof fn lemma_last_value_unique(defs: Seq<ShaderDefV>, i: int)
    requires
        unique_names(defs),
        0 <= i < defs.len(),
    ensures
        has_named(defs, def_name(defs[i])),
        last_value_named(defs, def_name(defs[i])) == def_value_str(defs[i]),
    decreases defs.len(),
{
    if i == defs.len() - 1 {
    } else {
        assert(def_name(defs.last()) != def_name(defs[i]));
        assert(unique_names(defs.drop_last())) by {
            assert forall|a: int, b: int|
                0 <= a < b < defs.drop_last().len() implies def_name(defs.drop_last()[a])
                != def_name(defs.drop_last()[b]) by {
                assert(defs.drop_last()[a] == defs[a] && defs.drop_last()[b] == defs[b]);
            }
        }
        assert(defs.drop_last()[i] == defs[i]);
        lemma_last_value_unique(defs.drop_last(), i);
    }
}

/// A flag name is set in two flag sets with the same members alike.
proof fn lemma_flag_set_equiv(f1: Seq<ShaderDefV>, f2: Seq<ShaderDefV>)
    requires
        same_defs(f1, f2),
    ensures
        forall|n: Seq<char>| #[trigger] flag_set(f1, n) == flag_set(f2, n),
{
    assert forall|n: Seq<char>| #[trigger] flag_set(f1, n) == flag_set(f2, n) by {
        if flag_set(f1, n) {
            let i = choose|i: int| 0 <= i < f1.len() && is_bool_true(f1[i], n);
            assert(f1.contains(f1[i]));
            assert(f2.contains(f1[i]));
            let j = choose|j: int| 0 <= j < f2.len() && f2[j] == f1[i];
            assert(is_bool_true(f2[j], n));
        }
        if flag_set(f2, n) {
            let i = choose|i: int| 0 <= i < f2.len() && is_bool_true(f2[i], n);
            assert(f2.contains(f2[i]));
            assert(f1.contains(f2[i]));
            let j = choose|j: int| 0 <= j < f1.len() && f1[j] == f2[i];
            assert(is_bool_true(f1[j], n));
        }
    }
}

/// First-match selection sees only which flag names are set, not their
/// order.
proof fn lemma_first_match_equiv(
    pairs: Seq<(Seq<char>, Seq<char>)>,
    f1: Seq<ShaderDefV>,
    f2: Seq<ShaderDefV>,
)
    requires
        same_defs(f1, f2),
    ensures
        first_match(pairs, f1) == first_match(pairs, f2),
    decreases pairs.len(),
{
    lemma_flag_set_equiv(f1, f2);
    if pairs.len() > 0 {
        lemma_first_match_equiv(pairs.drop_first(), f1, f2);
    }
}

/// The permutation-variant list sees only which flag names are set.
pub proof fn lemma_permutation_of_equiv(
    params: Seq<(Seq<(Seq<char>, Seq<char>)>, Seq<char>)>,
    f1: Seq<ShaderDefV>,
    f2: Seq<ShaderDefV>,
)
    requires
        same_defs(f1, f2),
    ensures
        permutation_of(params, f1) == permutation_of(params, f2),
{
    assert forall|j: int| 0 <= j < params.len() implies param_token(params[j], f1) == param_token(
        params[j],
        f2,
    ) by {
        lemma_first_match_equiv(params[j].0, f1, f2);
    }
    assert(permutation_of(params, f1) =~= permutation_of(params, f2));
}

/// With unique names, the sorted constants list depends only on the flag
/// set's members.
pub proof fn lemma_constants_sorted_equiv(
    f1: Seq<ShaderDefV>,
    f2: Seq<ShaderDefV>,
    consts: Seq<Seq<char>>,
)
    requires
        unique_names(f1),
        unique_names(f2),
        same_defs(f1, f2),
    ensures
        constants_sorted(f1, consts) == constants_sorted(f2, consts),
{
    lemma_constants_sorted_strict(f1, consts);
    lemma_constants_sorted_strict(f2, consts);
    lemma_constants_members(f1, consts);
    lemma_constants_members(f2, consts);
    assert forall|n: Seq<char>| #[trigger] has_named(f1, n) == has_named(f2, n) by {
        if has_named(f1, n) {
            let i = choose|i: int| 0 <= i < f1.len() && def_name(f1[i]) == n;
            assert(f1.contains(f1[i]));
            assert(f2.contains(f1[i]));
            let j = choose|j: int| 0 <= j < f2.len() && f2[j] == f1[i];
            assert(def_name(f2[j]) == n);
        }
        if has_named(f2, n) {
            let i = choose|i: int| 0 <= i < f2.len() && def_name(f2[i]) == n;
            assert(f2.contains(f2[i]));
            assert(f1.contains(f2[i]));
            let j = choose|j: int| 0 <= j < f1.len() && f1[j] == f2[i];
            assert(def_name(f1[j]) == n);
        }
    }
    assert forall|n: Seq<char>| has_named(f1, n) implies #[trigger] last_value_named(f1, n)
        == last_value_named(f2, n) by {
        let i = choose|i: int| 0 <= i < f1.len() && def_name(f1[i]) == n;
        lemma_last_value_unique(f1, i);
        assert(f1.contains(f1[i]));
        assert(f2.contains(f1[i]));
        let j = choose|j: int| 0 <= j < f2.len() && f2[j] == f1[i];
        lemma_last_value_unique(f2, j);
    }
    assert forall|p: (Seq<char>, Seq<char>)|
        constants_sorted(f1, consts).contains(p) <==> constants_sorted(f2, consts).contains(
        p,
    ) by {
        assert(has_named(f1, p.0) == has_named(f2, p.0));
    }
    lemma_sorted_same_members(constants_sorted(f1, consts), constants_sorted(f2, consts));
}

/// Determinism: two flag sets with the same named values, in any insertion
/// order, build the same entry-point symbol, for every descriptor.  Flag
/// sets are required to carry each name at most once; with a name repeated
/// at different values, which value wins depends on order.
pub proof fn lemma_build_deterministic(
    name: Seq<char>,
    params: Seq<(Seq<(Seq<char>, Seq<char>)>, Seq<char>)>,
    consts: Seq<Seq<char>>,
    types: Seq<(Seq<char>, Seq<char>)>,
    f1: Seq<ShaderDefV>,
    f2: Seq<ShaderDefV>,
)
    requires
        unique_names(f1),
        unique_names(f2),
        same_defs(f1, f2),
    ensures
        entry_symbol(name, params, consts, types, f1) == entry_symbol(
            name,
            params,
            consts,
            types,
            f2,
        ),
{
    lemma_permutation_of_equiv(params, f1, f2);
    lemma_constants_sorted_equiv(f1, f2, consts);
}

/// The first unsigned-integer flag under a name depends only on the flag
/// set's members, when names are unique.
pub proof fn lemma_first_uint_equiv(f1: Seq<ShaderDefV>, f2: Seq<ShaderDefV>, n: Seq<char>)
    requires
        unique_names(f1),
        unique_names(f2),
        same_defs(f1, f2),
    ensures
        first_uint(f1, n) == first_uint(f2, n),
{
    lemma_first_uint_member(f1, n);
    lemma_first_uint_member(f2, n);
    match first_uint(f1, n) {
        Some(v) => {
            let i = choose|i: int|
                0 <= i < f1.len() && f1[i] == ShaderDefV::UInt(n, first_uint(f1, n)->Some_0);
            assert(f1.contains(f1[i]));
            assert(f2.contains(f1[i]));
            let j = choose|j: int| 0 <= j < f2.len() && f2[j] == f1[i];
            lemma_first_uint_at(f2, n, j);
        },
        None => {
            match first_uint(f2, n) {
                Some(w) => {
                    let i = choose|i: int|
                        0 <= i < f2.len() && f2[i] == ShaderDefV::UInt(
                            n,
                            first_uint(f2, n)->Some_0,
                        );
                    assert(f2.contains(f2[i]));
                    assert(f1.contains(f2[i]));
                    let j = choose|j: int| 0 <= j < f1.len() && f1[j] == f2[i];
                    lemma_first_uint_at(f1, n, j);
                },
                None => {},
            }
        },
    }
}

/// A found first unsigned-integer flag is a member of the set.
proof fn lemma_first_uint_member(defs: Seq<ShaderDefV>, n: Seq<char>)
    ensures
        match first_uint(defs, n) {
            Some(v) => exists|i: int| 0 <= i < defs.len() && defs[i] == ShaderDefV::UInt(n, v),
            None => true,
        },
    decreases defs.len(),
{
    if defs.len() > 0 {
        match defs[0] {
            ShaderDefV::UInt(m, v) => {
                if m != n {
                    lemma_first_uint_member(defs.drop_first(), n);
                    shift_first_uint_witness(defs, n);
                }
            },
            _ => {
                lemma_first_uint_member(defs.drop_first(), n);
                shift_first_uint_witness(defs, n);
            },
        }
    }
}

/// Lifts a witness for the tail to a witness for the whole sequence.
proof fn shift_first_uint_witness(defs: Seq<ShaderDefV>, n: Seq<char>)
    requires
        defs.len() > 0,
        match first_uint(defs.drop_first(), n) {
            Some(v) => exists|i: int|
                0 <= i < defs.drop_first().len() && defs.drop_first()[i] == ShaderDefV::UInt(n, v),
            None => true,
        },
    ensures
        match first_uint(defs.drop_first(), n) {
            Some(v) => exists|i: int| 0 <= i < defs.len() && defs[i] == ShaderDefV::UInt(n, v),
            None => true,
        },
{
    match first_uint(defs.drop_first(), n) {
        Some(v) => {
            let i = choose|i: int|
                0 <= i < defs.drop_first().len() && defs.drop_first()[i] == ShaderDefV::UInt(n, v);
            assert(defs[i + 1] == ShaderDefV::UInt(n, v));
        },
        None => {},
    }
}

/// With unique names, an unsigned-integer flag named `n` at any position is
/// the value `first_uint` finds.
proof fn lemma_first_uint_at(defs: Seq<ShaderDefV>, n: Seq<char>, i: int)
    requires
        unique_names(defs),
        0 <= i < defs.len(),
        defs[i] is UInt,
        def_name(defs[i]) == n,
    ensures
        first_uint(defs, n) == Some(defs[i]->UInt_1),
    decreases defs.len(),
{
    if i == 0 {
    } else {
        assert(def_name(defs[0]) != n);
        assert(unique_names(defs.drop_first())) by {
            assert forall|a: int, b: int|
                0 <= a < b < defs.drop_first().len() implies def_name(defs.drop_first()[a])
                != def_name(defs.drop_first()[b]) by {
                assert(defs.drop_first()[a] == defs[a + 1]);
                assert(defs.drop_first()[b] == defs[b + 1]);
            }
        }
        assert(defs.drop_first()[i - 1] == defs[i]);
        lemma_first_uint_at(defs.drop_first(), n, i - 1);
        match defs[0] {
            ShaderDefV::UInt(m, _) => {
                assert(m != n);
            },
            _ => {},
        }
    }
}

/// Tie-break: a parameter emits the token of its first pair whose flag is
/// set; pairs after the first match can never override it.
pub proof fn lemma_param_first_match_wins(
    p: (Seq<(Seq<char>, Seq<char>)>, Seq<char>),
    defs: Seq<ShaderDefV>,
    i: int,
)
    requires
        0 <= i < p.0.len(),
        flag_set(defs, p.0[i].0),
        forall|j: int| 0 <= j < i ==> !flag_set(defs, p.0[j].0),
    ensures
        param_token(p, defs) == p.0[i].1,
    decreases i,
{
    if i == 0 {
    } else {
        let tail = (p.0.drop_first(), p.1);
        assert(tail.0[i - 1] == p.0[i]);
        assert forall|j: int| 0 <= j < i - 1 implies !flag_set(defs, tail.0[j].0) by {
            assert(tail.0[j] == p.0[j + 1]);
        }
        lemma_param_first_match_wins(tail, defs, i - 1);
    }
}

/// Determinism for the PBR fragment entry point, whose permutation splices
/// in a token derived from a flag's numeric value: two flag sets with the
/// same members still yield the same permutation list and constants.
pub proof fn lemma_pbr_build_deterministic(f1: Seq<ShaderDefV>, f2: Seq<ShaderDefV>)
    requires
        unique_names(f1),
        unique_names(f2),
        same_defs(f1, f2),
    ensures
        crate::bevy_pbr_rust::pbr_permutation(f1) == crate::bevy_pbr_rust::pbr_permutation(f2),
        constants_sorted(f1, crate::bevy_pbr_rust::pbr_fragment_constants()) == constants_sorted(
            f2,
            crate::bevy_pbr_rust::pbr_fragment_constants(),
        ),
{
    lemma_permutation_of_equiv(crate::bevy_pbr_rust::pbr_fragment_parameters(), f1, f2);
    lemma_first_uint_equiv(f1, f2, crate::bevy_pbr_rust::storage_buffer_flag());
    lemma_constants_sorted_equiv(f1, f2, crate::bevy_pbr_rust::pbr_fragment_constants());
}

/// No pair matches an empty flag set.
proof fn lemma_first_match_empty(pairs: Seq<(Seq<char>, Seq<char>)>)
    ensures
        first_match(pairs, Seq::empty()) is None,
    decreases pairs.len(),
{
    if pairs.len() > 0 {
        lemma_first_match_empty(pairs.drop_first());
    }
}

/// Empty-flags fallback: with no flags set, every parameter emits its
/// default token, no constants are selected, and the symbol is the base
/// name followed by the default tokens (for a descriptor without
/// type-derived tokens).
pub proof fn lemma_build_empty_flags(
    name: Seq<char>,
    params: Seq<(Seq<(Seq<char>, Seq<char>)>, Seq<char>)>,
    consts: Seq<Seq<char>>,
)
    ensures
        entry_symbol(name, params, consts, Seq::empty(), Seq::empty()) == name
            + crate::symbol::tokens_concat(
            params.map_values(|p: (Seq<(Seq<char>, Seq<char>)>, Seq<char>)| p.1),
        ),
{
    assert forall|j: int| 0 <= j < params.len() implies param_token(
        params[j],
        Seq::<ShaderDefV>::empty(),
    ) == params[j].1 by {
        lemma_first_match_empty(params[j].0);
    }
    assert(permutation_of(params, Seq::empty()) =~= params.map_values(
        |p: (Seq<(Seq<char>, Seq<char>)>, Seq<char>)| p.1,
    ));
    assert(constants_sorted(Seq::empty(), consts) =~= Seq::<(Seq<char>, Seq<char>)>::empty());
    assert(crate::entry_point::constant_tokens(Seq::empty()) =~= Seq::<Seq<char>>::empty());
    assert(crate::symbol::type_tokens(Seq::empty()) =~= Seq::<Seq<char>>::empty());
    let perm = crate::symbol::tokens_concat(
        params.map_values(|p: (Seq<(Seq<char>, Seq<char>)>, Seq<char>)| p.1),
    );
    assert(name + perm + Seq::empty() + Seq::empty() =~= name + perm);
}

/// An empty descriptor builds the bare base name, whatever the flags: the
/// "no entry point configured" sentinel.
pub proof fn lemma_empty_descriptor(name: Seq<char>, defs: Seq<ShaderDefV>)
    ensures
        entry_symbol(name, Seq::empty(), Seq::empty(), Seq::empty(), defs) == name,
{
    lemma_constants_sorted_no_selector(defs);
    assert(permutation_of(Seq::empty(), defs) =~= Seq::<Seq<char>>::empty());
    assert(crate::entry_point::constant_tokens(Seq::empty()) =~= Seq::<Seq<char>>::empty());
    assert(crate::symbol::type_tokens(Seq::empty()) =~= Seq::<Seq<char>>::empty());
    assert(name + Seq::empty() + Seq::empty() + Seq::empty() =~= name);
}

/// With an empty constant selector, no constants are collected.
proof fn lemma_constants_sorted_no_selector(defs: Seq<ShaderDefV>)
    ensures
        constants_sorted(defs, Seq::empty()) == Seq::<(Seq<char>, Seq<char>)>::empty(),
    decreases defs.len(),
{
    if defs.len() > 0 {
        lemma_constants_sorted_no_selector(defs.drop_last());
        if selects(Seq::empty(), defs.last()) {
            let i = choose|i: int|
                0 <= i < Seq::<Seq<char>>::empty().len() && Seq::<Seq<char>>::empty()[i]
                    == def_name(defs.last());
            assert(false);
        }
    }
}

} // verus!
