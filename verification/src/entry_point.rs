//! The permutation engine: from a set of active capability flags to an
//! ordered permutation-variant list and a fully-qualified entry-symbol
//! string.
//!
//! An entry point declares an ordered list of capability parameters (each a
//! first-match-wins list of flag-name/token pairs plus a default token), a
//! constant selector (flag names carried verbatim as `name_value`), and a
//! list of type-derived tokens.  The built symbol is the base name followed
//! by each token prefixed with `__`; constants are sorted by name so that the
//! flag set's insertion order never affects the result.

use vstd::prelude::*;

use crate::shader_def::{
    def_name, def_name_string, def_value_str, def_value_string, flag_enabled, flag_set,
    ShaderDefV, ShaderDefVal,
};
use crate::seqs::{
    lemma_deep_of_insert, lemma_deep_of_push, lemma_deep_of_remove, lemma_vec_deep_view,
};
use crate::symbol::{
    append_tokens, lemma_lex_trichotomy, lex_lt, str_lt, tokens_concat, type_token_string,
    type_tokens,
};

verus! {

/// An entry point's base function name, including its module path.
pub type EntryPointName = String;

/// Ordered capability parameters: each an ordered list of
/// (flag-name, output-token) pairs and a default token.
pub type EntryPointParameters = Vec<(Vec<(String, String)>, String)>;

/// Flag names whose values are carried verbatim into the symbol.
pub type EntryPointConstants = Vec<String>;

/// Type-derived (key, value) token pairs.
pub type EntryPointTypes = Vec<(String, String)>;

// ---------------------------------------------------------------------------
// Parameters.
// ---------------------------------------------------------------------------

/// The token of the first pair whose flag name is set in `defs`, if any.
pub open spec fn first_match(
    pairs: Seq<(Seq<char>, Seq<char>)>,
    defs: Seq<ShaderDefV>,
) -> Option<Seq<char>>
    decreases pairs.len(),
{
    if pairs.len() == 0 {
        None
    } else if flag_set(defs, pairs[0].0) {
        Some(pairs[0].1)
    } else {
        first_match(pairs.drop_first(), defs)
    }
}

/// The token a parameter emits: its first matching pair's token, or its
/// default token when no flag name of the parameter is set.
pub open spec fn param_token(
    p: (Seq<(Seq<char>, Seq<char>)>, Seq<char>),
    defs: Seq<ShaderDefV>,
) -> Seq<char> {
    match first_match(p.0, defs) {
        Some(t) => t,
        None => p.1,
    }
}

/// The ordered permutation-variant list: one token per parameter, in
/// parameter order.
pub open spec fn permutation_of(
    params: Seq<(Seq<(Seq<char>, Seq<char>)>, Seq<char>)>,
    defs: Seq<ShaderDefV>,
) -> Seq<Seq<char>> {
    params.map_values(|p: (Seq<(Seq<char>, Seq<char>)>, Seq<char>)| param_token(p, defs))
}

/// The token of the first pair whose flag name is set in `defs`, if any.
fn first_match_token(pairs: &Vec<(String, String)>, defs: &Vec<ShaderDefVal>) -> (r: Option<
    String,
>)
    ensures
        r.deep_view() == first_match(pairs.deep_view(), defs.deep_view()),
{
    proof {
        assert(pairs.deep_view().skip(0) =~= pairs.deep_view());
    }
    let mut i: usize = 0;
    while i < pairs.len()
        invariant
            0 <= i <= pairs.len(),
            first_match(pairs.deep_view(), defs.deep_view()) == first_match(
                pairs.deep_view().skip(i as int),
                defs.deep_view(),
            ),
        decreases pairs.len() - i,
    {
        proof {
            assert(pairs.deep_view().skip(i as int)[0] == pairs.deep_view()[i as int]);
            assert(pairs.deep_view().skip(i as int).drop_first() =~= pairs.deep_view().skip(
                i + 1,
            ));
        }
        if flag_enabled(defs, &pairs[i].0) {
            return Some(pairs[i].1.clone());
        }
        i = i + 1;
    }
    proof {
        assert(pairs.deep_view().skip(pairs.len() as int).len() == 0);
    }
    None
}

/// One token per parameter, in parameter order: the first matching pair's
/// token, or the default.
pub fn permutation_tokens(params: &EntryPointParameters, defs: &Vec<ShaderDefVal>) -> (r: Vec<
    String,
>)
    ensures
        r.deep_view() == permutation_of(params.deep_view(), defs.deep_view()),
{
    broadcast use lemma_vec_deep_view, lemma_deep_of_push;

    let mut r: Vec<String> = Vec::new();
    proof {
        assert(r.deep_view() =~= permutation_of(
            params.deep_view().subrange(0, 0),
            defs.deep_view(),
        ));
    }
    let mut i: usize = 0;
    while i < params.len()
        invariant
            0 <= i <= params.len(),
            r.deep_view() == permutation_of(
                params.deep_view().subrange(0, i as int),
                defs.deep_view(),
            ),
        decreases params.len() - i,
    {
        let token = match first_match_token(&params[i].0, defs) {
            Some(t) => t,
            None => params[i].1.clone(),
        };
        proof {
            assert(params.deep_view()[i as int].0 == params@[i as int].0.deep_view());
            assert(token@ == param_token(params.deep_view()[i as int], defs.deep_view()));
        }
        r.push(token);
        proof {
            assert(permutation_of(params.deep_view().subrange(0, i as int), defs.deep_view()).push(
                param_token(params.deep_view()[i as int], defs.deep_view()),
            ) =~= permutation_of(params.deep_view().subrange(0, i + 1), defs.deep_view()));
        }
        i = i + 1;
    }
    proof {
        assert(params.deep_view().subrange(0, params.len() as int) =~= params.deep_view());
    }
    r
}

// ---------------------------------------------------------------------------
// Constants.
// ---------------------------------------------------------------------------

/// Whether the constant selector carries this flag.
pub open spec fn selects(consts: Seq<Seq<char>>, d: ShaderDefV) -> bool {
    consts.contains(def_name(d))
}

/// The flags of `defs` whose names the selector carries, in their original
/// order.
pub open spec fn filter_consts(defs: Seq<ShaderDefV>, consts: Seq<Seq<char>>) -> Seq<ShaderDefV>
    decreases defs.len(),
{
    if defs.len() == 0 {
        Seq::empty()
    } else {
        let prev = filter_consts(defs.drop_last(), consts);
        if selects(consts, defs.last()) {
            prev.push(defs.last())
        } else {
            prev
        }
    }
}

/// Inserts `(k, v)` into a name-sorted association list, replacing the entry
/// for `k` if one exists.
pub open spec fn upsert_sorted(
    acc: Seq<(Seq<char>, Seq<char>)>,
    k: Seq<char>,
    v: Seq<char>,
) -> Seq<(Seq<char>, Seq<char>)>
    decreases acc.len(),
{
    if acc.len() == 0 {
        seq![(k, v)]
    } else if k == acc[0].0 {
        seq![(k, v)] + acc.drop_first()
    } else if lex_lt(k, acc[0].0) {
        seq![(k, v)] + acc
    } else {
        seq![acc[0]] + upsert_sorted(acc.drop_first(), k, v)
    }
}

/// The selected constants of `defs` as a name-sorted association list of
/// (name, rendered value); a later flag with the same name replaces an
/// earlier one.
pub open spec fn constants_sorted(
    defs: Seq<ShaderDefV>,
    consts: Seq<Seq<char>>,
) -> Seq<(Seq<char>, Seq<char>)>
    decreases defs.len(),
{
    if defs.len() == 0 {
        Seq::empty()
    } else {
        let prev = constants_sorted(defs.drop_last(), consts);
        if selects(consts, defs.last()) {
            upsert_sorted(prev, def_name(defs.last()), def_value_str(defs.last()))
        } else {
            prev
        }
    }
}

/// Each constant serialized as `name_value`.
pub open spec fn constant_tokens(cs: Seq<(Seq<char>, Seq<char>)>) -> Seq<Seq<char>> {
    cs.map_values(|kv: (Seq<char>, Seq<char>)| kv.0 + "_"@ + kv.1)
}

/// Whether `consts` contains `name`.
pub fn contains_name(consts: &Vec<String>, name: &String) -> (r: bool)
    ensures
        r == consts.deep_view().contains(name@),
{
    let mut i: usize = 0;
    while i < consts.len()
        invariant
            0 <= i <= consts.len(),
            forall|j: int| 0 <= j < i ==> consts.deep_view()[j] != name@,
        decreases consts.len() - i,
    {
        if consts[i].eq(name) {
            assert(consts.deep_view()[i as int] == name@);
            return true;
        }
        i = i + 1;
    }
    assert(!consts.deep_view().contains(name@));
    false
}

impl Clone for ShaderDefVal {
    /// A clone has the same name and value.
    fn clone(&self) -> (r: Self)
        ensures
            r@ == self@,
    {
        match self {
            ShaderDefVal::Bool(n, v) => ShaderDefVal::Bool(n.clone(), *v),
            ShaderDefVal::Int(n, v) => ShaderDefVal::Int(n.clone(), *v),
            ShaderDefVal::UInt(n, v) => ShaderDefVal::UInt(n.clone(), *v),
        }
    }
}

/// The flags of `defs` whose names `consts` carries, in their original
/// order.
pub fn filter_constant_defs(defs: &Vec<ShaderDefVal>, consts: &EntryPointConstants) -> (r: Vec<
    ShaderDefVal,
>)
    ensures
        r.deep_view() == filter_consts(defs.deep_view(), consts.deep_view()),
{
    let mut r: Vec<ShaderDefVal> = Vec::new();
    proof {
        assert(r.deep_view() =~= filter_consts(
            defs.deep_view().subrange(0, 0),
            consts.deep_view(),
        ));
    }
    let mut i: usize = 0;
    while i < defs.len()
        invariant
            0 <= i <= defs.len(),
            r.deep_view() == filter_consts(
                defs.deep_view().subrange(0, i as int),
                consts.deep_view(),
            ),
        decreases defs.len() - i,
    {
        proof {
            let pre = defs.deep_view().subrange(0, i + 1);
            assert(pre.drop_last() =~= defs.deep_view().subrange(0, i as int));
            assert(pre.last() == defs.deep_view()[i as int]);
        }
        if contains_name(consts, def_name_string(&defs[i])) {
            r.push(defs[i].clone());
            proof {
                assert(r.deep_view() =~= filter_consts(
                    defs.deep_view().subrange(0, i + 1),
                    consts.deep_view(),
                ));
            }
        }
        i = i + 1;
    }
    proof {
        assert(defs.deep_view().subrange(0, defs.len() as int) =~= defs.deep_view());
    }
    r
}

/// Inserts `(name, value)` into the name-sorted list `acc`, replacing the
/// entry for `name` if one exists.
pub(crate) fn upsert_constant(acc: &mut Vec<(String, String)>, name: String, value: String)
    ensures
        final(acc).deep_view() == upsert_sorted(old(acc).deep_view(), name@, value@),
{
    broadcast use lemma_vec_deep_view, lemma_deep_of_push, lemma_deep_of_insert,
        lemma_deep_of_remove;

    let ghost orig = old(acc).deep_view();
    proof {
        assert(orig.skip(0) =~= orig);
        assert(orig.take(0) + upsert_sorted(orig, name@, value@) =~~= upsert_sorted(
            orig,
            name@,
            value@,
        ));
    }
    let mut i: usize = 0;
    while i < acc.len()
        invariant
            0 <= i <= acc.len(),
            orig == old(acc).deep_view(),
            acc.deep_view() == orig,
            upsert_sorted(orig, name@, value@) == orig.take(i as int) + upsert_sorted(
                orig.skip(i as int),
                name@,
                value@,
            ),
        decreases acc.len() - i,
    {
        proof {
            assert(orig.skip(i as int)[0] == orig[i as int]);
            assert(orig.skip(i as int).drop_first() =~= orig.skip(i + 1));
        }
        if acc[i].0.eq(&name) {
            let _ = acc.remove(i);
            acc.insert(i, (name, value));
            proof {
                assert(upsert_sorted(orig.skip(i as int), name@, value@) == seq![(name@, value@)]
                    + orig.skip(i + 1));
                assert(acc.deep_view() == orig.remove(i as int).insert(i as int, (name@, value@)));
                assert(acc.deep_view() =~~= orig.take(i as int) + upsert_sorted(
                    orig.skip(i as int),
                    name@,
                    value@,
                ));
            }
            return;
        }
        if str_lt(&name, &acc[i].0) {
            acc.insert(i, (name, value));
            proof {
                assert(upsert_sorted(orig.skip(i as int), name@, value@) == seq![(name@, value@)]
                    + orig.skip(i as int));
                assert(acc.deep_view() == orig.insert(i as int, (name@, value@)));
                assert(acc.deep_view() =~~= orig.take(i as int) + upsert_sorted(
                    orig.skip(i as int),
                    name@,
                    value@,
                ));
            }
            return;
        }
        proof {
            lemma_lex_trichotomy(name@, orig[i as int].0);
            assert(upsert_sorted(orig.skip(i as int), name@, value@) == seq![orig[i as int]]
                + upsert_sorted(orig.skip(i + 1), name@, value@));
            assert(orig.take(i as int) + (seq![orig[i as int]] + upsert_sorted(
                orig.skip(i + 1),
                name@,
                value@,
            )) =~~= orig.take(i + 1) + upsert_sorted(orig.skip(i + 1), name@, value@));
        }
        i = i + 1;
    }
    proof {
        assert(orig.skip(acc.len() as int).len() == 0);
    }
    acc.push((name, value));
    proof {
        assert(acc.deep_view() == orig.push((name@, value@)));
        assert(acc.deep_view() =~~= orig.take(orig.len() as int) + upsert_sorted(
            orig.skip(orig.len() as int),
            name@,
            value@,
        ));
    }
}

/// The selected constants of `defs`, sorted by name, each rendered as a
/// (name, value-string) pair.
pub fn sorted_constants(defs: &Vec<ShaderDefVal>, consts: &EntryPointConstants) -> (r: Vec<(
    String,
    String,
)>)
    ensures
        r.deep_view() == constants_sorted(defs.deep_view(), consts.deep_view()),
{
    let mut r: Vec<(String, String)> = Vec::new();
    proof {
        assert(r.deep_view() =~= constants_sorted(
            defs.deep_view().subrange(0, 0),
            consts.deep_view(),
        ));
    }
    let mut i: usize = 0;
    while i < defs.len()
        invariant
            0 <= i <= defs.len(),
            r.deep_view() == constants_sorted(
                defs.deep_view().subrange(0, i as int),
                consts.deep_view(),
            ),
        decreases defs.len() - i,
    {
        proof {
            let pre = defs.deep_view().subrange(0, i + 1);
            assert(pre.drop_last() =~= defs.deep_view().subrange(0, i as int));
            assert(pre.last() == defs.deep_view()[i as int]);
        }
        if contains_name(consts, def_name_string(&defs[i])) {
            let name = def_name_string(&defs[i]).clone();
            let value = def_value_string(&defs[i]);
            upsert_constant(&mut r, name, value);
        }
        i = i + 1;
    }
    proof {
        assert(defs.deep_view().subrange(0, defs.len() as int) =~= defs.deep_view());
    }
    r
}

// ---------------------------------------------------------------------------
// Symbol assembly.
// ---------------------------------------------------------------------------

/// The full entry-point symbol: base name, then each permutation token, each
/// sorted constant as `name_value`, and each type token, all prefixed by
/// `__`.
pub open spec fn symbol_with(
    name: Seq<char>,
    perm: Seq<Seq<char>>,
    consts: Seq<(Seq<char>, Seq<char>)>,
    types: Seq<Seq<char>>,
) -> Seq<char> {
    name + tokens_concat(perm) + tokens_concat(constant_tokens(consts)) + tokens_concat(types)
}

/// The symbol an entry point with the given descriptor builds from `defs`,
/// using the standard per-parameter token selection.
pub open spec fn entry_symbol(
    name: Seq<char>,
    params: Seq<(Seq<(Seq<char>, Seq<char>)>, Seq<char>)>,
    consts: Seq<Seq<char>>,
    types: Seq<(Seq<char>, Seq<char>)>,
    defs: Seq<ShaderDefV>,
) -> Seq<char> {
    symbol_with(
        name,
        permutation_of(params, defs),
        constants_sorted(defs, consts),
        type_tokens(types),
    )
}

/// Assembles the full symbol from a base name, an already-computed
/// permutation list, the constant selector, the type-derived pairs, and the
/// active flags.
pub fn assemble_symbol(
    name: &String,
    permutation: &Vec<String>,
    constants: &EntryPointConstants,
    types: &EntryPointTypes,
    shader_defs: &Vec<ShaderDefVal>,
) -> (r: String)
    ensures
        r@ == symbol_with(
            name@,
            permutation.deep_view(),
            constants_sorted(shader_defs.deep_view(), constants.deep_view()),
            type_tokens(types.deep_view()),
        ),
{
    let mut r = name.clone();
    append_tokens(&mut r, permutation);

    let cs = sorted_constants(shader_defs, constants);
    let mut ctoks: Vec<String> = Vec::new();
    proof {
        broadcast use lemma_vec_deep_view, lemma_deep_of_push;

    }
    proof {
        assert(ctoks.deep_view() =~= constant_tokens(cs.deep_view().subrange(0, 0)));
    }
    let mut i: usize = 0;
    while i < cs.len()
        invariant
            0 <= i <= cs.len(),
            ctoks.deep_view() == constant_tokens(cs.deep_view().subrange(0, i as int)),
        decreases cs.len() - i,
    {
        let mut tok = cs[i].0.clone();
        tok.append("_");
        tok.append(cs[i].1.as_str());
        proof {
            assert(cs.deep_view()[i as int] == cs@[i as int].deep_view());
            assert(tok@ == cs.deep_view()[i as int].0 + "_"@ + cs.deep_view()[i as int].1);
        }
        ctoks.push(tok);
        proof {
            assert(constant_tokens(cs.deep_view().subrange(0, i as int)).push(
                cs.deep_view()[i as int].0 + "_"@ + cs.deep_view()[i as int].1,
            ) =~= constant_tokens(cs.deep_view().subrange(0, i + 1)));
        }
        i = i + 1;
    }
    proof {
        assert(cs.deep_view().subrange(0, cs.len() as int) =~= cs.deep_view());
    }
    append_tokens(&mut r, &ctoks);

    let mut ttoks: Vec<String> = Vec::new();
    proof {
        assert(ttoks.deep_view() =~= type_tokens(types.deep_view().subrange(0, 0)));
    }
    let mut j: usize = 0;
    while j < types.len()
        invariant
            0 <= j <= types.len(),
            ttoks.deep_view() == type_tokens(types.deep_view().subrange(0, j as int)),
        decreases types.len() - j,
    {
        let ttok = type_token_string(&types[j].0, &types[j].1);
        proof {
            assert(types.deep_view()[j as int] == types@[j as int].deep_view());
            assert(ttok@ == crate::symbol::type_token(types.deep_view()[j as int]));
        }
        ttoks.push(ttok);
        proof {
            assert(type_tokens(types.deep_view().subrange(0, j as int)).push(
                crate::symbol::type_token(types.deep_view()[j as int]),
            ) =~= type_tokens(types.deep_view().subrange(0, j + 1)));
        }
        j = j + 1;
    }
    proof {
        assert(types.deep_view().subrange(0, types.len() as int) =~= types.deep_view());
    }
    append_tokens(&mut r, &ttoks);
    r
}

// ---------------------------------------------------------------------------
// The entry-point capability.
// ---------------------------------------------------------------------------

/// A shader entry point, fixed per shader stage per material type: a base
/// symbol name, capability parameters, a constant selector, and type-derived
/// tokens.  `build` turns the active flags into the exact symbol the
/// compiler exports for that permutation.
pub trait EntryPoint {
    /// The base symbol name.
    spec fn spec_name() -> Seq<char>;

    /// The declared capability parameters.
    spec fn spec_parameters() -> Seq<(Seq<(Seq<char>, Seq<char>)>, Seq<char>)>;

    /// The declared constant selector.
    spec fn spec_constants() -> Seq<Seq<char>>;

    /// The declared type-derived pairs.
    spec fn spec_types() -> Seq<(Seq<char>, Seq<char>)>;

    /// The permutation-variant list derived from a flag set.  The standard
    /// derivation is [`permutation_of`]; an entry point may splice in tokens
    /// that depend on more than flag presence.
    spec fn spec_permutation(defs: Seq<ShaderDefV>) -> Seq<Seq<char>>;

    /// The entry point's base function name, including module path.
    fn name() -> (r: EntryPointName)
        ensures
            r@ == Self::spec_name(),
    ;

    /// The entry point's capability parameters.
    fn parameters() -> (r: EntryPointParameters)
        ensures
            r.deep_view() == Self::spec_parameters(),
    ;

    /// The entry point's constant selector.
    fn constants() -> (r: EntryPointConstants)
        ensures
            r.deep_view() == Self::spec_constants(),
    ;

    /// The entry point's type-derived pairs.
    fn types() -> (r: EntryPointTypes)
        ensures
            r.deep_view() == Self::spec_types(),
    ;

    /// Constructs the ordered permutation-variant list from the provided
    /// shader defs.
    fn permutation(shader_defs: &Vec<ShaderDefVal>) -> (r: Vec<String>)
        ensures
            r.deep_view() == Self::spec_permutation(shader_defs.deep_view()),
    ;

    /// The shader defs whose names the constant selector carries.
    fn filter_constants(shader_defs: &Vec<ShaderDefVal>) -> (r: Vec<ShaderDefVal>)
        ensures
            r.deep_view() == filter_consts(shader_defs.deep_view(), Self::spec_constants()),
    ;

    /// Builds the full entry-point symbol from the provided shader defs.
    fn build(shader_defs: &Vec<ShaderDefVal>) -> (r: String)
        ensures
            r@ == symbol_with(
                Self::spec_name(),
                Self::spec_permutation(shader_defs.deep_view()),
                constants_sorted(shader_defs.deep_view(), Self::spec_constants()),
                type_tokens(Self::spec_types()),
            ),
    ;
}

/// The entry point with an empty base name and no parameters, constants or
/// types: the "no entry point configured" sentinel, whose built symbol is
/// always the empty string.
impl EntryPoint for () {
    open spec fn spec_name() -> Seq<char> {
        Seq::empty()
    }

    open spec fn spec_parameters() -> Seq<(Seq<(Seq<char>, Seq<char>)>, Seq<char>)> {
        Seq::empty()
    }

    open spec fn spec_constants() -> Seq<Seq<char>> {
        Seq::empty()
    }

    open spec fn spec_types() -> Seq<(Seq<char>, Seq<char>)> {
        Seq::empty()
    }

    open spec fn spec_permutation(defs: Seq<ShaderDefV>) -> Seq<Seq<char>> {
        Seq::empty()
    }

    fn name() -> (r: EntryPointName) {
        let r = String::new();
        r
    }

    fn parameters() -> (r: EntryPointParameters) {
        let r: EntryPointParameters = Vec::new();
        proof {
            assert(r.deep_view() =~= Self::spec_parameters());
        }
        r
    }

    fn constants() -> (r: EntryPointConstants) {
        let r: EntryPointConstants = Vec::new();
        proof {
            assert(r.deep_view() =~= Self::spec_constants());
        }
        r
    }

    fn types() -> (r: EntryPointTypes) {
        let r: EntryPointTypes = Vec::new();
        proof {
            assert(r.deep_view() =~= Self::spec_types());
        }
        r
    }

    fn permutation(shader_defs: &Vec<ShaderDefVal>) -> (r: Vec<String>) {
        let r: Vec<String> = Vec::new();
        proof {
            assert(r.deep_view() =~= Self::spec_permutation(shader_defs.deep_view()));
        }
        r
    }

    fn filter_constants(shader_defs: &Vec<ShaderDefVal>) -> (r: Vec<ShaderDefVal>) {
        let consts = Self::constants();
        filter_constant_defs(shader_defs, &consts)
    }

    fn build(shader_defs: &Vec<ShaderDefVal>) -> (r: String) {
        let name = Self::name();
        let perm = Self::permutation(shader_defs);
        let consts = Self::constants();
        let types = Self::types();
        assemble_symbol(&name, &perm, &consts, &types, shader_defs)
    }
}

} // verus!
