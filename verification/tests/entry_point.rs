//! Symbol construction: parameter selection, constants, type tokens, and
//! determinism.

use bevy_rust_gpu::bevy_pbr_rust::{MeshFragment, MeshVertex, PbrFragment};
use bevy_rust_gpu::entry_point::{
    assemble_symbol, permutation_tokens, EntryPoint, EntryPointConstants, EntryPointParameters,
    EntryPointTypes,
};
use bevy_rust_gpu::shader_def::{def_value_string, flag_enabled, i32_to_string, u32_to_string, ShaderDefVal};
use bevy_rust_gpu::symbol::type_token_string;

fn bool_def(name: &str, value: bool) -> ShaderDefVal {
    ShaderDefVal::Bool(name.to_string(), value)
}

fn single_param(flag: &str, token: &str, dflt: &str) -> (Vec<(String, String)>, String) {
    (vec![(flag.to_string(), token.to_string())], dflt.to_string())
}

#[test]
fn build_emits_token_for_set_flag() {
    let params: EntryPointParameters = vec![single_param("SKINNED", "some", "none")];
    let consts: EntryPointConstants = Vec::new();
    let types: EntryPointTypes = Vec::new();
    let defs = vec![bool_def("SKINNED", true)];
    let perm = permutation_tokens(&params, &defs);
    let sym = assemble_symbol(&"mesh::vertex".to_string(), &perm, &consts, &types, &defs);
    assert_eq!(sym, "mesh::vertex__some");
}

#[test]
fn build_emits_default_for_missing_flag() {
    let params: EntryPointParameters = vec![single_param("SKINNED", "some", "none")];
    let consts: EntryPointConstants = Vec::new();
    let types: EntryPointTypes = Vec::new();
    let defs: Vec<ShaderDefVal> = Vec::new();
    let perm = permutation_tokens(&params, &defs);
    let sym = assemble_symbol(&"mesh::vertex".to_string(), &perm, &consts, &types, &defs);
    assert_eq!(sym, "mesh::vertex__none");
}

#[test]
fn build_ignores_false_flag() {
    let params: EntryPointParameters = vec![single_param("SKINNED", "some", "none")];
    let consts: EntryPointConstants = Vec::new();
    let types: EntryPointTypes = Vec::new();
    let defs = vec![bool_def("SKINNED", false)];
    let perm = permutation_tokens(&params, &defs);
    let sym = assemble_symbol(&"mesh::vertex".to_string(), &perm, &consts, &types, &defs);
    assert_eq!(sym, "mesh::vertex__none");
}

#[test]
fn first_match_wins_over_later_pairs() {
    let params: EntryPointParameters = vec![(
        vec![
            ("A".to_string(), "x".to_string()),
            ("B".to_string(), "y".to_string()),
        ],
        "z".to_string(),
    )];
    let defs = vec![bool_def("A", true), bool_def("B", true)];
    let perm = permutation_tokens(&params, &defs);
    assert_eq!(perm, vec!["x".to_string()]);

    let defs_b_only = vec![bool_def("B", true)];
    let perm_b = permutation_tokens(&params, &defs_b_only);
    assert_eq!(perm_b, vec!["y".to_string()]);

    let perm_none = permutation_tokens(&params, &Vec::new());
    assert_eq!(perm_none, vec!["z".to_string()]);
}

#[test]
fn empty_flag_set_emits_every_default() {
    let params: EntryPointParameters = vec![
        single_param("A", "a1", "default1"),
        single_param("B", "b1", "default2"),
    ];
    let consts: EntryPointConstants = Vec::new();
    let types: EntryPointTypes = Vec::new();
    let defs: Vec<ShaderDefVal> = Vec::new();
    let perm = permutation_tokens(&params, &defs);
    let sym = assemble_symbol(&"base_name".to_string(), &perm, &consts, &types, &defs);
    assert_eq!(sym, "base_name__default1__default2");
}

#[test]
fn empty_descriptor_yields_base_name_unchanged() {
    let params: EntryPointParameters = Vec::new();
    let consts: EntryPointConstants = Vec::new();
    let types: EntryPointTypes = Vec::new();
    let defs = vec![bool_def("SKINNED", true)];
    let perm = permutation_tokens(&params, &defs);
    let sym = assemble_symbol(&"plain::path".to_string(), &perm, &consts, &types, &defs);
    assert_eq!(sym, "plain::path");
}

#[test]
fn constants_are_sorted_by_name_and_rendered() {
    let params: EntryPointParameters = Vec::new();
    let consts: EntryPointConstants = vec!["MAX_X".to_string(), "A".to_string()];
    let types: EntryPointTypes = Vec::new();
    let defs = vec![
        ShaderDefVal::UInt("MAX_X".to_string(), 2),
        ShaderDefVal::Bool("A".to_string(), true),
    ];
    let perm = permutation_tokens(&params, &defs);
    let sym = assemble_symbol(&"base".to_string(), &perm, &consts, &types, &defs);
    assert_eq!(sym, "base__A_true__MAX_X_2");
}

#[test]
fn constants_ignore_unselected_flags() {
    let params: EntryPointParameters = Vec::new();
    let consts: EntryPointConstants = vec!["KEEP".to_string()];
    let types: EntryPointTypes = Vec::new();
    let defs = vec![
        ShaderDefVal::UInt("KEEP".to_string(), 7),
        ShaderDefVal::UInt("DROP".to_string(), 9),
    ];
    let perm = permutation_tokens(&params, &defs);
    let sym = assemble_symbol(&"base".to_string(), &perm, &consts, &types, &defs);
    assert_eq!(sym, "base__KEEP_7");
}

#[test]
fn negative_constant_renders_with_sign() {
    let params: EntryPointParameters = Vec::new();
    let consts: EntryPointConstants = vec!["N".to_string()];
    let types: EntryPointTypes = Vec::new();
    let defs = vec![ShaderDefVal::Int("N".to_string(), -5)];
    let perm = permutation_tokens(&params, &defs);
    let sym = assemble_symbol(&"base".to_string(), &perm, &consts, &types, &defs);
    assert_eq!(sym, "base__N_-5");
}

#[test]
fn decimal_rendering_is_exact() {
    assert_eq!(u32_to_string(0), "0");
    assert_eq!(u32_to_string(10), "10");
    assert_eq!(u32_to_string(4294967295), "4294967295");
    assert_eq!(i32_to_string(-2147483648), "-2147483648");
    assert_eq!(i32_to_string(0), "0");
    assert_eq!(def_value_string(&ShaderDefVal::Bool("X".to_string(), false)), "false");
}

#[test]
fn type_tokens_are_normalized() {
    let tok = type_token_string(&"Format".to_string(), &"Rgba8< sRGB >".to_string());
    assert_eq!(tok, "format_rgba8_srgb");
    let tok2 = type_token_string(&"Key".to_string(), &"std::vec::Vec<u8>".to_string());
    assert_eq!(tok2, "key_std_vec_vec_u8");
    let tok3 = type_token_string(&"K".to_string(), &"A,B\n(c)[d]__".to_string());
    assert_eq!(tok3, "k_a_b_c__d");
}

#[test]
fn build_is_insertion_order_independent() {
    let params: EntryPointParameters = vec![
        single_param("VERTEX_TANGENTS", "some", "none"),
        single_param("SKINNED", "some", "none"),
    ];
    let consts: EntryPointConstants = vec!["MAX".to_string(), "LIM".to_string()];
    let types: EntryPointTypes = Vec::new();
    let defs1 = vec![
        bool_def("SKINNED", true),
        ShaderDefVal::UInt("MAX".to_string(), 4),
        ShaderDefVal::UInt("LIM".to_string(), 8),
        bool_def("VERTEX_TANGENTS", true),
    ];
    let defs2 = vec![
        ShaderDefVal::UInt("LIM".to_string(), 8),
        bool_def("VERTEX_TANGENTS", true),
        bool_def("SKINNED", true),
        ShaderDefVal::UInt("MAX".to_string(), 4),
    ];
    let name = "pbr::frag".to_string();
    let sym1 = assemble_symbol(&name, &permutation_tokens(&params, &defs1), &consts, &types, &defs1);
    let sym2 = assemble_symbol(&name, &permutation_tokens(&params, &defs2), &consts, &types, &defs2);
    assert_eq!(sym1, sym2);
    assert_eq!(sym1, "pbr::frag__some__some__LIM_8__MAX_4");
}

#[test]
fn mesh_vertex_builds_full_symbol() {
    let defs: Vec<ShaderDefVal> = Vec::new();
    assert_eq!(
        MeshVertex::build(&defs),
        "mesh::entry_points::vertex__none__none__none"
    );
    let defs2 = vec![bool_def("VERTEX_TANGENTS", true)];
    assert_eq!(
        MeshVertex::build(&defs2),
        "mesh::entry_points::vertex__some__none__none"
    );
}

#[test]
fn mesh_fragment_builds_bare_name() {
    let defs = vec![bool_def("ANYTHING", true)];
    assert_eq!(MeshFragment::build(&defs), "mesh::entry_points::fragment");
}

#[test]
fn pbr_fragment_splices_storage_token() {
    let defs = vec![ShaderDefVal::UInt(
        "AVAILABLE_STORAGE_BUFFER_BINDINGS".to_string(),
        3,
    )];
    let perm = PbrFragment::permutation(&defs);
    assert_eq!(perm.len(), 14);
    assert_eq!(perm[0], "array");
    assert_eq!(perm[1], "storage");

    let defs_low = vec![ShaderDefVal::UInt(
        "AVAILABLE_STORAGE_BUFFER_BINDINGS".to_string(),
        2,
    )];
    let perm_low = PbrFragment::permutation(&defs_low);
    assert_eq!(perm_low[1], "uniform");

    let no_defs: Vec<ShaderDefVal> = Vec::new();
    let perm_none = PbrFragment::permutation(&no_defs);
    assert_eq!(perm_none.len(), 13);
}

#[test]
fn pbr_fragment_blend_parameter_uses_first_match() {
    let defs = vec![
        bool_def("BLEND_MULTIPLY", true),
        bool_def("BLEND_PREMULTIPLIED_ALPHA", true),
    ];
    let perm = PbrFragment::permutation(&defs);
    assert_eq!(perm[8], "multiply");
}

#[test]
fn flag_enabled_checks_boolean_truth() {
    let defs = vec![
        bool_def("ON", true),
        bool_def("OFF", false),
        ShaderDefVal::UInt("NUM".to_string(), 1),
    ];
    assert!(flag_enabled(&defs, &"ON".to_string()));
    assert!(!flag_enabled(&defs, &"OFF".to_string()));
    assert!(!flag_enabled(&defs, &"NUM".to_string()));
    assert!(!flag_enabled(&defs, &"ABSENT".to_string()));
}

#[test]
fn filter_constants_keeps_selected_defs_in_order() {
    let defs = vec![
        ShaderDefVal::UInt("MAX_DIRECTIONAL_LIGHTS".to_string(), 4),
        bool_def("SKINNED", true),
        ShaderDefVal::UInt("MAX_CASCADES_PER_LIGHT".to_string(), 2),
    ];
    let kept = PbrFragment::filter_constants(&defs);
    assert_eq!(
        kept,
        vec![
            ShaderDefVal::UInt("MAX_DIRECTIONAL_LIGHTS".to_string(), 4),
            ShaderDefVal::UInt("MAX_CASCADES_PER_LIGHT".to_string(), 2),
        ]
    );
}

#[test]
fn later_constant_with_same_name_wins() {
    let params: EntryPointParameters = Vec::new();
    let consts: EntryPointConstants = vec!["A".to_string()];
    let types: EntryPointTypes = Vec::new();
    let defs = vec![
        ShaderDefVal::UInt("A".to_string(), 1),
        ShaderDefVal::UInt("A".to_string(), 2),
    ];
    let perm = permutation_tokens(&params, &defs);
    let sym = assemble_symbol(&"base".to_string(), &perm, &consts, &types, &defs);
    assert_eq!(sym, "base__A_2");
}
