//! Entry points for the standard mesh and PBR shaders of `bevy-pbr-rust`.

use vstd::prelude::*;

use crate::entry_point::{
    assemble_symbol, filter_constant_defs, permutation_of, permutation_tokens, EntryPoint,
    EntryPointConstants, EntryPointName, EntryPointParameters, EntryPointTypes,
};
use crate::shader_def::{find_uint, first_uint, ShaderDefV, ShaderDefVal};

verus! {

/// A capability parameter with a single (flag, token) pair.
fn single_pair_param(flag: &str, token: &str, dflt: &str) -> (r: (Vec<(String, String)>, String))
    ensures
        r.deep_view() == (seq![(flag@, token@)], dflt@),
{
    let mut pairs: Vec<(String, String)> = Vec::new();
    pairs.push((String::from_str(flag), String::from_str(token)));
    proof {
        assert(pairs.deep_view() =~= seq![(flag@, token@)]);
    }
    (pairs, String::from_str(dflt))
}

/// `mesh::entry_points::vertex` of `bevy-pbr-rust`.
pub struct MeshVertex {}

/// The parameter table of [`MeshVertex`].
pub open spec fn mesh_vertex_parameters() -> Seq<(Seq<(Seq<char>, Seq<char>)>, Seq<char>)> {
    seq![
        (seq![("VERTEX_TANGENTS"@, "some"@)], "none"@),
        (seq![("VERTEX_COLORS"@, "some"@)], "none"@),
        (seq![("SKINNED"@, "some"@)], "none"@),
    ]
}

impl EntryPoint for MeshVertex {
    open spec fn spec_name() -> Seq<char> {
        "mesh::entry_points::vertex"@
    }

    open spec fn spec_parameters() -> Seq<(Seq<(Seq<char>, Seq<char>)>, Seq<char>)> {
        mesh_vertex_parameters()
    }

    open spec fn spec_constants() -> Seq<Seq<char>> {
        Seq::empty()
    }

    open spec fn spec_types() -> Seq<(Seq<char>, Seq<char>)> {
        Seq::empty()
    }

    open spec fn spec_permutation(defs: Seq<ShaderDefV>) -> Seq<Seq<char>> {
        permutation_of(mesh_vertex_parameters(), defs)
    }

    fn name() -> (r: EntryPointName) {
        String::from_str("mesh::entry_points::vertex")
    }

    fn parameters() -> (r: EntryPointParameters) {
        let mut r: EntryPointParameters = Vec::new();
        r.push(single_pair_param("VERTEX_TANGENTS", "some", "none"));
        r.push(single_pair_param("VERTEX_COLORS", "some", "none"));
        r.push(single_pair_param("SKINNED", "some", "none"));
        proof {
            assert(r.deep_view() =~= Self::spec_parameters());
        }
        r
    }

    fn constants() -> (r: EntryPointConstants) {
        let r: EntryPointConstants = Vec::new();
        proof {
            assert(r.deep_view() =~= Self::spec_constants());
        }
        r
    }

    fn types() -> (r: EntryPointTypes) {
        let r: EntryPointTypes = Vec::new();
        proof {
            assert(r.deep_view() =~= Self::spec_types());
        }
        r
    }

    fn permutation(shader_defs: &Vec<ShaderDefVal>) -> (r: Vec<String>) {
        let params = Self::parameters();
        permutation_tokens(&params, shader_defs)
    }

    fn filter_constants(shader_defs: &Vec<ShaderDefVal>) -> (r: Vec<ShaderDefVal>) {
        let consts = Self::constants();
        filter_constant_defs(shader_defs, &consts)
    }

    fn build(shader_defs: &Vec<ShaderDefVal>) -> (r: String) {
        let name = Self::name();
        let perm = Self::permutation(shader_defs);
        let consts = Self::constants();
        let types = Self::types();
        assemble_symbol(&name, &perm, &consts, &types, shader_defs)
    }
}

/// `mesh::entry_points::fragment` of `bevy-pbr-rust`: no parameters, so its
/// symbol is always the bare base name.
pub struct MeshFragment {}

impl EntryPoint for MeshFragment {
    open spec fn spec_name() -> Seq<char> {
        "mesh::entry_points::fragment"@
    }

    open spec fn spec_parameters() -> Seq<(Seq<(Seq<char>, Seq<char>)>, Seq<char>)> {
        Seq::empty()
    }

    open spec fn spec_constants() -> Seq<Seq<char>> {
        Seq::empty()
    }

    open spec fn spec_types() -> Seq<(Seq<char>, Seq<char>)> {
        Seq::empty()
    }

    open spec fn spec_permutation(defs: Seq<ShaderDefV>) -> Seq<Seq<char>> {
        Seq::empty()
    }

    fn name() -> (r: EntryPointName) {
        String::from_str("mesh::entry_points::fragment")
    }

    fn parameters() -> (r: EntryPointParameters) {
        let r: EntryPointParameters = Vec::new();
        proof {
            assert(r.deep_view() =~= Self::spec_parameters());
        }
        r
    }

    fn constants() -> (r: EntryPointConstants) {
        let r: EntryPointConstants = Vec::new();
        proof {
            assert(r.deep_view() =~= Self::spec_constants());
        }
        r
    }

    fn types() -> (r: EntryPointTypes) {
        let r: EntryPointTypes = Vec::new();
        proof {
            assert(r.deep_view() =~= Self::spec_types());
        }
        r
    }

    fn permutation(shader_defs: &Vec<ShaderDefVal>) -> (r: Vec<String>) {
        let r: Vec<String> = Vec::new();
        proof {
            assert(r.deep_view() =~= Self::spec_permutation(shader_defs.deep_view()));
        }
        r
    }

    fn filter_constants(shader_defs: &Vec<ShaderDefVal>) -> (r: Vec<ShaderDefVal>) {
        let consts = Self::constants();
        filter_constant_defs(shader_defs, &consts)
    }

    fn build(shader_defs: &Vec<ShaderDefVal>) -> (r: String) {
        let name = Self::name();
        let perm = Self::permutation(shader_defs);
        let consts = Self::constants();
        let types = Self::types();
        assemble_symbol(&name, &perm, &consts, &types, shader_defs)
    }
}

/// `pbr::entry_points::fragment` of `bevy-pbr-rust`.
pub struct PbrFragment {}

/// The parameter table of [`PbrFragment`].
pub open spec fn pbr_fragment_parameters() -> Seq<(Seq<(Seq<char>, Seq<char>)>, Seq<char>)> {
    seq![
        (seq![("NO_TEXTURE_ARRAYS_SUPPORT"@, "texture"@)], "array"@),
        (seq![("VERTEX_UVS"@, "some"@)], "none"@),
        (seq![("VERTEX_TANGENTS"@, "some"@)], "none"@),
        (seq![("VERTEX_COLORS"@, "some"@)], "none"@),
        (seq![("STANDARDMATERIAL_NORMAL_MAP"@, "some"@)], "none"@),
        (seq![("SKINNED"@, "some"@)], "none"@),
        (seq![("TONEMAP_IN_SHADER"@, "some"@)], "none"@),
        (seq![("DEBAND_DITHER"@, "some"@)], "none"@),
        (
            seq![
                ("BLEND_MULTIPLY"@, "multiply"@),
                ("BLEND_PREMULTIPLIED_ALPHA"@, "blend_premultiplied_alpha"@),
            ],
            "none"@,
        ),
        (seq![("ENVIRONMENT_MAP"@, "some"@)], "none"@),
        (seq![("PREMULTIPLY_ALPHA"@, "some"@)], "none"@),
        (
            seq![
                ("CLUSTERED_FORWARD_DEBUG_Z_SLICES"@, "debug_z_slices"@),
                (
                    "CLUSTERED_FORWARD_DEBUG_CLUSTER_LIGHT_COMPLEXITY"@,
                    "debug_cluster_light_complexity"@,
                ),
                ("CLUSTERED_FORWARD_DEBUG_CLUSTER_COHERENCY"@, "debug_cluster_coherency"@),
            ],
            "none"@,
        ),
        (seq![("DIRECTIONAL_LIGHT_SHADOW_MAP_DEBUG_CASCADES"@, "some"@)], "none"@),
    ]
}

/// The constant selector of [`PbrFragment`].
pub open spec fn pbr_fragment_constants() -> Seq<Seq<char>> {
    seq!["MAX_DIRECTIONAL_LIGHTS"@, "MAX_CASCADES_PER_LIGHT"@]
}

/// The device-capability flag whose numeric value selects the buffer-binding
/// token.
pub open spec fn storage_buffer_flag() -> Seq<char> {
    "AVAILABLE_STORAGE_BUFFER_BINDINGS"@
}

/// The permutation of [`PbrFragment`]: the standard per-parameter tokens,
/// with a `storage`/`uniform` token spliced in at position 1 when the device
/// reports its storage-buffer binding count — `storage` when at least 3 are
/// available, `uniform` otherwise.
pub open spec fn pbr_permutation(defs: Seq<ShaderDefV>) -> Seq<Seq<char>> {
    let base = permutation_of(pbr_fragment_parameters(), defs);
    match first_uint(defs, storage_buffer_flag()) {
        Some(v) => base.insert(
            1,
            if v >= 3 {
                "storage"@
            } else {
                "uniform"@
            },
        ),
        None => base,
    }
}

impl EntryPoint for PbrFragment {
    open spec fn spec_name() -> Seq<char> {
        "pbr::entry_points::fragment"@
    }

    open spec fn spec_parameters() -> Seq<(Seq<(Seq<char>, Seq<char>)>, Seq<char>)> {
        pbr_fragment_parameters()
    }

    open spec fn spec_constants() -> Seq<Seq<char>> {
        pbr_fragment_constants()
    }

    open spec fn spec_types() -> Seq<(Seq<char>, Seq<char>)> {
        Seq::empty()
    }

    open spec fn spec_permutation(defs: Seq<ShaderDefV>) -> Seq<Seq<char>> {
        pbr_permutation(defs)
    }

    fn name() -> (r: EntryPointName) {
        String::from_str("pbr::entry_points::fragment")
    }

    fn parameters() -> (r: EntryPointParameters) {
        let mut r: EntryPointParameters = Vec::new();
        r.push(single_pair_param("NO_TEXTURE_ARRAYS_SUPPORT", "texture", "array"));
        r.push(single_pair_param("VERTEX_UVS", "some", "none"));
        r.push(single_pair_param("VERTEX_TANGENTS", "some", "none"));
        r.push(single_pair_param("VERTEX_COLORS", "some", "none"));
        r.push(single_pair_param("STANDARDMATERIAL_NORMAL_MAP", "some", "none"));
        r.push(single_pair_param("SKINNED", "some", "none"));
        r.push(single_pair_param("TONEMAP_IN_SHADER", "some", "none"));
        r.push(single_pair_param("DEBAND_DITHER", "some", "none"));

        let mut blend_pairs: Vec<(String, String)> = Vec::new();
        blend_pairs.push((String::from_str("BLEND_MULTIPLY"), String::from_str("multiply")));
        blend_pairs.push(
            (
                String::from_str("BLEND_PREMULTIPLIED_ALPHA"),
                String::from_str("blend_premultiplied_alpha"),
            ),
        );
        proof {
            assert(blend_pairs.deep_view() =~= seq![
                ("BLEND_MULTIPLY"@, "multiply"@),
                ("BLEND_PREMULTIPLIED_ALPHA"@, "blend_premultiplied_alpha"@),
            ]);
        }
        r.push((blend_pairs, String::from_str("none")));

        r.push(single_pair_param("ENVIRONMENT_MAP", "some", "none"));
        r.push(single_pair_param("PREMULTIPLY_ALPHA", "some", "none"));

        let mut debug_pairs: Vec<(String, String)> = Vec::new();
        debug_pairs.push(
            (
                String::from_str("CLUSTERED_FORWARD_DEBUG_Z_SLICES"),
                String::from_str("debug_z_slices"),
            ),
        );
        debug_pairs.push(
            (
                String::from_str("CLUSTERED_FORWARD_DEBUG_CLUSTER_LIGHT_COMPLEXITY"),
                String::from_str("debug_cluster_light_complexity"),
            ),
        );
        debug_pairs.push(
            (
                String::from_str("CLUSTERED_FORWARD_DEBUG_CLUSTER_COHERENCY"),
                String::from_str("debug_cluster_coherency"),
            ),
        );
        proof {
            assert(debug_pairs.deep_view() =~= seq![
                ("CLUSTERED_FORWARD_DEBUG_Z_SLICES"@, "debug_z_slices"@),
                (
                    "CLUSTERED_FORWARD_DEBUG_CLUSTER_LIGHT_COMPLEXITY"@,
                    "debug_cluster_light_complexity"@,
                ),
                ("CLUSTERED_FORWARD_DEBUG_CLUSTER_COHERENCY"@, "debug_cluster_coherency"@),
            ]);
        }
        r.push((debug_pairs, String::from_str("none")));

        r.push(single_pair_param("DIRECTIONAL_LIGHT_SHADOW_MAP_DEBUG_CASCADES", "some", "none"));
        proof {
            assert(r.deep_view() =~= Self::spec_parameters());
        }
        r
    }

    fn constants() -> (r: EntryPointConstants) {
        let mut r: EntryPointConstants = Vec::new();
        r.push(String::from_str("MAX_DIRECTIONAL_LIGHTS"));
        r.push(String::from_str("MAX_CASCADES_PER_LIGHT"));
        proof {
            assert(r.deep_view() =~= Self::spec_constants());
        }
        r
    }

    fn types() -> (r: EntryPointTypes) {
        let r: EntryPointTypes = Vec::new();
        proof {
            assert(r.deep_view() =~= Self::spec_types());
        }
        r
    }

    fn permutation(shader_defs: &Vec<ShaderDefVal>) -> (r: Vec<String>) {
        let params = Self::parameters();
        let mut toks = permutation_tokens(&params, shader_defs);
        proof {
            assert(params.deep_view() == pbr_fragment_parameters());
            assert(pbr_fragment_parameters().len() == 13);
            assert(toks.deep_view().len() == 13);
            assert(toks@.len() == toks.deep_view().len());
        }
        assert(toks.len() == 13);
        match find_uint(shader_defs, &String::from_str("AVAILABLE_STORAGE_BUFFER_BINDINGS")) {
            Some(v) => {
                if v >= 3 {
                    toks.insert(1, String::from_str("storage"));
                } else {
                    toks.insert(1, String::from_str("uniform"));
                }
                proof {
                    broadcast use crate::seqs::lemma_vec_deep_view, crate::seqs::lemma_deep_of_insert;

                    assert(toks.deep_view() =~= Self::spec_permutation(shader_defs.deep_view()));
                }
            },
            None => {},
        }
        toks
    }

    fn filter_constants(shader_defs: &Vec<ShaderDefVal>) -> (r: Vec<ShaderDefVal>) {
        let consts = Self::constants();
        filter_constant_defs(shader_defs, &consts)
    }

    fn build(shader_defs: &Vec<ShaderDefVal>) -> (r: String) {
        let name = Self::name();
        let perm = Self::permutation(shader_defs);
        let consts = Self::constants();
        let types = Self::types();
        assemble_symbol(&name, &perm, &consts, &types, shader_defs)
    }
}

} // verus!
