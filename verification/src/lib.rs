//! Entry-point permutation resolution for hot-reloaded GPU shader modules.
//!
//! A material declares, per shader stage, a set of capability parameters; at
//! draw time the host supplies the active capability flags, and this library
//! deterministically derives the fully-qualified entry-point symbol, checks it
//! against the currently loaded binary artifact, and either binds the stage or
//! falls back to the host's default shader.  It also tracks per-material
//! reload iterations and accumulates the set of permutations actually
//! requested, for feeding back into an off-process shader compiler.

pub mod asset;
pub mod seqs;
pub mod shader_def;
pub mod symbol;
pub mod entry_point;
pub mod bevy_pbr_rust;
pub mod handle_map;
pub mod builder_output;
pub mod entry_point_export;
pub mod rust_gpu_material;
pub mod rust_gpu;
pub mod shader_meta;
pub mod systems;
pub mod load_rust_gpu_shader;
pub mod plugin;
pub mod laws;
