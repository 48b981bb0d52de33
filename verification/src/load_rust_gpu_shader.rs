//! Loading a compiled shader together with its companion metadata.

use vstd::prelude::*;

use crate::asset::HandleId;

verus! {

/// A loaded shader reference.
#[derive(Debug, Clone, Copy, PartialEq, Eq, Hash, Structural)]
pub struct RustGpuShader(pub HandleId);

/// The path of a shader's companion metadata file: the shader's own path
/// with `.json` appended.
pub fn meta_path(path: &String) -> (r: String)
    ensures
        r@ == path@ + ".json"@,
{
    let mut r = path.clone();
    r.append(".json");
    r
}

/// A loader of shader assets: loads the binary at `path` and, where
/// metadata validation is wired in, the companion metadata file beside it,
/// recording the pair in the shader-to-metadata binding.
pub trait LoadRustGpuShader {
    fn load_rust_gpu_shader(&mut self, path: &String) -> RustGpuShader;
}

} // verus!
