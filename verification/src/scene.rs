//! Scene-side identifiers and descriptors the renderer is keyed by.
//!
//! Shaders and textures themselves live with external collaborators; the
//! pipeline only ever handles their names and source descriptors.

use vstd::prelude::*;

verus! {

/// Name of a parametric-surface shader as the scene refers to it.
#[derive(Debug, Clone, Hash, PartialEq, Eq)]
pub struct ShaderId(pub String);

/// A shader's display label and its source code.
#[derive(Clone)]
pub struct ShaderInfo {
    pub label: String,
    pub code: String,
}

/// Name of a texture as the scene refers to it.
#[derive(Debug, Clone, Hash, PartialEq, Eq)]
pub struct TextureId(pub String);

/// Whether frame profiling is requested for the graphics device.
#[derive(Clone, Copy, PartialEq, Eq, Structural, Debug)]
pub struct ProfilerSettings {
    pub gpu: bool,
}

impl Default for ProfilerSettings {
    /// Profiling starts disabled.
    fn default() -> (r: ProfilerSettings)
        ensures
            r.gpu == false,
    {
        ProfilerSettings { gpu: false }
    }
}

} // verus!
