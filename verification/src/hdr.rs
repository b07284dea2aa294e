//! HDR metadata records.
use vstd::prelude::*;

verus! {

/// HDR metadata.
#[derive(Debug, Clone, Default)]
pub struct HdrMetadata {
    pub max_cll: u32,
    pub max_fall: u32,
    pub mastering_display: String,
    pub color_primaries: String,
    pub transfer_characteristics: String,
}

/// HDR10+ metadata: the JSON file hdr10plus_tool wrote (its path) and the
/// number of scenes it lists.
#[derive(Debug, Clone, Default)]
pub struct Hdr10PlusMetadata {
    pub json_path: String,
    pub scene_count: usize,
}

} // verus!
