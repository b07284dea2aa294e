//! IMF (SMPTE ST 2067) packaging logic: parsing of the CLI/GUI selectors,
//! the CPL/ASSETMAP readers, the subtitle decoders and the checks that decide
//! what a package may carry.
use vstd::prelude::*;

pub mod text;
pub mod assetmap;
pub mod adm;
pub mod atmos;
pub mod audio_map;
pub mod conform;
pub mod cpl;
pub mod delivery;
pub mod duration_spec;
pub mod export_frames;
pub mod hdr;
pub mod hdr_wcg;
pub mod hdr_source;
pub mod imp;
pub mod imp_diff;
pub mod info;
pub mod mca;
pub mod mxf_wrap;
pub mod overlapped_picture;
pub mod partial_version;
pub mod rest_api;
pub mod scc;
pub mod photon;
pub mod pkl;
pub mod preflight;
pub mod profiles;
pub mod prores;
pub mod report;
pub mod source_colourspace;
pub mod source_edits;
pub mod source_picture;
pub mod still;
pub mod subtitle_convert;
pub mod subtitle_preview;
pub mod styled_ttml;
pub mod supplement;
pub mod timeline;
pub mod to_dcp;
pub mod tools;
pub mod validate;
pub mod watch;
pub mod xsd_validate;
pub mod trailer;



verus! {

/// Essence type for MXF wrapping.
#[derive(Debug, Clone, Copy, PartialEq, Eq, Default, Structural)]
pub enum EssenceType {
    #[default]
    J2k,
    Wav,
    TimedText,
    Atmos,
}

/// Image format.
#[derive(Debug, Clone, Copy, PartialEq, Eq, Structural)]
pub enum ImageFormat {
    Dpx,
    Tiff,
    Exr,
    Png,
    Jpeg,
    Bmp,
    J2k,
}

/// Color space.
#[derive(Debug, Clone, Copy, PartialEq, Eq, Structural)]
pub enum ColorSpace {
    Bt709,
    Bt2020,
    P3D65,
    P3Dci,
    Aces,
}

/// Transfer function.
#[derive(Debug, Clone, Copy, PartialEq, Eq, Structural)]
pub enum TransferFunction {
    SdrBt1886,
    Pq,
    Hlg,
    Linear,
}

/// MXF track file result. The path is the file's path as text.
#[derive(Debug, Clone, Default)]
pub struct MxfTrackFile {
    pub path: String,
    pub uuid: String,
    pub hash: String,
    pub size: u64,
    pub duration: u64,
}

} // verus!
