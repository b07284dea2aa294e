//! Whether a composition's picture MXF can be written while its encode runs,
//! instead of reading the whole J2K directory back once the encode is over.
use vstd::prelude::*;

verus! {

/// What a picture source was classified as.
#[derive(Debug, Clone, Copy, PartialEq, Eq, Structural)]
pub enum InputType {
    Video,
    ImageSequence,
    J2kSequence,
    Unknown,
}

/// What decides whether a composition's picture can be wrapped as it encodes;
/// every field is known before the encode starts.
#[derive(Debug, Clone, Copy, PartialEq, Eq, Structural)]
pub struct PictureJob {
    /// What the picture source was classified as.
    pub input_type: InputType,
    /// The source is one image held for a run of frames.
    pub still_hold: bool,
}

/// The refusal of a held still.
pub open spec fn still_refusal() -> Seq<char> {
    "a held still is encoded once and its codestream linked for the rest of the hold, so nothing feeds the wrap frame by frame"@
}

/// The refusal of any source but a video.
pub open spec fn not_video_refusal() -> Seq<char> {
    "only a video source is decoded frame by frame: a J2K sequence is never encoded, and an image sequence can go straight to grk_compress"@
}

/// Why this picture cannot be wrapped as it encodes, or `None` when it can.
///
/// The wrap takes one codestream at a time as the encoder finishes it, so the
/// overlap holds only where every frame the encoder produces is a frame the
/// composition ships: a video source that is not a held still.
pub fn overlap_refusal(job: &PictureJob) -> (r: Option<&'static str>)
    ensures
        job.still_hold ==> (r matches Some(m) && m@ == still_refusal()),
        !job.still_hold && job.input_type != InputType::Video ==> (r matches Some(m) && m@
            == not_video_refusal()),
        !job.still_hold && job.input_type == InputType::Video ==> r is None,
{
    if job.still_hold {
        let m = "a held still is encoded once and its codestream linked for the rest of the hold, so nothing feeds the wrap frame by frame";
        proof {
            assert(m@ == still_refusal());
        }
        return Some(m);
    }
    if job.input_type != InputType::Video {
        let m = "only a video source is decoded frame by frame: a J2K sequence is never encoded, and an image sequence can go straight to grk_compress";
        proof {
            assert(m@ == not_video_refusal());
        }
        return Some(m);
    }
    None
}

} // verus!
