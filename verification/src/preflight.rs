//! The refusals a `create` job makes before the encode starts.
use vstd::prelude::*;
use crate::text::{chars_of, push_str, string_of};

verus! {

/// The refusal of a picture the encoder cannot read, naming it.
pub open spec fn unclassified_refusal(picture: Seq<char>) -> Seq<char> {
    picture
        + " is not a picture the encoder can read: it takes a video container (mp4, mov, mkv, avi, mxf, ts, m2ts, webm), a directory of images (tif, tiff, dpx, exr, bmp), a directory of J2K codestreams (j2c, j2k), or a single still image held for a length"@
}

/// What a picture has to be for the encode to read it. A held still is not in
/// this set: it is decoded on its own, so the check skips one. `picture` is
/// the path as it is shown.
pub fn unclassified_picture_refusal(picture: &str) -> (r: String)
    ensures
        r@ == unclassified_refusal(picture@),
{
    let mut m = chars_of(picture);
    push_str(
        &mut m,
        " is not a picture the encoder can read: it takes a video container (mp4, mov, mkv, avi, mxf, ts, m2ts, webm), a directory of images (tif, tiff, dpx, exr, bmp), a directory of J2K codestreams (j2c, j2k), or a single still image held for a length",
    );
    string_of(&m)
}

} // verus!
