//! IMP to DCP conversion: the decisions around rewrapping DCI-compatible
//! essence or transcoding Rec.709 IMF picture into it.
//!
//! A DCP carries one picture and at most one sound track here, at an edit
//! rate of the DCI set (with the HFR addendum's rates), with 12-bit,
//! 3-component cinema-profile codestreams no larger than the 4K container.
//! Anything else is refused with a message naming what is unsupported.
//! Unwrapping, transcoding, hashing and writing the DCP are the caller's.
use vstd::prelude::*;
use crate::text::{chars_of, decimal, decimal_chars, padded_decimal, push_all, push_str, string_of, zero_pad};

verus! {

/// Result of IMP to DCP conversion. The output directory is a path.
pub struct ToDcpResult {
    pub success: bool,
    pub error: String,
    pub output_dir: String,
    pub picture_report: String,
}

/// The edit rates a DCP carries: the DCI set plus the HFR addendum's rates.
pub open spec fn dcp_edit_rates() -> Seq<u32> {
    seq![24, 25, 30, 48, 50, 60, 96, 100, 120]
}

pub open spec fn edit_rate_refusal(fps_num: u32, fps_den: u32) -> Seq<char> {
    "the picture edit rate is "@ + decimal(fps_num as nat) + "/"@ + decimal(fps_den as nat)
        + ", and a DCP carries one of 24, 25, 30, 48, 50, 60, 96, 100, 120; retime the composition before converting it"@
}

/// The DCP edit rate of a picture at `fps_num / fps_den`: a whole rate of the
/// DCP set, or refused.
pub fn check_dcp_edit_rate(fps_num: u32, fps_den: u32) -> (r: Result<u32, String>)
    ensures
        fps_den == 1 && dcp_edit_rates().contains(fps_num) ==> r == Ok::<u32, String>(fps_num),
        !(fps_den == 1 && dcp_edit_rates().contains(fps_num)) ==> (r matches Err(e) && e@
            == edit_rate_refusal(fps_num, fps_den)),
{
    let rates: [u32; 9] = [24, 25, 30, 48, 50, 60, 96, 100, 120];
    let ghost want = dcp_edit_rates();
    assert(rates@ =~= want);
    let mut i: usize = 0;
    while i < 9
        invariant
            i <= 9,
            rates@ == want,
            want == dcp_edit_rates(),
            forall|k: int| 0 <= k < i ==> rates@[k] != fps_num || fps_den != 1,
        decreases 9 - i,
    {
        if fps_den == 1 && rates[i] == fps_num {
            assert(want[i as int] == fps_num);
            assert(want.contains(fps_num));
            return Ok(fps_num);
        }
        i += 1;
    }
    let mut m = chars_of("the picture edit rate is ");
    push_all(&mut m, &decimal_chars(fps_num as u64));
    push_str(&mut m, "/");
    push_all(&mut m, &decimal_chars(fps_den as u64));
    push_str(
        &mut m,
        ", and a DCP carries one of 24, 25, 30, 48, 50, 60, 96, 100, 120; retime the composition before converting it",
    );
    Err(string_of(&m))
}

pub open spec fn reel_refusal(pictures: nat, sounds: nat) -> Seq<char> {
    "to-dcp implements a single-reel IMP (one picture, optional one sound); found "@ + decimal(
        pictures,
    ) + " picture and "@ + decimal(sounds)
        + " sound track(s); multi-reel conversion is not implemented"@
}

/// A DCP is built from exactly one picture track and at most one sound track.
pub fn check_single_reel(pictures: usize, sounds: usize) -> (r: Result<(), String>)
    ensures
        pictures == 1 && sounds <= 1 ==> r is Ok,
        !(pictures == 1 && sounds <= 1) ==> (r matches Err(e) && e@ == reel_refusal(
            pictures as nat,
            sounds as nat,
        )),
{
    if pictures == 1 && sounds <= 1 {
        return Ok(());
    }
    let mut m = chars_of("to-dcp implements a single-reel IMP (one picture, optional one sound); found ");
    push_all(&mut m, &decimal_chars(pictures as u64));
    push_str(&mut m, " picture and ");
    push_all(&mut m, &decimal_chars(sounds as u64));
    push_str(&mut m, " sound track(s); multi-reel conversion is not implemented");
    Err(string_of(&m))
}

pub open spec fn container_refusal(width: u32, height: u32) -> Seq<char> {
    "picture is "@ + decimal(width as nat) + "x"@ + decimal(height as nat)
        + ", larger than the DCP 4K container (4096x2160); transcode required"@
}

/// Rewrapped picture has to fit the DCP 4K container.
pub fn check_picture_container(width: u32, height: u32) -> (r: Result<(), String>)
    ensures
        width <= 4096 && height <= 2160 ==> r is Ok,
        !(width <= 4096 && height <= 2160) ==> (r matches Err(e) && e@ == container_refusal(
            width,
            height,
        )),
{
    if width <= 4096 && height <= 2160 {
        return Ok(());
    }
    let mut m = chars_of("picture is ");
    push_all(&mut m, &decimal_chars(width as u64));
    push_str(&mut m, "x");
    push_all(&mut m, &decimal_chars(height as u64));
    push_str(&mut m, ", larger than the DCP 4K container (4096x2160); transcode required");
    Err(string_of(&m))
}

pub open spec fn profile_refusal(profile: Seq<char>) -> Seq<char> {
    "J2K is a "@ + profile + " profile, not a DCI 2K/4K cinema profile; transcode required"@
}

pub open spec fn depth_refusal(bit_depth: u8) -> Seq<char> {
    "J2K is "@ + decimal(bit_depth as nat)
        + "-bit; a DCP requires 12-bit picture essence; transcode required"@
}

pub open spec fn components_refusal(components: u16) -> Seq<char> {
    "J2K has "@ + decimal(components as nat) + " components; a DCP requires 3; transcode required"@
}

/// A codestream a DCP can carry as it is: a DCI 2K/4K cinema profile (`cinema`;
/// `profile` names the profile it has), 12 bits, 3 components; the first
/// failing check is the refusal.
pub fn check_j2k_dci(cinema: bool, profile: &str, bit_depth: u8, components: u16) -> (r: Result<
    (),
    String,
>)
    ensures
        !cinema ==> (r matches Err(e) && e@ == profile_refusal(profile@)),
        cinema && bit_depth != 12 ==> (r matches Err(e) && e@ == depth_refusal(bit_depth)),
        cinema && bit_depth == 12 && components != 3 ==> (r matches Err(e) && e@
            == components_refusal(components)),
        cinema && bit_depth == 12 && components == 3 ==> r is Ok,
{
    if !cinema {
        let mut m = chars_of("J2K is a ");
        push_str(&mut m, profile);
        push_str(&mut m, " profile, not a DCI 2K/4K cinema profile; transcode required");
        return Err(string_of(&m));
    }
    if bit_depth != 12 {
        let mut m = chars_of("J2K is ");
        push_all(&mut m, &decimal_chars(bit_depth as u64));
        push_str(&mut m, "-bit; a DCP requires 12-bit picture essence; transcode required");
        return Err(string_of(&m));
    }
    if components != 3 {
        let mut m = chars_of("J2K has ");
        push_all(&mut m, &decimal_chars(components as u64));
        push_str(&mut m, " components; a DCP requires 3; transcode required");
        return Err(string_of(&m));
    }
    Ok(())
}

/// The file name of the `index`-th codestream, `frame_{index:08}.j2c`.
pub open spec fn cinema_frame_name_spec(index: nat) -> Seq<char> {
    "frame_"@ + zero_pad(decimal(index), 8) + ".j2c"@
}

pub fn cinema_frame_name(index: u32) -> (r: String)
    ensures
        r@ == cinema_frame_name_spec(index as nat),
{
    let mut m = chars_of("frame_");
    push_all(&mut m, &padded_decimal(index as u64, 8));
    push_str(&mut m, ".j2c");
    string_of(&m)
}

/// The codestream file names of `frame_count` frames, in frame order.
pub fn cinema_frame_names(frame_count: u32) -> (r: Vec<String>)
    ensures
        r@.len() == frame_count,
        forall|k: int| 0 <= k < frame_count ==> (#[trigger] r@[k])@ == cinema_frame_name_spec(k as nat),
{
    let mut r: Vec<String> = Vec::new();
    let mut i: u32 = 0;
    while i < frame_count
        invariant
            i <= frame_count,
            r@.len() == i,
            forall|k: int| 0 <= k < i ==> (#[trigger] r@[k])@ == cinema_frame_name_spec(k as nat),
        decreases frame_count - i,
    {
        r.push(cinema_frame_name(i));
        i += 1;
    }
    r
}

pub open spec fn missing_codestream_spec(index: nat, path: Seq<char>) -> Seq<char> {
    "the transcode wrote no codestream for frame "@ + decimal(index) + " at "@ + path
}

/// The refusal where the transcode left no codestream for a frame.
pub fn missing_codestream(index: u32, path: &str) -> (r: String)
    ensures
        r@ == missing_codestream_spec(index as nat, path@),
{
    let mut m = chars_of("the transcode wrote no codestream for frame ");
    push_all(&mut m, &decimal_chars(index as u64));
    push_str(&mut m, " at ");
    push_str(&mut m, path);
    string_of(&m)
}

/// The DCP's title: the one asked for, else the IMP's own title where it has
/// one, else a fixed name.
pub open spec fn dcp_title_spec(asked: Option<Seq<char>>, imp_title: Option<Seq<char>>) -> Seq<char> {
    match asked {
        Some(t) => t,
        None => match imp_title {
            Some(t) if t.len() > 0 => t,
            _ => "IMF Wizard DCP"@,
        },
    }
}

pub fn dcp_title(asked: Option<String>, imp_title: Option<String>) -> (r: String)
    ensures
        r@ == dcp_title_spec(
            match asked {
                Some(t) => Some(t@),
                None => None,
            },
            match imp_title {
                Some(t) => Some(t@),
                None => None,
            },
        ),
{
    match asked {
        Some(t) => t,
        None => match imp_title {
            Some(t) => {
                if t.as_str().is_empty() {
                    string_of(&chars_of("IMF Wizard DCP"))
                } else {
                    t
                }
            },
            None => string_of(&chars_of("IMF Wizard DCP")),
        },
    }
}

/// The content kind written into the DCP, `feature` where none is given.
pub fn dcp_content_kind(kind: &str) -> (r: String)
    ensures
        kind@.len() == 0 ==> r@ == "feature"@,
        kind@.len() > 0 ==> r@ == kind@,
{
    if kind.is_empty() {
        string_of(&chars_of("feature"))
    } else {
        string_of(&chars_of(kind))
    }
}

} // verus!
