//! Delivery of an IMP to a target format: the presets a target names, which
//! package files carry essence, and the transcoder arguments a delivery runs.
use vstd::prelude::*;
use crate::text::{chars_of, decimal, decimal_chars, eq_str, push_all, push_str, string_of, string_views};

verus! {

/// A picture size in pixels.
#[derive(Debug, Clone, Copy, PartialEq, Eq, Structural)]
pub struct Resolution {
    pub width: u32,
    pub height: u32,
}

/// A delivery profile: codecs, container and picture a delivered file has.
/// `frame_rate` is `None` where the source rate is kept.
#[derive(Debug, Clone)]
pub struct DeliverySpec {
    pub platform: String,
    pub video_codec: String,
    pub audio_codec: String,
    pub container: String,
    pub resolution: Resolution,
    pub frame_rate: Option<(u32, u32)>,
    pub bitrate: String,
    pub hdr: bool,
    pub dolby_vision: bool,
}

/// The cinema container a target-convert preset names.
pub open spec fn target_raster(t: Seq<char>) -> Option<Resolution> {
    if t == "2k-scope"@ {
        Some(Resolution { width: 2048u32, height: 858u32 })
    } else if t == "2k-flat"@ {
        Some(Resolution { width: 1998u32, height: 1080u32 })
    } else if t == "2k-full"@ {
        Some(Resolution { width: 2048u32, height: 1080u32 })
    } else if t == "4k-scope"@ {
        Some(Resolution { width: 4096u32, height: 1716u32 })
    } else if t == "4k-flat"@ {
        Some(Resolution { width: 3996u32, height: 2160u32 })
    } else if t == "4k-full"@ {
        Some(Resolution { width: 4096u32, height: 2160u32 })
    } else {
        None
    }
}

/// Resolve a target-convert preset to a delivery spec: a ProRes `.mov`
/// master at the preset's container that keeps the source rate. An unknown
/// target is an error rather than a fallback.
pub fn spec_for_target(target: &str) -> (r: Result<DeliverySpec, String>)
    ensures
        match target_raster(target@) {
            Some(res) => r matches Ok(s) && s.platform@ == target@ && s.video_codec@ == "prores"@
                && s.audio_codec@ == "pcm_s24le"@ && s.container@ == "mov"@ && s.resolution == res
                && s.frame_rate is None && s.bitrate@.len() == 0 && !s.hdr && !s.dolby_vision,
            None => r matches Err(e) && e@ == "unknown target '"@ + target@
                + "' (supported: 2k-scope, 2k-flat, 2k-full, 4k-scope, 4k-flat, 4k-full)"@,
        },
{
    let t = chars_of(target);
    let resolution: Resolution = if eq_str(&t, "2k-scope") {
        Resolution { width: 2048, height: 858 }
    } else if eq_str(&t, "2k-flat") {
        Resolution { width: 1998, height: 1080 }
    } else if eq_str(&t, "2k-full") {
        Resolution { width: 2048, height: 1080 }
    } else if eq_str(&t, "4k-scope") {
        Resolution { width: 4096, height: 1716 }
    } else if eq_str(&t, "4k-flat") {
        Resolution { width: 3996, height: 2160 }
    } else if eq_str(&t, "4k-full") {
        Resolution { width: 4096, height: 2160 }
    } else {
        let mut m = chars_of("unknown target '");
        push_str(&mut m, target);
        push_str(
            &mut m,
            "' (supported: 2k-scope, 2k-flat, 2k-full, 4k-scope, 4k-flat, 4k-full)",
        );
        return Err(string_of(&m));
    };
    let bitrate = string_of(&Vec::new());
    proof {
        assert(bitrate@ =~= Seq::<char>::empty());
    }
    Ok(
        DeliverySpec {
            platform: string_of(&t),
            video_codec: string_of(&chars_of("prores")),
            audio_codec: string_of(&chars_of("pcm_s24le")),
            container: string_of(&chars_of("mov")),
            resolution,
            frame_rate: None,
            bitrate,
            hdr: false,
            dolby_vision: false,
        },
    )
}

/// Is a package file with extension `extension` an MXF essence file?
pub fn is_essence_file(extension: Option<&str>) -> (r: bool)
    ensures
        r == match extension {
            Some(e) => e@ == "mxf"@ || e@ == "MXF"@,
            None => false,
        },
{
    match extension {
        Some(e) => {
            let c = chars_of(e);
            eq_str(&c, "mxf") || eq_str(&c, "MXF")
        },
        None => false,
    }
}

/// The name of the delivered file.
pub fn delivery_file_name(spec: &DeliverySpec) -> (r: String)
    ensures
        r@ == "delivery."@ + spec.container@,
{
    let mut m = chars_of("delivery.");
    push_str(&mut m, spec.container.as_str());
    string_of(&m)
}

/// The name of the delivered file once Dolby Vision metadata is injected.
pub fn dolby_vision_file_name(spec: &DeliverySpec) -> (r: String)
    ensures
        r@ == "delivery_dv."@ + spec.container@,
{
    let mut m = chars_of("delivery_dv.");
    push_str(&mut m, spec.container.as_str());
    string_of(&m)
}

/// One `-i` per input.
pub open spec fn input_args(inputs: Seq<Seq<char>>) -> Seq<Seq<char>>
    decreases inputs.len(),
{
    if inputs.len() == 0 {
        Seq::empty()
    } else {
        input_args(inputs.drop_last()) + seq!["-i"@, inputs.last()]
    }
}

/// `-b:v` and the bitrate, where one is set.
pub open spec fn bitrate_args(bitrate: Seq<char>) -> Seq<Seq<char>> {
    if bitrate.len() == 0 {
        Seq::empty()
    } else {
        seq!["-b:v"@, bitrate]
    }
}

/// The picture encoder arguments a video codec asks for.
pub open spec fn video_args(codec: Seq<char>, bitrate: Seq<char>) -> Seq<Seq<char>> {
    if codec == "h264"@ || codec == "libx264"@ {
        seq!["-c:v"@, "libx264"@] + bitrate_args(bitrate)
    } else if codec == "h265"@ || codec == "hevc"@ || codec == "libx265"@ {
        seq!["-c:v"@, "libx265"@] + bitrate_args(bitrate)
    } else if codec == "prores"@ {
        seq!["-c:v"@, "prores_ks"@, "-profile:v"@, "4444"@]
    } else {
        seq!["-c:v"@, codec]
    }
}

/// The sound encoder arguments an audio codec asks for.
pub open spec fn audio_args(codec: Seq<char>) -> Seq<Seq<char>> {
    if codec == "aac"@ {
        seq!["-c:a"@, "aac"@, "-b:a"@, "256k"@]
    } else if codec == "pcm"@ || codec == "pcm_s24le"@ {
        seq!["-c:a"@, "pcm_s24le"@]
    } else if codec == "eac3"@ {
        seq!["-c:a"@, "eac3"@]
    } else {
        seq!["-c:a"@, codec]
    }
}

/// `-s WxH` where both sides are set.
pub open spec fn size_args(res: Resolution) -> Seq<Seq<char>> {
    if res.width > 0 && res.height > 0 {
        seq!["-s"@, decimal(res.width as nat) + "x"@ + decimal(res.height as nat)]
    } else {
        Seq::empty()
    }
}

/// A frame rate as the transcoder reads it: a whole rate as its number, any
/// other as its fraction.
pub open spec fn rate_text(num: u32, den: u32) -> Seq<char> {
    if den == 1 {
        decimal(num as nat)
    } else {
        decimal(num as nat) + "/"@ + decimal(den as nat)
    }
}

/// `-r` and the rate, where one is set.
pub open spec fn rate_args(rate: Option<(u32, u32)>) -> Seq<Seq<char>> {
    match rate {
        Some((n, d)) => if n > 0 && d > 0 {
            seq!["-r"@, rate_text(n, d)]
        } else {
            Seq::empty()
        },
        None => Seq::empty(),
    }
}

/// The BT.2020 PQ colour tags of an HDR delivery.
pub open spec fn hdr_args(hdr: bool) -> Seq<Seq<char>> {
    if hdr {
        seq![
            "-colorspace"@,
            "bt2020nc"@,
            "-color_primaries"@,
            "bt2020"@,
            "-color_trc"@,
            "smpte2084"@,
        ]
    } else {
        Seq::empty()
    }
}

/// The transcoder arguments that deliver `inputs` to `output` by `spec`.
pub open spec fn transcode_args_spec(spec: DeliverySpec, inputs: Seq<Seq<char>>, output: Seq<char>) -> Seq<
    Seq<char>,
> {
    seq!["-y"@] + input_args(inputs) + video_args(spec.video_codec@, spec.bitrate@) + audio_args(
        spec.audio_codec@,
    ) + size_args(spec.resolution) + rate_args(spec.frame_rate) + hdr_args(spec.hdr) + seq![output]
}

pub(crate) fn push_arg(args: &mut Vec<String>, a: &str)
    ensures
        string_views(final(args)@) == string_views(old(args)@).push(a@),
{
    let s = string_of(&chars_of(a));
    let ghost before = args@;
    args.push(s);
    assert(string_views(args@) =~= string_views(before).push(a@));
}

pub(crate) fn push_arg_chars(args: &mut Vec<String>, a: &[char])
    ensures
        string_views(final(args)@) == string_views(old(args)@).push(a@),
{
    let s = string_of(a);
    let ghost before = args@;
    args.push(s);
    assert(string_views(args@) =~= string_views(before).push(a@));
}

fn push_video_args(args: &mut Vec<String>, spec: &DeliverySpec)
    ensures
        string_views(final(args)@) == string_views(old(args)@) + video_args(
            spec.video_codec@,
            spec.bitrate@,
        ),
{
    let ghost a0 = string_views(old(args)@);
    let codec = chars_of(spec.video_codec.as_str());
    let with_bitrate = chars_of(spec.bitrate.as_str()).len() > 0;
    if eq_str(&codec, "h264") || eq_str(&codec, "libx264") {
        push_arg(args, "-c:v");
        push_arg(args, "libx264");
        if with_bitrate {
            push_arg(args, "-b:v");
            push_arg(args, spec.bitrate.as_str());
        }
    } else if eq_str(&codec, "h265") || eq_str(&codec, "hevc") || eq_str(&codec, "libx265") {
        push_arg(args, "-c:v");
        push_arg(args, "libx265");
        if with_bitrate {
            push_arg(args, "-b:v");
            push_arg(args, spec.bitrate.as_str());
        }
    } else if eq_str(&codec, "prores") {
        push_arg(args, "-c:v");
        push_arg(args, "prores_ks");
        push_arg(args, "-profile:v");
        push_arg(args, "4444");
    } else {
        push_arg(args, "-c:v");
        push_arg_chars(args, &codec);
    }
    assert(string_views(args@) =~= a0 + video_args(spec.video_codec@, spec.bitrate@));
}

fn push_audio_args(args: &mut Vec<String>, spec: &DeliverySpec)
    ensures
        string_views(final(args)@) == string_views(old(args)@) + audio_args(spec.audio_codec@),
{
    let ghost a0 = string_views(old(args)@);
    let codec = chars_of(spec.audio_codec.as_str());
    if eq_str(&codec, "aac") {
        push_arg(args, "-c:a");
        push_arg(args, "aac");
        push_arg(args, "-b:a");
        push_arg(args, "256k");
    } else if eq_str(&codec, "pcm") || eq_str(&codec, "pcm_s24le") {
        push_arg(args, "-c:a");
        push_arg(args, "pcm_s24le");
    } else if eq_str(&codec, "eac3") {
        push_arg(args, "-c:a");
        push_arg(args, "eac3");
    } else {
        push_arg(args, "-c:a");
        push_arg_chars(args, &codec);
    }
    assert(string_views(args@) =~= a0 + audio_args(spec.audio_codec@));
}

fn push_picture_args(args: &mut Vec<String>, spec: &DeliverySpec)
    ensures
        string_views(final(args)@) == string_views(old(args)@) + size_args(spec.resolution)
            + rate_args(spec.frame_rate) + hdr_args(spec.hdr),
{
    let ghost a0 = string_views(old(args)@);
    let w = spec.resolution.width;
    let h = spec.resolution.height;
    if w > 0 && h > 0 {
        push_arg(args, "-s");
        let mut s = decimal_chars(w as u64);
        push_str(&mut s, "x");
        push_all(&mut s, &decimal_chars(h as u64));
        push_arg_chars(args, &s);
    }
    let ghost a1 = string_views(args@);
    assert(a1 =~= a0 + size_args(spec.resolution));
    match spec.frame_rate {
        Some((n, d)) => {
            if n > 0 && d > 0 {
                push_arg(args, "-r");
                let mut s = decimal_chars(n as u64);
                if d != 1 {
                    push_str(&mut s, "/");
                    push_all(&mut s, &decimal_chars(d as u64));
                }
                push_arg_chars(args, &s);
            }
        },
        None => {},
    }
    let ghost a2 = string_views(args@);
    assert(a2 =~= a1 + rate_args(spec.frame_rate));
    if spec.hdr {
        push_arg(args, "-colorspace");
        push_arg(args, "bt2020nc");
        push_arg(args, "-color_primaries");
        push_arg(args, "bt2020");
        push_arg(args, "-color_trc");
        push_arg(args, "smpte2084");
    }
    assert(string_views(args@) =~= a2 + hdr_args(spec.hdr));
}

/// The transcoder arguments that deliver the essence files `inputs` to
/// `output` by `spec`.
pub fn transcode_args(spec: &DeliverySpec, inputs: &Vec<String>, output: &str) -> (r: Vec<String>)
    ensures
        string_views(r@) == transcode_args_spec(*spec, string_views(inputs@), output@),
{
    let mut args: Vec<String> = Vec::new();
    push_arg(&mut args, "-y");
    let ghost ins = string_views(inputs@);
    let mut i: usize = 0;
    while i < inputs.len()
        invariant
            i <= inputs.len(),
            ins == string_views(inputs@),
            string_views(args@) == seq!["-y"@] + input_args(ins.take(i as int)),
        decreases inputs.len() - i,
    {
        push_arg(&mut args, "-i");
        push_arg(&mut args, inputs[i].as_str());
        proof {
            assert(ins.take(i + 1).drop_last() =~= ins.take(i as int));
            assert(ins.take(i + 1).last() == inputs@[i as int]@);
        }
        i += 1;
    }
    assert(ins.take(inputs.len() as int) =~= ins);
    push_video_args(&mut args, spec);
    push_audio_args(&mut args, spec);
    push_picture_args(&mut args, spec);
    push_arg(&mut args, output);
    args
}

} // verus!
