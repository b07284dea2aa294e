//! ProRes export of an IMP: which CPL, which track files, and the ffmpeg
//! filter graph that cuts each segment out of its track files and joins them.
//!
//! Running ffmpeg, and spelling the sound cuts in seconds (a floating-point
//! figure), are the caller's.
use vstd::prelude::*;
use crate::text::{
    ascii_lower, chars_of, decimal, decimal_chars, decimal_chars_wide, eq, parse_u32,
    parse_unsigned, push_all, push_str, string_of, string_views, to_ascii_lower, to_lowercase,
    unicode_lower, words, words_chars,
};
use crate::delivery::push_arg;
use crate::timeline::{CplInfo, SegmentEntry};

verus! {

/// A container a ProRes export can be fitted into.
#[derive(Debug, Clone, Copy, PartialEq, Eq, Structural)]
pub struct ContainerRaster {
    pub width: u32,
    pub height: u32,
}

/// The container a lower-cased name spells.
pub open spec fn container_named(lower: Seq<char>) -> Option<ContainerRaster> {
    if lower == "2k-scope"@ {
        Some(ContainerRaster { width: 2048, height: 858 })
    } else if lower == "2k-flat"@ {
        Some(ContainerRaster { width: 1998, height: 1080 })
    } else if lower == "2k-full"@ {
        Some(ContainerRaster { width: 2048, height: 1080 })
    } else if lower == "4k-scope"@ {
        Some(ContainerRaster { width: 4096, height: 1716 })
    } else if lower == "4k-flat"@ {
        Some(ContainerRaster { width: 3996, height: 2160 })
    } else if lower == "4k-full"@ {
        Some(ContainerRaster { width: 4096, height: 2160 })
    } else {
        None
    }
}

impl ContainerRaster {
    /// The container `name` spells, in any case.
    pub fn parse(name: &str) -> (r: Option<Self>)
        ensures
            r == container_named(unicode_lower(name@)),
    {
        let wanted = chars_of(to_lowercase(name).as_str());
        if eq(&wanted, &chars_of("2k-scope")) {
            Some(ContainerRaster { width: 2048, height: 858 })
        } else if eq(&wanted, &chars_of("2k-flat")) {
            Some(ContainerRaster { width: 1998, height: 1080 })
        } else if eq(&wanted, &chars_of("2k-full")) {
            Some(ContainerRaster { width: 2048, height: 1080 })
        } else if eq(&wanted, &chars_of("4k-scope")) {
            Some(ContainerRaster { width: 4096, height: 1716 })
        } else if eq(&wanted, &chars_of("4k-flat")) {
            Some(ContainerRaster { width: 3996, height: 2160 })
        } else if eq(&wanted, &chars_of("4k-full")) {
            Some(ContainerRaster { width: 4096, height: 2160 })
        } else {
            None
        }
    }

    /// Every container name, comma separated, in the order they are offered.
    pub fn names() -> (r: String)
        ensures
            r@ == "2k-scope, 2k-flat, 2k-full, 4k-scope, 4k-flat, 4k-full"@,
    {
        string_of(&chars_of("2k-scope, 2k-flat, 2k-full, 4k-scope, 4k-flat, 4k-full"))
    }
}

/// A CPL edit rate, a space separated pair such as "24 1": its first two
/// words as `u32`, neither zero.
pub open spec fn edit_rate_pair_spec(edit_rate: Seq<char>) -> Option<(u32, u32)> {
    let w = words(edit_rate);
    if w.len() < 2 {
        None
    } else {
        match (parse_unsigned(w[0], u32::MAX as nat), parse_unsigned(w[1], u32::MAX as nat)) {
            (Some(n), Some(d)) => if n != 0 && d != 0 {
                Some((n as u32, d as u32))
            } else {
                None
            },
            _ => None,
        }
    }
}

pub fn edit_rate_pair(edit_rate: &str) -> (r: Option<(u32, u32)>)
    ensures
        r == edit_rate_pair_spec(edit_rate@),
{
    let w = words_chars(&chars_of(edit_rate));
    if w.len() < 2 {
        return None;
    }
    let n = match parse_u32(&w[0]) {
        Some(v) => v,
        None => return None,
    };
    let d = match parse_u32(&w[1]) {
        Some(v) => v,
        None => return None,
    };
    if n != 0 && d != 0 {
        Some((n, d))
    } else {
        None
    }
}

/// An edit rate as ffmpeg's `-r` takes it, `num/den`.
pub open spec fn frame_rate_spec(edit_rate: Seq<char>) -> Option<Seq<char>> {
    match edit_rate_pair_spec(edit_rate) {
        Some((n, d)) => Some(decimal(n as nat) + "/"@ + decimal(d as nat)),
        None => None,
    }
}

pub fn ffmpeg_frame_rate(edit_rate: &str) -> (r: Option<String>)
    ensures
        match frame_rate_spec(edit_rate@) {
            Some(t) => r matches Some(s) && s@ == t,
            None => r is None,
        },
{
    match edit_rate_pair(edit_rate) {
        Some((n, d)) => {
            let mut m = decimal_chars(n as u64);
            push_str(&mut m, "/");
            push_all(&mut m, &decimal_chars(d as u64));
            Some(string_of(&m))
        },
        None => None,
    }
}

/// The picture cut of a segment: it plays its duration from its entry point,
/// and one that names no duration runs to the end.
pub open spec fn frame_trim_spec(entry_point: u64, duration: u64) -> Seq<char> {
    if duration == 0 {
        "trim=start_frame="@ + decimal(entry_point as nat)
    } else {
        "trim=start_frame="@ + decimal(entry_point as nat) + ":end_frame="@ + decimal(
            (entry_point + duration) as nat,
        )
    }
}

pub fn frame_trim(segment: &SegmentEntry) -> (r: String)
    ensures
        r@ == frame_trim_spec(segment.entry_point, segment.duration_frames),
{
    let start = segment.entry_point;
    let mut m = chars_of("trim=start_frame=");
    push_all(&mut m, &decimal_chars(start));
    if segment.duration_frames != 0 {
        push_str(&mut m, ":end_frame=");
        push_all(&mut m, &decimal_chars_wide(start as u128 + segment.duration_frames as u128));
    }
    string_of(&m)
}

/// The first CPL whose id is `wanted`, ASCII case ignored.
pub open spec fn cpl_with_id(cpls: Seq<CplInfo>, wanted: Seq<char>, from: int) -> Option<int>
    decreases cpls.len() - from,
{
    if from < 0 || from >= cpls.len() {
        None
    } else if ascii_lower(cpls[from].id@) == ascii_lower(wanted) {
        Some(from)
    } else {
        cpl_with_id(cpls, wanted, from + 1)
    }
}

/// Which CPL an export plays: the one asked for by id, else the first.
pub open spec fn export_cpl_spec(cpls: Seq<CplInfo>, imp_dir: Seq<char>, wanted: Option<Seq<char>>) -> Result<
    int,
    Seq<char>,
> {
    if cpls.len() == 0 {
        Err(imp_dir + " holds no CPL"@)
    } else {
        match wanted {
            None => Ok(0),
            Some(w) => match cpl_with_id(cpls, w, 0) {
                Some(k) => Ok(k),
                None => Err(imp_dir + " holds no CPL "@ + w),
            },
        }
    }
}

pub fn export_cpl(cpls: &Vec<CplInfo>, imp_dir: &str, cpl_id: Option<&str>) -> (r: Result<usize, String>)
    ensures
        match export_cpl_spec(
            cpls@,
            imp_dir@,
            match cpl_id {
                Some(w) => Some(w@),
                None => None,
            },
        ) {
            Ok(k) => r matches Ok(i) && i == k,
            Err(m) => r matches Err(e) && e@ == m,
        },
{
    if cpls.len() == 0 {
        let mut m = chars_of(imp_dir);
        push_str(&mut m, " holds no CPL");
        return Err(string_of(&m));
    }
    match cpl_id {
        None => Ok(0),
        Some(w) => {
            let wl = to_ascii_lower(&chars_of(w));
            let mut i: usize = 0;
            while i < cpls.len()
                invariant
                    i <= cpls.len(),
                    cpls@.len() > 0,
                    cpl_id == Some(w),
                    wl@ == ascii_lower(w@),
                    cpl_with_id(cpls@, w@, 0) == cpl_with_id(cpls@, w@, i as int),
                decreases cpls.len() - i,
            {
                if eq(&to_ascii_lower(&chars_of(cpls[i].id.as_str())), &wl) {
                    assert(cpl_with_id(cpls@, w@, i as int) == Some(i as int));
                    return Ok(i);
                }
                i += 1;
            }
            let mut m = chars_of(imp_dir);
            push_str(&mut m, " holds no CPL ");
            push_str(&mut m, w);
            Err(string_of(&m))
        },
    }
}

pub open spec fn missing_ov_hint(ov_given: bool) -> Seq<char> {
    if ov_given {
        Seq::empty()
    } else {
        "; a supplemental IMP needs --ov naming the OV directory"@
    }
}

pub open spec fn all_true(v: Seq<bool>) -> bool {
    forall|k: int| 0 <= k < v.len() ==> #[trigger] v[k]
}

/// What an export of CPL `cpl_id` can cut, given which segments' picture and
/// sound track files are there: a segment without a picture track file, or no
/// segment at all, is refused; the sound is cut only where every segment has
/// it (a segment with none would leave the join short an input), and then
/// needs the edit rate. The answer is whether the sound is cut.
pub open spec fn export_tracks_spec(
    cpl_id: Seq<char>,
    segments: Seq<SegmentEntry>,
    picture_present: Seq<bool>,
    sound_present: Seq<bool>,
    ov_given: bool,
) -> Result<bool, Seq<char>> {
    if segments.len() == 0 {
        Err("CPL "@ + cpl_id + " holds no segment"@)
    } else if !all_true(picture_present) {
        Err("CPL "@ + cpl_id + " names no picture track file"@ + missing_ov_hint(ov_given))
    } else if all_true(sound_present) && edit_rate_pair_spec(segments[0].edit_rate@) is None {
        Err("CPL "@ + cpl_id + " names no edit rate, so its sound cannot be cut to its segments"@)
    } else {
        Ok(all_true(sound_present))
    }
}

fn all_set(v: &Vec<bool>) -> (r: bool)
    ensures
        r == all_true(v@),
{
    let mut i: usize = 0;
    while i < v.len()
        invariant
            i <= v.len(),
            forall|k: int| 0 <= k < i ==> #[trigger] v@[k],
        decreases v.len() - i,
    {
        if !v[i] {
            return false;
        }
        i += 1;
    }
    true
}

pub fn export_tracks(
    cpl_id: &str,
    segments: &Vec<SegmentEntry>,
    picture_present: &Vec<bool>,
    sound_present: &Vec<bool>,
    ov_given: bool,
) -> (r: Result<bool, String>)
    ensures
        match export_tracks_spec(cpl_id@, segments@, picture_present@, sound_present@, ov_given) {
            Ok(b) => r == Ok::<bool, String>(b),
            Err(m) => r matches Err(e) && e@ == m,
        },
{
    if segments.len() == 0 {
        let mut m = chars_of("CPL ");
        push_str(&mut m, cpl_id);
        push_str(&mut m, " holds no segment");
        return Err(string_of(&m));
    }
    if !all_set(picture_present) {
        let mut m = chars_of("CPL ");
        push_str(&mut m, cpl_id);
        push_str(&mut m, " names no picture track file");
        if !ov_given {
            push_str(&mut m, "; a supplemental IMP needs --ov naming the OV directory");
        }
        proof {
            if ov_given {
                assert(m@ =~= "CPL "@ + cpl_id@ + " names no picture track file"@ + missing_ov_hint(
                    ov_given,
                ));
            }
        }
        return Err(string_of(&m));
    }
    let has_sound = all_set(sound_present);
    if has_sound && edit_rate_pair(segments[0].edit_rate.as_str()).is_none() {
        let mut m = chars_of("CPL ");
        push_str(&mut m, cpl_id);
        push_str(&mut m, " names no edit rate, so its sound cannot be cut to its segments");
        return Err(string_of(&m));
    }
    Ok(has_sound)
}

/// The filters of segment `k`: its picture cut from input `k` (or `2k` where
/// each segment has a sound input too), and where sound is cut, its sound cut
/// `sound_trim` from the input after.
pub open spec fn segment_filter(k: nat, s: SegmentEntry, sound_trim: Seq<char>, sound: bool) -> Seq<char> {
    let video_input = if sound {
        2 * k
    } else {
        k
    };
    "["@ + decimal(video_input) + ":v:0]"@ + frame_trim_spec(s.entry_point, s.duration_frames)
        + ",setpts=PTS-STARTPTS[v"@ + decimal(k) + "];"@ + if sound {
        "["@ + decimal(video_input + 1) + ":a:0]"@ + sound_trim + ",asetpts=PTS-STARTPTS[a"@
            + decimal(k) + "];"@
    } else {
        Seq::empty()
    }
}

/// The filters of the first `n` segments.
pub open spec fn segment_filters(segs: Seq<SegmentEntry>, trims: Seq<Seq<char>>, sound: bool, n: nat) -> Seq<
    char,
>
    decreases n,
{
    if n == 0 {
        Seq::empty()
    } else {
        segment_filters(segs, trims, sound, (n - 1) as nat) + segment_filter(
            (n - 1) as nat,
            segs[n - 1],
            if sound {
                trims[n - 1]
            } else {
                Seq::empty()
            },
            sound,
        )
    }
}

/// The join's inputs for the first `n` segments: `[v0][a0][v1][a1]...`.
pub open spec fn concat_labels(n: nat, sound: bool) -> Seq<char>
    decreases n,
{
    if n == 0 {
        Seq::empty()
    } else {
        concat_labels((n - 1) as nat, sound) + "[v"@ + decimal((n - 1) as nat) + "]"@ + if sound {
            "[a"@ + decimal((n - 1) as nat) + "]"@
        } else {
            Seq::empty()
        }
    }
}

/// The whole filter graph: each segment cut, then joined into `[picture]`
/// (and `[sound]`), then fitted into the container where one is asked for.
pub open spec fn filter_graph_spec(
    segs: Seq<SegmentEntry>,
    trims: Seq<Seq<char>>,
    sound: bool,
    container: Option<ContainerRaster>,
) -> Seq<char> {
    segment_filters(segs, trims, sound, segs.len()) + concat_labels(segs.len(), sound)
        + "concat=n="@ + decimal(segs.len()) + ":v=1:a="@ + (if sound {
        "1"@
    } else {
        "0"@
    }) + "[picture]"@ + (if sound {
        "[sound]"@
    } else {
        Seq::empty()
    }) + match container {
        Some(c) => ";[picture]scale="@ + decimal(c.width as nat) + ":"@ + decimal(c.height as nat)
            + ":force_original_aspect_ratio=decrease,pad="@ + decimal(c.width as nat) + ":"@
            + decimal(c.height as nat) + ":(ow-iw)/2:(oh-ih)/2:black[fitted]"@,
        None => Seq::empty(),
    }
}

/// The label the export maps as its picture: the fitted picture where a
/// container is asked for.
pub fn picture_output_label(container: Option<ContainerRaster>) -> (r: &'static str)
    ensures
        container is Some ==> r@ == "[fitted]"@,
        container is None ==> r@ == "[picture]"@,
{
    match container {
        Some(_) => "[fitted]",
        None => "[picture]",
    }
}

fn segment_filter_chars(k: usize, seg: &SegmentEntry, sound_trim: Option<&str>) -> (r: Vec<char>)
    ensures
        r@ == segment_filter(
            k as nat,
            *seg,
            match sound_trim {
                Some(t) => t@,
                None => Seq::empty(),
            },
            sound_trim is Some,
        ),
{
    let sound = sound_trim.is_some();
    let video_input: u128 = if sound {
        2 * (k as u128)
    } else {
        k as u128
    };
    let mut graph = chars_of("[");
    push_all(&mut graph, &decimal_chars_wide(video_input));
    push_str(&mut graph, ":v:0]");
    push_str(&mut graph, frame_trim(seg).as_str());
    push_str(&mut graph, ",setpts=PTS-STARTPTS[v");
    push_all(&mut graph, &decimal_chars(k as u64));
    push_str(&mut graph, "];");
    let ghost head = graph@;
    match sound_trim {
        Some(t) => {
            push_str(&mut graph, "[");
            push_all(&mut graph, &decimal_chars_wide(video_input + 1));
            push_str(&mut graph, ":a:0]");
            push_str(&mut graph, t);
            push_str(&mut graph, ",asetpts=PTS-STARTPTS[a");
            push_all(&mut graph, &decimal_chars(k as u64));
            push_str(&mut graph, "];");
        },
        None => {
            assert(graph@ =~= head + Seq::<char>::empty());
        },
    }
    graph
}

fn concat_label_chars(k: usize, sound: bool) -> (r: Vec<char>)
    ensures
        r@ == "[v"@ + decimal(k as nat) + "]"@ + if sound {
            "[a"@ + decimal(k as nat) + "]"@
        } else {
            Seq::<char>::empty()
        },
{
    let mut labels = chars_of("[v");
    push_all(&mut labels, &decimal_chars(k as u64));
    push_str(&mut labels, "]");
    let ghost head = labels@;
    if sound {
        push_str(&mut labels, "[a");
        push_all(&mut labels, &decimal_chars(k as u64));
        push_str(&mut labels, "]");
    } else {
        assert(labels@ =~= head + Seq::<char>::empty());
    }
    labels
}

/// The filter graph that cuts `segments` and joins them; `sound_trims` holds
/// each segment's sound cut where the sound is cut.
pub fn filter_graph(
    segments: &Vec<SegmentEntry>,
    sound_trims: Option<&Vec<String>>,
    container: Option<ContainerRaster>,
) -> (r: String)
    requires
        sound_trims matches Some(t) ==> t@.len() == segments@.len(),
    ensures
        r@ == filter_graph_spec(
            segments@,
            match sound_trims {
                Some(t) => string_views(t@),
                None => Seq::empty(),
            },
            sound_trims is Some,
            container,
        ),
{
    let sound = sound_trims.is_some();
    let ghost trims = match sound_trims {
        Some(t) => string_views(t@),
        None => Seq::<Seq<char>>::empty(),
    };
    let mut graph: Vec<char> = Vec::new();
    let mut labels: Vec<char> = Vec::new();
    let mut i: usize = 0;
    while i < segments.len()
        invariant
            i <= segments.len(),
            sound == sound_trims is Some,
            sound_trims matches Some(t) ==> t@.len() == segments@.len(),
            trims == (match sound_trims {
                Some(t) => string_views(t@),
                None => Seq::<Seq<char>>::empty(),
            }),
            graph@ == segment_filters(segments@, trims, sound, i as nat),
            labels@ == concat_labels(i as nat, sound),
        decreases segments.len() - i,
    {
        let trim: Option<&str> = match sound_trims {
            Some(t) => Some(t[i].as_str()),
            None => None,
        };
        proof {
            if sound {
                assert(trims[i as int] == sound_trims->0@[i as int]@);
            }
        }
        push_all(&mut graph, &segment_filter_chars(i, &segments[i], trim));
        push_all(&mut labels, &concat_label_chars(i, sound));
        i += 1;
    }
    push_all(&mut graph, &labels);
    push_str(&mut graph, "concat=n=");
    push_all(&mut graph, &decimal_chars(segments.len() as u64));
    push_str(&mut graph, ":v=1:a=");
    if sound {
        push_str(&mut graph, "1");
    } else {
        push_str(&mut graph, "0");
    }
    push_str(&mut graph, "[picture]");
    if sound {
        push_str(&mut graph, "[sound]");
    }
    match container {
        Some(c) => {
            push_str(&mut graph, ";[picture]scale=");
            push_all(&mut graph, &decimal_chars(c.width as u64));
            push_str(&mut graph, ":");
            push_all(&mut graph, &decimal_chars(c.height as u64));
            push_str(&mut graph, ":force_original_aspect_ratio=decrease,pad=");
            push_all(&mut graph, &decimal_chars(c.width as u64));
            push_str(&mut graph, ":");
            push_all(&mut graph, &decimal_chars(c.height as u64));
            push_str(&mut graph, ":(ow-iw)/2:(oh-ih)/2:black[fitted]");
        },
        None => {},
    }
    string_of(&graph)
}

/// The `-i` inputs of an export: each segment's picture track file, and its
/// sound track file after it where the export carries sound.
pub open spec fn export_inputs(segments: Seq<SegmentEntry>, has_sound: bool) -> Seq<Seq<char>>
    decreases segments.len(),
{
    if segments.len() == 0 {
        Seq::empty()
    } else {
        let s = segments.last();
        export_inputs(segments.drop_last(), has_sound) + seq!["-i"@, s.video_file@] + if has_sound {
            seq!["-i"@, s.audio_file@]
        } else {
            Seq::empty()
        }
    }
}

/// The ffmpeg arguments of a ProRes 4444 export: the inputs, the filter
/// graph and its outputs, the codecs, the first segment's frame rate where
/// it names one, and the output file.
pub open spec fn prores_args_spec(
    segments: Seq<SegmentEntry>,
    has_sound: bool,
    graph: Seq<char>,
    container: Option<ContainerRaster>,
    output: Seq<char>,
) -> Seq<Seq<char>> {
    let label = if container is Some {
        "[fitted]"@
    } else {
        "[picture]"@
    };
    let rate = if segments.len() > 0 {
        match frame_rate_spec(segments[0].edit_rate@) {
            Some(t) => seq!["-r"@, t],
            None => Seq::empty(),
        }
    } else {
        Seq::empty()
    };
    seq!["-hide_banner"@, "-nostats"@, "-nostdin"@, "-y"@] + export_inputs(segments, has_sound) + seq![
        "-filter_complex"@,
        graph,
        "-map"@,
        label,
    ] + (if has_sound {
        seq!["-map"@, "[sound]"@]
    } else {
        Seq::empty()
    }) + seq!["-c:v"@, "prores_ks"@, "-profile:v"@, "4"@, "-pix_fmt"@, "yuv444p10le"@] + rate + (
    if has_sound {
        seq!["-c:a"@, "pcm_s24le"@]
    } else {
        Seq::empty()
    }) + seq![output]
}

/// The ffmpeg arguments that export `segments` to `output` as ProRes 4444
/// through the filter graph `graph`.
pub fn prores_args(
    segments: &Vec<SegmentEntry>,
    has_sound: bool,
    graph: &str,
    container: Option<ContainerRaster>,
    output: &str,
) -> (r: Vec<String>)
    ensures
        string_views(r@) == prores_args_spec(segments@, has_sound, graph@, container, output@),
{
    let mut args: Vec<String> = Vec::new();
    push_arg(&mut args, "-hide_banner");
    push_arg(&mut args, "-nostats");
    push_arg(&mut args, "-nostdin");
    push_arg(&mut args, "-y");
    let ghost head = string_views(args@);
    let mut i: usize = 0;
    while i < segments.len()
        invariant
            i <= segments.len(),
            string_views(args@) == head + export_inputs(segments@.take(i as int), has_sound),
        decreases segments.len() - i,
    {
        let ghost before = string_views(args@);
        push_arg(&mut args, "-i");
        push_arg(&mut args, segments[i].video_file.as_str());
        if has_sound {
            push_arg(&mut args, "-i");
            push_arg(&mut args, segments[i].audio_file.as_str());
        }
        proof {
            assert(segments@.take(i + 1).drop_last() =~= segments@.take(i as int));
            assert(segments@.take(i + 1).last() == segments@[i as int]);
            assert(string_views(args@) =~= head + export_inputs(segments@.take(i + 1), has_sound));
        }
        i += 1;
    }
    assert(segments@.take(segments.len() as int) =~= segments@);
    let ghost a1 = string_views(args@);
    push_arg(&mut args, "-filter_complex");
    push_arg(&mut args, graph);
    push_arg(&mut args, "-map");
    push_arg(&mut args, picture_output_label(container));
    if has_sound {
        push_arg(&mut args, "-map");
        push_arg(&mut args, "[sound]");
    }
    push_arg(&mut args, "-c:v");
    push_arg(&mut args, "prores_ks");
    push_arg(&mut args, "-profile:v");
    push_arg(&mut args, "4");
    push_arg(&mut args, "-pix_fmt");
    push_arg(&mut args, "yuv444p10le");
    let ghost a2 = string_views(args@);
    if segments.len() > 0 {
        match ffmpeg_frame_rate(segments[0].edit_rate.as_str()) {
            Some(rate) => {
                push_arg(&mut args, "-r");
                push_arg(&mut args, rate.as_str());
            },
            None => {},
        }
    }
    let ghost a3 = string_views(args@);
    if has_sound {
        push_arg(&mut args, "-c:a");
        push_arg(&mut args, "pcm_s24le");
    }
    push_arg(&mut args, output);
    proof {
        let label = if container is Some {
            "[fitted]"@
        } else {
            "[picture]"@
        };
        let rate = if segments@.len() > 0 {
            match frame_rate_spec(segments@[0].edit_rate@) {
                Some(t) => seq!["-r"@, t],
                None => Seq::empty(),
            }
        } else {
            Seq::empty()
        };
        assert(a3 =~= a2 + rate);
        assert(string_views(args@) =~= prores_args_spec(segments@, has_sound, graph@, container, output@));
    }
    args
}

} // verus!
