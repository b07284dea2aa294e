//! Export a composition's picture track to a numbered image sequence.
//!
//! The library decides which CPL is meant, which timeline resources make up
//! the picture track (refusing encrypted essence and a raster that changes),
//! which composition frames the request covers, and, for each of them, which
//! source frame of which MXF it is and the file it goes to. Frames are
//! numbered from 1 (`frame_000001.tif`) over the exported subrange. Reading
//! the MXF files and decoding and writing the frames is done by the caller.
use vstd::prelude::*;
use crate::text::{
    ascii_lower, chars_of, decimal, decimal_chars, eq, eq_str, join, join_chars, padded_decimal,
    parse_u64_bounded, parse_unsigned, push_all, push_str, string_of, to_ascii_lower, trim,
    trim_chars, trim_start_matches, trim_start_matches_chars, views, zero_pad,
};
use crate::timeline::{CplInfo, SegmentEntry};

verus! {

/// Output image format.
///
/// DPX is absent: nothing here writes DPX, and routing the frames through ffmpeg
/// would promote the essence to 16-bit, breaking the native-bit-depth contract.
#[derive(Debug, Clone, Copy, PartialEq, Eq, Structural)]
pub enum ExportFormat {
    Tiff,
    Png,
}

/// The refusal of DPX.
pub open spec fn dpx_message() -> Seq<char> {
    "dpx export is not supported, it would not keep the native bit depth; use tiff or png"@
}

/// What `--format` selects, ASCII case ignored.
pub open spec fn format_from_flag(s: Seq<char>) -> Result<ExportFormat, Seq<char>> {
    let l = ascii_lower(s);
    if l == "tiff"@ || l == "tif"@ {
        Ok(ExportFormat::Tiff)
    } else if l == "png"@ {
        Ok(ExportFormat::Png)
    } else if l == "dpx"@ {
        Err(dpx_message())
    } else {
        Err("unknown format '"@ + l + "'; use tiff or png"@)
    }
}

pub open spec fn format_ext(f: ExportFormat) -> Seq<char> {
    match f {
        ExportFormat::Tiff => "tif"@,
        ExportFormat::Png => "png"@,
    }
}

impl ExportFormat {
    pub fn from_flag(s: &str) -> (r: Result<Self, String>)
        ensures
            match (r, format_from_flag(s@)) {
                (Ok(a), Ok(b)) => a == b,
                (Err(e), Err(m)) => e@ == m,
                _ => false,
            },
    {
        let l = to_ascii_lower(&chars_of(s));
        if eq_str(&l, "tiff") || eq_str(&l, "tif") {
            Ok(ExportFormat::Tiff)
        } else if eq_str(&l, "png") {
            Ok(ExportFormat::Png)
        } else if eq_str(&l, "dpx") {
            Err(
                string_of(
                    &chars_of(
                        "dpx export is not supported, it would not keep the native bit depth; use tiff or png",
                    ),
                ),
            )
        } else {
            let mut m = chars_of("unknown format '");
            push_all(&mut m, &l);
            push_str(&mut m, "'; use tiff or png");
            Err(string_of(&m))
        }
    }

    /// The file extension of a frame in this format.
    pub fn ext(self) -> (r: &'static str)
        ensures
            r@ == format_ext(self),
    {
        match self {
            ExportFormat::Tiff => "tif",
            ExportFormat::Png => "png",
        }
    }
}

/// Options for image-sequence export.
pub struct ExportFramesOptions {
    pub imp_dir: String,
    pub output_dir: String,
    pub format: ExportFormat,
    /// CPL selector: a UUID (with or without urn:uuid:) or a 0-based index. None uses
    /// the sole CPL and errors if the IMP has several.
    pub cpl: Option<String>,
    /// First composition frame to export (0-based).
    pub start: u32,
    /// Number of frames to export; None exports through the end.
    pub count: Option<u32>,
}

/// Result of an export.
#[derive(Debug)]
pub struct ExportFramesResult {
    pub frames_written: u32,
    pub output_dir: String,
    pub width: u32,
    pub height: u32,
}

// ---------------------------------------------------------------------------
// CPL selection
// ---------------------------------------------------------------------------

/// The first CPL whose id equals `want`, ASCII case ignored.
pub open spec fn first_id_match(cpls: Seq<CplInfo>, want: Seq<char>, from: int) -> Option<int>
    decreases cpls.len() - from,
{
    if from < 0 || from >= cpls.len() {
        None
    } else if ascii_lower(cpls[from].id@) == ascii_lower(want) {
        Some(from)
    } else {
        first_id_match(cpls, want, from + 1)
    }
}

pub open spec fn cpl_line(i: int, c: CplInfo) -> Seq<char> {
    "  ["@ + decimal(i as nat) + "] "@ + c.id@ + " "@ + c.title@
}

pub open spec fn cpl_lines(cpls: Seq<CplInfo>) -> Seq<Seq<char>> {
    Seq::new(cpls.len(), |i: int| cpl_line(i, cpls[i]))
}

/// Which CPL a selector picks: its index, or the refusal.
pub open spec fn selected_cpl(cpls: Seq<CplInfo>, imp_dir: Seq<char>, sel: Option<Seq<char>>) -> Result<
    int,
    Seq<char>,
> {
    if cpls.len() == 0 {
        Err("no CPL found in "@ + imp_dir)
    } else {
        match sel {
            None => if cpls.len() == 1 {
                Ok(0)
            } else {
                Err(
                    "IMP has "@ + decimal(cpls.len()) + " CPLs; select one with --cpl <uuid-or-index>:\n"@
                        + join(cpl_lines(cpls), "\n"@),
                )
            },
            Some(s) => {
                let want = trim_start_matches(trim(s), "urn:uuid:"@);
                match first_id_match(cpls, want, 0) {
                    Some(i) => Ok(i),
                    None => match parse_unsigned(trim(s), usize::MAX as nat) {
                        Some(idx) => if idx < cpls.len() {
                            Ok(idx as int)
                        } else {
                            Err(
                                "--cpl index "@ + decimal(idx) + " out of range (0.."@ + decimal(
                                    cpls.len(),
                                ) + ")"@,
                            )
                        },
                        None => Err("no CPL matches --cpl "@ + s),
                    },
                }
            },
        }
    }
}

fn copy_cpl(c: &CplInfo) -> (r: CplInfo)
    ensures
        r.id@ == c.id@,
        r.file_path@ == c.file_path@,
        r.title@ == c.title@,
{
    CplInfo {
        id: string_of(&chars_of(c.id.as_str())),
        file_path: string_of(&chars_of(c.file_path.as_str())),
        title: string_of(&chars_of(c.title.as_str())),
    }
}

fn find_id(cpls: &Vec<CplInfo>, want: &[char]) -> (r: Option<usize>)
    ensures
        match r {
            Some(i) => first_id_match(cpls@, want@, 0) == Some(i as int) && i < cpls.len(),
            None => first_id_match(cpls@, want@, 0) is None,
        },
{
    let lw = to_ascii_lower(want);
    let mut i: usize = 0;
    while i < cpls.len()
        invariant
            i <= cpls.len(),
            lw@ == ascii_lower(want@),
            first_id_match(cpls@, want@, 0) == first_id_match(cpls@, want@, i as int),
        decreases cpls.len() - i,
    {
        let li = to_ascii_lower(&chars_of(cpls[i].id.as_str()));
        if eq(&li, &lw) {
            return Some(i);
        }
        i += 1;
    }
    None
}

/// Select a CPL from the IMP's CPLs by UUID or 0-based index, or the sole CPL
/// when unspecified. `imp_dir` names the IMP in the refusal.
pub fn select_cpl(cpls: &Vec<CplInfo>, imp_dir: &str, selector: Option<&str>) -> (r: Result<
    CplInfo,
    String,
>)
    ensures
        match selected_cpl(
            cpls@,
            imp_dir@,
            match selector {
                Some(s) => Some(s@),
                None => None,
            },
        ) {
            Ok(i) => r matches Ok(c) && 0 <= i < cpls.len() && c.id@ == cpls@[i].id@
                && c.file_path@ == cpls@[i].file_path@ && c.title@ == cpls@[i].title@,
            Err(m) => r matches Err(e) && e@ == m,
        },
{
    if cpls.len() == 0 {
        let mut m = chars_of("no CPL found in ");
        push_str(&mut m, imp_dir);
        return Err(string_of(&m));
    }
    match selector {
        None => {
            if cpls.len() == 1 {
                Ok(copy_cpl(&cpls[0]))
            } else {
                let mut parts: Vec<Vec<char>> = Vec::new();
                let mut i: usize = 0;
                while i < cpls.len()
                    invariant
                        i <= cpls.len(),
                        views(parts@) == cpl_lines(cpls@).take(i as int),
                    decreases cpls.len() - i,
                {
                    let mut line = chars_of("  [");
                    push_all(&mut line, &decimal_chars(i as u64));
                    push_str(&mut line, "] ");
                    push_str(&mut line, cpls[i].id.as_str());
                    push_str(&mut line, " ");
                    push_str(&mut line, cpls[i].title.as_str());
                    let ghost before = views(parts@);
                    assert(line@ == cpl_line(i as int, cpls@[i as int]));
                    parts.push(line);
                    assert(views(parts@) =~= before.push(line@));
                    i += 1;
                    assert(views(parts@) =~= cpl_lines(cpls@).take(i as int));
                }
                assert(cpl_lines(cpls@).take(cpls.len() as int) =~= cpl_lines(cpls@));
                let nl = chars_of("\n");
                let list = join_chars(&parts, &nl);
                let mut m = chars_of("IMP has ");
                push_all(&mut m, &decimal_chars(cpls.len() as u64));
                push_str(&mut m, " CPLs; select one with --cpl <uuid-or-index>:\n");
                push_all(&mut m, &list);
                Err(string_of(&m))
            }
        },
        Some(sel) => {
            let sc = chars_of(sel);
            let t = trim_chars(&sc);
            let urn = chars_of("urn:uuid:");
            let want = trim_start_matches_chars(&t, &urn);
            match find_id(cpls, &want) {
                Some(i) => Ok(copy_cpl(&cpls[i])),
                None => match parse_u64_bounded(&t, usize::MAX as u64) {
                    Some(idx) => {
                        if (idx as usize) < cpls.len() {
                            Ok(copy_cpl(&cpls[idx as usize]))
                        } else {
                            let mut m = chars_of("--cpl index ");
                            push_all(&mut m, &decimal_chars(idx));
                            push_str(&mut m, " out of range (0..");
                            push_all(&mut m, &decimal_chars(cpls.len() as u64));
                            push_str(&mut m, ")");
                            Err(string_of(&m))
                        }
                    },
                    None => {
                        let mut m = chars_of("no CPL matches --cpl ");
                        push_all(&mut m, &sc);
                        Err(string_of(&m))
                    },
                },
            }
        },
    }
}

// ---------------------------------------------------------------------------
// The picture track
// ---------------------------------------------------------------------------

/// One timeline resource: a picture MXF and the source-frame window to read from it.
pub struct Segment {
    pub mxf: String,
    pub entry: u32,
    pub count: u32,
}

/// What an AS-02 J2K MXF's descriptor and writer info say.
#[derive(Clone, Copy)]
pub struct PictureProbe {
    pub width: u32,
    pub height: u32,
    pub duration: u32,
    pub encrypted: bool,
}

pub open spec fn segment_view(s: Segment) -> (Seq<char>, u32, u32) {
    (s.mxf@, s.entry, s.count)
}

pub open spec fn segment_views(v: Seq<Segment>) -> Seq<(Seq<char>, u32, u32)> {
    v.map_values(|s: Segment| segment_view(s))
}

/// The picture segments found so far, and the raster they share.
pub struct SegmentPlan {
    pub segments: Vec<Segment>,
    pub dims: Option<(u32, u32)>,
}

/// How many source frames a resource contributes: from its entry point, its
/// source duration where it gives one, never past the end of the file.
pub open spec fn resource_count(e: SegmentEntry, p: PictureProbe) -> u32 {
    let entry = e.entry_point as u32;
    let avail: u32 = if p.duration >= entry {
        (p.duration - entry) as u32
    } else {
        0
    };
    if e.duration_frames > 0 {
        let d = e.duration_frames as u32;
        if d < avail {
            d
        } else {
            avail
        }
    } else {
        avail
    }
}

pub open spec fn encrypted_message(mxf: Seq<char>) -> Seq<char> {
    mxf + " is encrypted; imfwizard has no KDM support, cannot decode"@
}

pub open spec fn raster_change_message(w: u32, h: u32, pw: u32, ph: u32) -> Seq<char> {
    "picture dimensions change across segments ("@ + decimal(w as nat) + "x"@ + decimal(h as nat)
        + " then "@ + decimal(pw as nat) + "x"@ + decimal(ph as nat) + "); not supported"@
}

/// Whether a timeline entry has a picture file to probe.
pub fn needs_probe(e: &SegmentEntry) -> (r: bool)
    ensures
        r == (e.video_file@.len() > 0),
{
    !e.video_file.as_str().is_empty()
}

impl SegmentPlan {
    pub fn new() -> (r: Self)
        ensures
            r.segments@.len() == 0,
            r.dims is None,
    {
        SegmentPlan { segments: Vec::new(), dims: None }
    }

    /// Take one timeline entry, given what its picture MXF's descriptor says.
    /// An entry without a picture file is passed over; encrypted essence and
    /// a raster other than the earlier segments' are refused; a resource
    /// that contributes no frame leaves no segment.
    pub fn step(&mut self, e: &SegmentEntry, p: &PictureProbe) -> (r: Result<(), String>)
        ensures
            e.video_file@.len() == 0 ==> r is Ok && segment_views(final(self).segments@)
                == segment_views(old(self).segments@) && final(self).dims == old(self).dims,
            e.video_file@.len() > 0 && p.encrypted ==> (r matches Err(m) && m@
                == encrypted_message(e.video_file@)),
            e.video_file@.len() > 0 && !p.encrypted ==> match old(self).dims {
                Some((w, h)) if (w, h) != (p.width, p.height) => r matches Err(m) && m@
                    == raster_change_message(w, h, p.width, p.height),
                _ => {
                    &&& r is Ok
                    &&& final(self).dims == Some((p.width, p.height))
                    &&& segment_views(final(self).segments@) == if resource_count(*e, *p) == 0 {
                        segment_views(old(self).segments@)
                    } else {
                        segment_views(old(self).segments@).push(
                            (
                                e.video_file@,
                                e.entry_point as u32,
                                resource_count(*e, *p),
                            ),
                        )
                    }
                },
            },
    {
        if e.video_file.as_str().is_empty() {
            return Ok(());
        }
        if p.encrypted {
            let mut m = chars_of(e.video_file.as_str());
            push_str(&mut m, " is encrypted; imfwizard has no KDM support, cannot decode");
            return Err(string_of(&m));
        }
        match self.dims {
            Some((w, h)) => {
                if w != p.width || h != p.height {
                    let mut m = chars_of("picture dimensions change across segments (");
                    push_all(&mut m, &decimal_chars(w as u64));
                    push_str(&mut m, "x");
                    push_all(&mut m, &decimal_chars(h as u64));
                    push_str(&mut m, " then ");
                    push_all(&mut m, &decimal_chars(p.width as u64));
                    push_str(&mut m, "x");
                    push_all(&mut m, &decimal_chars(p.height as u64));
                    push_str(&mut m, "); not supported");
                    return Err(string_of(&m));
                }
            },
            None => {},
        }
        self.dims = Some((p.width, p.height));
        let entry = e.entry_point as u32;
        let avail = p.duration.saturating_sub(entry);
        let count = if e.duration_frames > 0 {
            let d = e.duration_frames as u32;
            if d < avail {
                d
            } else {
                avail
            }
        } else {
            avail
        };
        if count == 0 {
            return Ok(());
        }
        let ghost before = segment_views(self.segments@);
        let seg = Segment { mxf: string_of(&chars_of(e.video_file.as_str())), entry, count };
        self.segments.push(seg);
        assert(segment_views(self.segments@) =~= before.push((e.video_file@, entry, count)));
        Ok(())
    }

    /// The segments and the raster, or the refusal of a composition with no
    /// picture track.
    pub fn finish(self) -> (r: Result<(Vec<Segment>, u32, u32), String>)
        ensures
            match self.dims {
                None => r matches Err(m) && m@ == "composition has no picture track"@,
                Some((w, h)) => r matches Ok((s, rw, rh)) && segment_views(s@) == segment_views(
                    self.segments@,
                ) && rw == w && rh == h,
            },
    {
        match self.dims {
            None => Err(string_of(&chars_of("composition has no picture track"))),
            Some((w, h)) => Ok((self.segments, w, h)),
        }
    }
}

/// Every segment this plan makes reads inside its file: entry and count fit
/// in a frame number.
pub open spec fn segments_fit(s: Seq<Segment>) -> bool {
    forall|i: int| 0 <= i < s.len() ==> #[trigger] s[i].entry + s[i].count <= u32::MAX
}

// ---------------------------------------------------------------------------
// The exported range
// ---------------------------------------------------------------------------

/// How many composition frames the segments hold.
pub open spec fn seg_total(s: Seq<Segment>) -> nat
    decreases s.len(),
{
    if s.len() == 0 {
        0
    } else {
        seg_total(s.drop_last()) + s.last().count as nat
    }
}

/// Where the composition frames of segment `i` begin.
pub open spec fn seg_start(s: Seq<Segment>, i: int) -> nat {
    seg_total(s.take(i))
}

pub open spec fn range_no_frames() -> Seq<char> {
    "composition has no picture frames"@
}

/// The composition frames `[start, end)` a request covers, or its refusal.
pub open spec fn export_range_spec(total: nat, start: u32, count: Option<u32>) -> Result<
    (nat, nat),
    Seq<char>,
> {
    if total == 0 {
        Err(range_no_frames())
    } else if start >= total {
        Err(
            "--start "@ + decimal(start as nat) + " is past the composition's "@ + decimal(total)
                + " picture frame(s)"@,
        )
    } else {
        match count {
            Some(c) => Ok(
                (
                    start as nat,
                    if start + c < total {
                        (start + c) as nat
                    } else {
                        total
                    },
                ),
            ),
            None => Ok((start as nat, total)),
        }
    }
}

fn total_frames(segments: &Vec<Segment>) -> (r: u64)
    requires
        seg_total(segments@) <= u64::MAX,
    ensures
        r == seg_total(segments@),
{
    let mut t: u64 = 0;
    let mut i: usize = 0;
    while i < segments.len()
        invariant
            i <= segments.len(),
            t == seg_total(segments@.take(i as int)),
            seg_total(segments@) <= u64::MAX,
        decreases segments.len() - i,
    {
        proof {
            assert(segments@.take(i + 1).drop_last() =~= segments@.take(i as int));
            lemma_seg_total_prefix(segments@, i + 1);
        }
        t = t + segments[i].count as u64;
        i += 1;
    }
    assert(segments@.take(segments.len() as int) =~= segments@);
    t
}

/// A prefix holds no more frames than the whole.
pub proof fn lemma_seg_total_prefix(s: Seq<Segment>, n: int)
    requires
        0 <= n <= s.len(),
    ensures
        seg_total(s.take(n)) <= seg_total(s),
    decreases s.len() - n,
{
    if n < s.len() {
        lemma_seg_total_prefix(s, n + 1);
        assert(s.take(n + 1).drop_last() =~= s.take(n));
    } else {
        assert(s.take(n) =~= s);
    }
}

/// The composition frames `[start, end)` to export: the frames from `start`,
/// `count` of them or through the end.
pub fn export_range(segments: &Vec<Segment>, start: u32, count: Option<u32>) -> (r: Result<
    (u64, u64),
    String,
>)
    requires
        seg_total(segments@) <= u64::MAX,
    ensures
        match export_range_spec(seg_total(segments@), start, count) {
            Ok((a, b)) => r matches Ok((ra, rb)) && ra == a && rb == b,
            Err(m) => r matches Err(e) && e@ == m,
        },
{
    let total = total_frames(segments);
    if total == 0 {
        return Err(string_of(&chars_of("composition has no picture frames")));
    }
    if start as u64 >= total {
        let mut m = chars_of("--start ");
        push_all(&mut m, &decimal_chars(start as u64));
        push_str(&mut m, " is past the composition's ");
        push_all(&mut m, &decimal_chars(total));
        push_str(&mut m, " picture frame(s)");
        return Err(string_of(&m));
    }
    let end = match count {
        Some(c) => {
            if (start as u64) + (c as u64) < total {
                (start as u64) + (c as u64)
            } else {
                total
            }
        },
        None => total,
    };
    Ok((start as u64, end))
}

// ---------------------------------------------------------------------------
// The frames
// ---------------------------------------------------------------------------

/// One frame to write: the segment it comes from, its frame number in that
/// segment's MXF, and the file it goes to.
pub struct FrameJob {
    pub segment: usize,
    pub source_frame: u32,
    pub file_name: String,
}

/// The name of the `n`-th exported frame (counting from 1).
pub open spec fn frame_file_name(n: nat, ext: Seq<char>) -> Seq<char> {
    "frame_"@ + zero_pad(decimal(n), 6) + "."@ + ext
}

/// The `k`-th job is composition frame `start + k`, read from the segment
/// whose frames cover it, and written as frame `k + 1`.
pub open spec fn job_is(segs: Seq<Segment>, start: nat, k: int, j: FrameJob, ext: Seq<char>) -> bool {
    let g = start + k;
    &&& 0 <= j.segment < segs.len()
    &&& seg_start(segs, j.segment as int) <= g < seg_start(segs, j.segment + 1)
    &&& j.source_frame == segs[j.segment as int].entry + (g - seg_start(segs, j.segment as int))
    &&& j.file_name@ == frame_file_name((k + 1) as nat, ext)
}

fn frame_name(n: u32, ext: &str) -> (r: String)
    ensures
        r@ == frame_file_name(n as nat, ext@),
{
    let mut m = chars_of("frame_");
    push_all(&mut m, &padded_decimal(n as u64, 6));
    push_str(&mut m, ".");
    push_str(&mut m, ext);
    string_of(&m)
}

/// The frames of `[start, end)`, in order: where each is read and the file
/// it is written to. Their number is what the export reports written.
pub fn frame_jobs(segments: &Vec<Segment>, start: u64, end: u64, format: ExportFormat) -> (r: Vec<
    FrameJob,
>)
    requires
        start <= end <= seg_total(segments@),
        seg_total(segments@) <= u64::MAX,
        end - start < u32::MAX,
        segments_fit(segments@),
    ensures
        r@.len() == end - start,
        forall|k: int|
            0 <= k < r@.len() ==> job_is(segments@, start as nat, k, #[trigger] r@[k], format_ext(format)),
{
    let ext = format.ext();
    let mut jobs: Vec<FrameJob> = Vec::new();
    let mut global: u64 = 0;
    let mut i: usize = 0;
    proof {
        lemma_seg_total_prefix(segments@, 0);
        assert(segments@.take(0) =~= Seq::<Segment>::empty());
    }
    while i < segments.len()
        invariant
            i <= segments.len(),
            start <= end <= seg_total(segments@),
            seg_total(segments@) <= u64::MAX,
            end - start < u32::MAX,
            segments_fit(segments@),
            ext@ == format_ext(format),
            global == seg_start(segments@, i as int),
            global <= seg_total(segments@),
            jobs@.len() == (if global <= start {
                0
            } else if global >= end {
                end - start
            } else {
                global - start
            }),
            forall|k: int|
                0 <= k < jobs@.len() ==> job_is(segments@, start as nat, k, #[trigger] jobs@[k], ext@),
        decreases segments.len() - i,
    {
        proof {
            assert(segments@.take(i + 1).drop_last() =~= segments@.take(i as int));
            lemma_seg_total_prefix(segments@, i + 1);
        }
        let seg_start_g = global;
        let seg_end = global + segments[i].count as u64;
        assert(seg_end == seg_start(segments@, i + 1));
        let lo = if start > seg_start_g {
            start
        } else {
            seg_start_g
        };
        let hi = if end < seg_end {
            end
        } else {
            seg_end
        };
        if lo < hi {
            let mut g = lo;
            while g < hi
                invariant
                    lo <= g <= hi,
                    lo < hi,
                    i < segments.len(),
                    start <= lo,
                    hi <= end,
                    seg_start_g <= lo,
                    hi <= seg_end,
                    seg_start_g == seg_start(segments@, i as int),
                    seg_end == seg_start(segments@, i + 1),
                    seg_end == seg_start_g + segments@[i as int].count,
                    end - start < u32::MAX,
                    segments_fit(segments@),
                    ext@ == format_ext(format),
                    jobs@.len() == g - start,
                    forall|k: int|
                        0 <= k < jobs@.len() ==> job_is(
                            segments@,
                            start as nat,
                            k,
                            #[trigger] jobs@[k],
                            ext@,
                        ),
                decreases hi - g,
            {
                assert(segments@[i as int].entry + segments@[i as int].count <= u32::MAX);
                let src = segments[i].entry + (g - seg_start_g) as u32;
                let out_no = (g - start + 1) as u32;
                let job = FrameJob { segment: i, source_frame: src, file_name: frame_name(out_no, ext) };
                assert(job_is(segments@, start as nat, jobs@.len() as int, job, ext@));
                jobs.push(job);
                g += 1;
            }
        }
        global = seg_end;
        i += 1;
    }
    proof {
        assert(segments@.take(segments.len() as int) =~= segments@);
    }
    jobs
}

/// The bit depth a PNG frame deeper than 8 bits is written at.
pub const PNG_DEEP_BIT_DEPTH: u8 = 16;

/// `2^k`.
pub open spec fn scale_of(k: nat) -> nat
    decreases k,
{
    if k == 0 {
        1
    } else {
        2 * scale_of((k - 1) as nat)
    }
}

/// A sample of `precision` bits scaled up to 16 bits, as `s << (16 - precision)`
/// on a `u16`: bits shifted past the top are dropped.
pub open spec fn scaled_sample(s: u16, precision: u8) -> nat {
    ((s as nat) * scale_of((16 - precision) as nat)) % 65536
}

/// The bytes of a PNG frame of `samples` at `precision` bits: each sample as
/// one byte (its low 8 bits) where the precision fits in 8 bits, else each
/// scaled sample as two bytes, high byte first.
pub open spec fn png_data_spec(precision: u8, samples: Seq<u16>, data: Seq<u8>) -> bool {
    if precision <= 8 {
        &&& data.len() == samples.len()
        &&& forall|i: int| 0 <= i < samples.len() ==> #[trigger] data[i] == samples[i] % 256
    } else {
        &&& data.len() == 2 * samples.len()
        &&& forall|i: int|
            0 <= i < samples.len() ==> #[trigger] data[2 * i] == scaled_sample(samples[i], precision) / 256
                && data[2 * i + 1] == scaled_sample(samples[i], precision) % 256
    }
}

proof fn lemma_scale_mono(k: nat, n: nat)
    requires
        k <= n,
    ensures
        1 <= scale_of(k) <= scale_of(n),
    decreases n,
{
    if k < n {
        lemma_scale_mono(k, (n - 1) as nat);
    } else if k > 0 {
        lemma_scale_mono((k - 1) as nat, (k - 1) as nat);
    }
}

proof fn lemma_scale_bounds(k: nat)
    requires
        k <= 16,
    ensures
        1 <= scale_of(k) <= 65536,
        k <= 7 ==> scale_of(k) <= 128,
{
    assert(scale_of(16) == 65536) by {
        reveal_with_fuel(scale_of, 17);
    }
    assert(scale_of(7) == 128) by {
        reveal_with_fuel(scale_of, 8);
    }
    lemma_scale_mono(k, 16);
    if k <= 7 {
        lemma_scale_mono(k, 7);
    }
}

proof fn lemma_scale_add(a: nat, b: nat)
    ensures
        scale_of(a + b) == scale_of(a) * scale_of(b),
    decreases a,
{
    if a > 0 {
        let a1 = (a - 1) as nat;
        lemma_scale_add(a1, b);
        assert(scale_of(a) == 2 * scale_of(a1));
        assert(scale_of(a1 + b + 1) == 2 * scale_of(a1 + b));
        assert(a + b == a1 + b + 1);
        let x = scale_of(a1);
        let y = scale_of(b);
        assert(2 * (x * y) == (2 * x) * y) by (nonlinear_arith);
        assert(scale_of(a + b) == 2 * (x * y));
        assert(scale_of(a) * scale_of(b) == (2 * x) * y);
    } else {
        assert(a + b == b);
        assert(scale_of(a) == 1);
        assert(1 * scale_of(b) == scale_of(b));
    }
}

/// The pixel bytes a PNG frame of pixel-interleaved RGB samples carries:
/// 8-bit samples as they are, deeper ones scaled up to 16 bits. Writing the
/// PNG around them is the caller's.
pub fn png_rgb_data(precision: u8, samples: &Vec<u16>) -> (r: Vec<u8>)
    requires
        precision <= PNG_DEEP_BIT_DEPTH,
        2 * samples.len() <= usize::MAX,
    ensures
        png_data_spec(precision, samples@, r@),
{
    let mut out: Vec<u8> = Vec::new();
    if precision <= 8 {
        let mut i: usize = 0;
        while i < samples.len()
            invariant
                i <= samples.len(),
                out@.len() == i,
                forall|k: int| 0 <= k < i ==> #[trigger] out@[k] == samples@[k] % 256,
            decreases samples.len() - i,
        {
            out.push((samples[i] % 256) as u8);
            i += 1;
        }
        return out;
    }
    let shift: u8 = PNG_DEEP_BIT_DEPTH - precision;
    let mut scale: u32 = 1;
    let mut k: u8 = 0;
    while k < shift
        invariant
            k <= shift,
            shift <= 7,
            scale as nat == scale_of(k as nat),
        decreases shift - k,
    {
        proof {
            lemma_scale_bounds(k as nat);
        }
        scale = scale * 2;
        k += 1;
    }
    proof {
        lemma_scale_bounds(shift as nat);
    }
    let mut i: usize = 0;
    while i < samples.len()
        invariant
            i <= samples.len(),
            2 * samples.len() <= usize::MAX,
            8 < precision <= 16,
            shift == 16 - precision,
            scale as nat == scale_of(shift as nat),
            scale <= 128,
            out@.len() == 2 * i,
            forall|q: int|
                0 <= q < i ==> #[trigger] out@[2 * q] == scaled_sample(samples@[q], precision) / 256
                    && out@[2 * q + 1] == scaled_sample(samples@[q], precision) % 256,
        decreases samples.len() - i,
    {
        assert((samples@[i as int] as u32) * scale <= 65535 * 128) by (nonlinear_arith)
            requires
                samples@[i as int] <= 65535,
                scale <= 128,
        ;
        let v: u32 = (samples[i] as u32) * scale;
        let t: u32 = v % 65536;
        proof {
            assert(t as nat == scaled_sample(samples@[i as int], precision));
        }
        let ghost before = out@;
        out.push((t / 256) as u8);
        out.push((t % 256) as u8);
        assert forall|q: int|
            0 <= q < i + 1 implies #[trigger] out@[2 * q] == scaled_sample(samples@[q], precision) / 256
                && out@[2 * q + 1] == scaled_sample(samples@[q], precision) % 256 by {
            if q < i {
                assert(out@[2 * q] == before[2 * q]);
                assert(out@[2 * q + 1] == before[2 * q + 1]);
            }
        }
        i += 1;
    }
    out
}

/// Scaling a deep sample up to 16 bits loses nothing: a sample that fits in
/// its precision comes back from the two bytes written for it by dividing out
/// the scale.
pub proof fn law_deep_samples_keep_their_value(s: u16, precision: u8)
    requires
        8 < precision <= 16,
        (s as nat) < scale_of(precision as nat),
    ensures
        scaled_sample(s, precision) == (s as nat) * scale_of((16 - precision) as nat),
        scaled_sample(s, precision) / scale_of((16 - precision) as nat) == s,
{
    let k = (16 - precision) as nat;
    lemma_scale_add(precision as nat, k);
    assert((precision as nat) + k == 16);
    assert(scale_of(16) == 65536) by {
        reveal_with_fuel(scale_of, 17);
    }
    lemma_scale_bounds(k);
    let p = scale_of(precision as nat);
    let q = scale_of(k);
    assert((s as nat) * q < 65536) by (nonlinear_arith)
        requires
            (s as nat) < p,
            p * q == 65536,
            q >= 1,
    ;
    assert(((s as nat) * q) / q == s) by (nonlinear_arith)
        requires
            q >= 1,
    ;
}

} // verus!
