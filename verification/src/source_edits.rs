//! Head/tail trim and audio delay, applied to a composition's source between
//! the J2K encode and packaging.
//!
//! The delay lands before the trim: it says how the sound lines up with the
//! picture, and the trim then cuts a range out of the aligned programme. Running
//! them the other way round would cut a range that had not been aligned yet.
//!
//! The library decides which edits run, on which files and into which
//! intermediates, and refuses the ones the source cannot absorb; the sample
//! and frame copying itself is the caller's.
use vstd::prelude::*;
use crate::text::{
    chars_of, decimal, decimal_chars, decimal_chars_wide, push_all, push_str, signed_decimal,
    signed_decimal_chars, string_of, string_views, trim, trim_chars, contains, contains_str,
    ends_with, ends_with_chars, eq_str, lines, lines_chars, parse_u64, parse_unsigned, to_lowercase,
    unicode_lower,
};
use crate::duration_spec::{parse_seconds, seconds_frames};

verus! {

/// Trim and audio delay for one composition's source.
#[derive(Debug, Clone, Copy, Default, PartialEq, Eq, Structural)]
pub struct SourceEdits {
    /// Milliseconds to shift the sound against the picture; positive is later.
    /// The running time never changes, so the shift is padded and truncated.
    pub audio_delay_ms: i64,
    /// Picture frames removed from the head of the source.
    pub trim_start_frames: u64,
    /// Picture frames removed from the tail of the source.
    pub trim_end_frames: u64,
}

impl SourceEdits {
    pub fn trims(&self) -> (r: bool)
        ensures
            r == (self.trim_start_frames > 0 || self.trim_end_frames > 0),
    {
        self.trim_start_frames > 0 || self.trim_end_frames > 0
    }

    /// Whether these edits change nothing.
    pub fn is_identity(&self) -> (r: bool)
        ensures
            r == (self.audio_delay_ms == 0 && self.trim_start_frames == 0 && self.trim_end_frames
                == 0),
    {
        self.audio_delay_ms == 0 && self.trim_start_frames == 0 && self.trim_end_frames == 0
    }
}

/// How many frames the picture holds, and where they came from.
#[derive(Debug, Clone, PartialEq, Eq)]
pub struct PictureFacts {
    pub path: String,
    pub frames: u64,
}

/// How long one sound file runs.
#[derive(Debug, Clone, PartialEq, Eq)]
pub struct AudioFacts {
    pub path: String,
    pub sample_frames: u64,
    pub sample_rate: u32,
}

/// One composition's picture, sound and timed text, before or after the edits.
#[derive(Debug, Clone, Default, PartialEq, Eq)]
pub struct CompositionSource {
    pub j2k_dir: Option<String>,
    pub audio_files: Vec<String>,
    pub timed_text_files: Vec<String>,
}

/// One `<p>` cue of a timed-text file, as the hints read it.
#[derive(Debug, Clone, PartialEq, Eq)]
pub struct TimedTextCue {
    pub start_ms: u64,
    pub end_ms: u64,
    pub lines: Vec<String>,
}

pub open spec fn no_sound_to_delay() -> Seq<char> {
    "an audio delay needs a sound track to shift, but the composition has none"@
}

pub open spec fn no_picture_to_trim() -> Seq<char> {
    "a trim needs picture frames to measure against, but the composition has none"@
}

pub open spec fn picture_trim_refusal(head: u64, tail: u64, frames: u64, path: Seq<char>) -> Seq<
    char,
> {
    "trimming "@ + decimal(head as nat) + " frames off the head and "@ + decimal(tail as nat)
        + " off the tail leaves nothing of the "@ + decimal(frames as nat) + " picture frames in "@
        + path
}

/// A trim has to leave at least one picture frame.
pub fn check_picture_trim(edits: &SourceEdits, picture: &PictureFacts) -> (r: Result<(), String>)
    ensures
        edits.trim_start_frames + edits.trim_end_frames < picture.frames ==> r is Ok,
        edits.trim_start_frames + edits.trim_end_frames >= picture.frames ==> (r matches Err(e)
            && e@ == picture_trim_refusal(
            edits.trim_start_frames,
            edits.trim_end_frames,
            picture.frames,
            picture.path@,
        )),
{
    let head = edits.trim_start_frames;
    let tail = edits.trim_end_frames;
    if (head as u128) + (tail as u128) < picture.frames as u128 {
        return Ok(());
    }
    let mut m = chars_of("trimming ");
    push_all(&mut m, &decimal_chars(head));
    push_str(&mut m, " frames off the head and ");
    push_all(&mut m, &decimal_chars(tail));
    push_str(&mut m, " off the tail leaves nothing of the ");
    push_all(&mut m, &decimal_chars(picture.frames));
    push_str(&mut m, " picture frames in ");
    push_str(&mut m, picture.path.as_str());
    Err(string_of(&m))
}

/// The refusals of the edits that need no sound measurement: a delay with no
/// sound track, a trim with no picture, and a trim that leaves no picture.
/// The sound-length refusals follow these, per sound file.
pub fn check_edit_sources(edits: &SourceEdits, picture: Option<&PictureFacts>, has_audio: bool) -> (r:
    Result<(), String>)
    ensures
        edits.audio_delay_ms != 0 && !has_audio ==> (r matches Err(e) && e@ == no_sound_to_delay()),
        !(edits.audio_delay_ms != 0 && !has_audio) ==> if edits.trim_start_frames > 0
            || edits.trim_end_frames > 0 {
            match picture {
                None => r matches Err(e) && e@ == no_picture_to_trim(),
                Some(p) => if edits.trim_start_frames + edits.trim_end_frames < p.frames {
                    r is Ok
                } else {
                    r matches Err(e) && e@ == picture_trim_refusal(
                        edits.trim_start_frames,
                        edits.trim_end_frames,
                        p.frames,
                        p.path@,
                    )
                },
            }
        } else {
            r is Ok
        },
{
    if edits.audio_delay_ms != 0 && !has_audio {
        return Err(string_of(&chars_of(
            "an audio delay needs a sound track to shift, but the composition has none",
        )));
    }
    if edits.trims() {
        match picture {
            None => {
                return Err(string_of(&chars_of(
                    "a trim needs picture frames to measure against, but the composition has none",
                )));
            },
            Some(p) => {
                return check_picture_trim(edits, p);
            },
        }
    }
    Ok(())
}

// ---------------------------------------------------------------------------
// The edit plan
// ---------------------------------------------------------------------------

/// What happens to one sound file: the file names (under the work directory)
/// of the delayed and of the trimmed copy, where each step runs.
#[derive(Debug, Clone)]
pub struct AudioSteps {
    pub delayed: Option<String>,
    pub trimmed: Option<String>,
}

/// The edits to run on a composition's source. File names are under the
/// work directory.
#[derive(Debug, Clone)]
pub struct EditPlan {
    /// The edits change nothing: the source is packaged as it is.
    pub unchanged: bool,
    /// The picture frames are trimmed into `TRIMMED_PICTURE_DIR`.
    pub trim_picture: bool,
    /// The trimmed copy of each timed-text file, in order, when trimming.
    pub timed_text_outputs: Vec<String>,
    /// The steps of each sound file, in order.
    pub audio_steps: Vec<AudioSteps>,
}

/// Where the trimmed picture frames are written under the job's work directory.
pub open spec fn trimmed_picture_dir() -> Seq<char> {
    "j2k_trimmed"@
}

pub fn trimmed_picture_dir_name() -> (r: String)
    ensures
        r@ == trimmed_picture_dir(),
{
    string_of(&chars_of("j2k_trimmed"))
}

pub open spec fn indexed_name(prefix: Seq<char>, i: nat, ext: Seq<char>) -> Seq<char> {
    prefix + decimal(i) + ext
}

pub open spec fn audio_steps_view(s: AudioSteps) -> (Option<Seq<char>>, Option<Seq<char>>) {
    (
        match s.delayed {
            Some(d) => Some(d@),
            None => None,
        },
        match s.trimmed {
            Some(t) => Some(t@),
            None => None,
        },
    )
}

/// The plan of `apply_source_edits`: the steps it takes, or the refusal it
/// makes before touching any file.
pub open spec fn plan_is(edits: SourceEdits, source: CompositionSource, r: Result<EditPlan, String>) -> bool {
    let trims = edits.trim_start_frames > 0 || edits.trim_end_frames > 0;
    if edits.audio_delay_ms == 0 && !trims {
        r matches Ok(p) && p.unchanged && !p.trim_picture && p.timed_text_outputs@.len() == 0
            && p.audio_steps@.len() == 0
    } else if edits.audio_delay_ms != 0 && source.audio_files@.len() == 0 {
        r matches Err(e) && e@ == no_sound_to_delay()
    } else if trims && source.j2k_dir is None {
        r matches Err(e) && e@ == no_picture_to_trim()
    } else {
        &&& r matches Ok(p)
        &&& !p.unchanged
        &&& p.trim_picture == trims
        &&& p.timed_text_outputs@.len() == (if trims {
            source.timed_text_files@.len()
        } else {
            0
        })
        &&& forall|i: int|
            0 <= i < p.timed_text_outputs@.len() ==> #[trigger] p.timed_text_outputs@[i]@
                == indexed_name("trimmed_subtitle_"@, i as nat, ".xml"@)
        &&& p.audio_steps@.len() == source.audio_files@.len()
        &&& forall|i: int|
            0 <= i < p.audio_steps@.len() ==> #[trigger] audio_steps_view(p.audio_steps@[i]) == (
                if edits.audio_delay_ms != 0 {
                    Some(indexed_name("delayed_audio_"@, i as nat, ".wav"@))
                } else {
                    None
                },
                if trims {
                    Some(indexed_name("trimmed_audio_"@, i as nat, ".wav"@))
                } else {
                    None
                },
            )
    }
}

fn indexed(prefix: &str, i: usize, ext: &str) -> (r: String)
    ensures
        r@ == indexed_name(prefix@, i as nat, ext@),
{
    let mut m = chars_of(prefix);
    push_all(&mut m, &decimal_chars(i as u64));
    push_str(&mut m, ext);
    string_of(&m)
}

/// Decide the edits of one composition's source: which run, on which files,
/// into which intermediates; or refuse a delay with no sound to shift and a
/// trim with no picture to measure. Whether a trim leaves any picture is
/// decided once the frames are counted (`kept_frames`).
pub fn apply_source_edits(edits: &SourceEdits, source: &CompositionSource) -> (r: Result<
    EditPlan,
    String,
>)
    ensures
        plan_is(*edits, *source, r),
{
    if edits.is_identity() {
        return Ok(
            EditPlan {
                unchanged: true,
                trim_picture: false,
                timed_text_outputs: Vec::new(),
                audio_steps: Vec::new(),
            },
        );
    }
    if edits.audio_delay_ms != 0 && source.audio_files.len() == 0 {
        return Err(string_of(&chars_of(
            "an audio delay needs a sound track to shift, but the composition has none",
        )));
    }
    let trims = edits.trims();
    if trims && source.j2k_dir.is_none() {
        return Err(string_of(&chars_of(
            "a trim needs picture frames to measure against, but the composition has none",
        )));
    }
    let mut texts: Vec<String> = Vec::new();
    if trims {
        let mut i: usize = 0;
        while i < source.timed_text_files.len()
            invariant
                i <= source.timed_text_files.len(),
                texts@.len() == i,
                forall|k: int|
                    0 <= k < i ==> #[trigger] texts@[k]@ == indexed_name(
                        "trimmed_subtitle_"@,
                        k as nat,
                        ".xml"@,
                    ),
            decreases source.timed_text_files.len() - i,
        {
            texts.push(indexed("trimmed_subtitle_", i, ".xml"));
            i += 1;
        }
    }
    let mut steps: Vec<AudioSteps> = Vec::new();
    let mut j: usize = 0;
    while j < source.audio_files.len()
        invariant
            j <= source.audio_files.len(),
            trims == (edits.trim_start_frames > 0 || edits.trim_end_frames > 0),
            steps@.len() == j,
            forall|k: int|
                0 <= k < j ==> #[trigger] audio_steps_view(steps@[k]) == (
                    if edits.audio_delay_ms != 0 {
                        Some(indexed_name("delayed_audio_"@, k as nat, ".wav"@))
                    } else {
                        None
                    },
                    if trims {
                        Some(indexed_name("trimmed_audio_"@, k as nat, ".wav"@))
                    } else {
                        None
                    },
                ),
        decreases source.audio_files.len() - j,
    {
        let delayed = if edits.audio_delay_ms != 0 {
            Some(indexed("delayed_audio_", j, ".wav"))
        } else {
            None
        };
        let trimmed = if trims {
            Some(indexed("trimmed_audio_", j, ".wav"))
        } else {
            None
        };
        steps.push(AudioSteps { delayed, trimmed });
        j += 1;
    }
    Ok(EditPlan { unchanged: false, trim_picture: trims, timed_text_outputs: texts, audio_steps: steps })
}

/// The picture frames a trim keeps, `[head, frames - tail)`, given how many
/// frames the picture directory holds; or the refusal of a trim that leaves none.
pub fn kept_frames(edits: &SourceEdits, picture_path: &str, frames: u64) -> (r: Result<
    (u64, u64),
    String,
>)
    ensures
        edits.trim_start_frames + edits.trim_end_frames < frames ==> r == Ok::<(u64, u64), String>(
            (edits.trim_start_frames, (frames - edits.trim_end_frames) as u64),
        ),
        edits.trim_start_frames + edits.trim_end_frames >= frames ==> (r matches Err(e) && e@
            == picture_trim_refusal(
            edits.trim_start_frames,
            edits.trim_end_frames,
            frames,
            picture_path@,
        )),
{
    let facts = PictureFacts { path: string_of(&chars_of(picture_path)), frames };
    match check_picture_trim(edits, &facts) {
        Ok(()) => Ok((edits.trim_start_frames, frames - edits.trim_end_frames)),
        Err(e) => Err(e),
    }
}

// ---------------------------------------------------------------------------
// Timed-text cues
// ---------------------------------------------------------------------------

/// The lines a cue keeps: each trimmed, the empty ones dropped.
pub open spec fn kept_lines(ls: Seq<Seq<char>>) -> Seq<Seq<char>>
    decreases ls.len(),
{
    if ls.len() == 0 {
        Seq::empty()
    } else {
        let t = trim(ls.last());
        if t.len() > 0 {
            kept_lines(ls.drop_last()).push(t)
        } else {
            kept_lines(ls.drop_last())
        }
    }
}

/// A cue as read, its lines trimmed and the empty ones dropped.
pub fn finished_cue(cue: TimedTextCue) -> (r: TimedTextCue)
    ensures
        r.start_ms == cue.start_ms,
        r.end_ms == cue.end_ms,
        string_views(r.lines@) == kept_lines(string_views(cue.lines@)),
{
    let mut lines: Vec<String> = Vec::new();
    let ghost lv = string_views(cue.lines@);
    let mut i: usize = 0;
    assert(string_views(lines@) =~= Seq::<Seq<char>>::empty());
    while i < cue.lines.len()
        invariant
            i <= cue.lines.len(),
            lv == string_views(cue.lines@),
            string_views(lines@) == kept_lines(lv.take(i as int)),
        decreases cue.lines.len() - i,
    {
        assert(lv.take(i + 1).drop_last() =~= lv.take(i as int));
        assert(lv[i as int] == cue.lines@[i as int]@);
        let t = trim_chars(&chars_of(cue.lines[i].as_str()));
        if t.len() > 0 {
            let ghost before = string_views(lines@);
            lines.push(string_of(&t));
            assert(string_views(lines@) =~= before.push(t@));
        }
        i += 1;
    }
    assert(lv.take(cue.lines.len() as int) =~= lv);
    TimedTextCue { start_ms: cue.start_ms, end_ms: cue.end_ms, lines }
}


// ---------------------------------------------------------------------------
// Audio delay
// ---------------------------------------------------------------------------

/// `r` read as at least 1.
pub open spec fn at_least_one(r: nat) -> nat {
    if r == 0 {
        1
    } else {
        r
    }
}

/// The sample frames a delay of `delay_ms` shifts the sound by at
/// `sample_rate`: the nearest whole number to `|delay_ms| * rate / 1000`,
/// halves away from zero, saturated at `u64::MAX`.
pub open spec fn delay_shift_spec(delay_ms: int, sample_rate: nat) -> nat {
    let a = if delay_ms < 0 {
        -delay_ms
    } else {
        delay_ms
    };
    let q = ((2 * a * at_least_one(sample_rate) + 1000) / 2000) as nat;
    if q > u64::MAX {
        u64::MAX as nat
    } else {
        q
    }
}

/// How many sample frames a delay shifts the sound by.
pub fn delay_shift_frames(delay_ms: i64, sample_rate: u32) -> (r: u64)
    ensures
        r == delay_shift_spec(delay_ms as int, sample_rate as nat),
{
    let a: u128 = if delay_ms < 0 {
        (-(delay_ms as i128)) as u128
    } else {
        delay_ms as u128
    };
    let rate: u128 = if sample_rate == 0 {
        1
    } else {
        sample_rate as u128
    };
    assert(2 * a * rate + 1000 < 0x1_0000_0000_0000_0000_0000_0000_0000) by (nonlinear_arith)
        requires
            a <= 0x8000_0000_0000_0000,
            rate <= 0xffff_ffff,
    ;
    let q = (2 * a * rate + 1000) / 2000;
    if q > u64::MAX as u128 {
        u64::MAX
    } else {
        q as u64
    }
}

/// `n / d` rounded to the nearest whole number, halves to the even one, as
/// `{:.0}` prints it.
pub open spec fn nearest_even(n: nat, d: nat) -> nat {
    let q = n / d;
    let r = n % d;
    if 2 * r > d || (2 * r == d && q % 2 == 1) {
        q + 1
    } else {
        q
    }
}

/// How long a sound of `frames` sample frames at `rate` runs, in whole
/// milliseconds.
pub open spec fn programme_ms(frames: nat, rate: nat) -> nat {
    nearest_even(frames * 1000, at_least_one(rate))
}

pub open spec fn delay_refusal(delay_ms: int, frames: nat, rate: nat, path: Seq<char>) -> Seq<char> {
    "an audio delay of "@ + signed_decimal(delay_ms) + " ms is at least as long as the "@
        + decimal(programme_ms(frames, rate)) + " ms of sound in "@ + path
}

/// A delay has to leave some of the sound in the running time: it is refused
/// where it shifts by the whole sound or more.
pub fn check_audio_delay(delay_ms: i64, audio: &AudioFacts) -> (r: Result<(), String>)
    ensures
        (delay_ms == 0 || delay_shift_spec(delay_ms as int, audio.sample_rate as nat)
            < audio.sample_frames) ==> r is Ok,
        !(delay_ms == 0 || delay_shift_spec(delay_ms as int, audio.sample_rate as nat)
            < audio.sample_frames) ==> (r matches Err(e) && e@ == delay_refusal(
            delay_ms as int,
            audio.sample_frames as nat,
            audio.sample_rate as nat,
            audio.path@,
        )),
{
    if delay_ms == 0 || delay_shift_frames(delay_ms, audio.sample_rate) < audio.sample_frames {
        return Ok(());
    }
    let rate: u128 = if audio.sample_rate == 0 {
        1
    } else {
        audio.sample_rate as u128
    };
    let n: u128 = audio.sample_frames as u128 * 1000;
    let q = n / rate;
    let rem = n % rate;
    let ms: u128 = if 2 * rem > rate || (2 * rem == rate && q % 2 == 1) {
        q + 1
    } else {
        q
    };
    let mut m = chars_of("an audio delay of ");
    push_all(&mut m, &signed_decimal_chars(delay_ms));
    push_str(&mut m, " ms is at least as long as the ");
    push_all(&mut m, &decimal_chars_wide(ms));
    push_str(&mut m, " ms of sound in ");
    push_str(&mut m, audio.path.as_str());
    Err(string_of(&m))
}

/// `frames` frames of `channels` interleaved samples shifted by `shift`
/// frames in the same running time: shifted later, `shift` frames of `fill`
/// lead and the last `shift` frames fall off the end; shifted earlier, the
/// first `shift` frames fall off and `fill` trails.
pub open spec fn shifted_spec<T>(
    s: Seq<T>,
    shift: nat,
    channels: nat,
    frames: nat,
    later: bool,
    fill: T,
) -> Seq<T> {
    let total = frames * channels;
    let lead = shift * channels;
    Seq::new(
        total,
        |i: int|
            if later {
                if i < lead {
                    fill
                } else {
                    s[i - lead]
                }
            } else {
                if i < total - lead {
                    s[i + lead]
                } else {
                    fill
                }
            },
    )
}

/// Shift interleaved samples by whole frames, copied untouched, so the output
/// is as long as the input's `frames` frames.
pub fn shifted_window<T: Copy>(
    samples: &[T],
    shift: usize,
    channels: usize,
    frames: usize,
    later: bool,
    fill: T,
) -> (r: Vec<T>)
    requires
        shift <= frames,
        frames * channels <= samples@.len(),
    ensures
        r@.len() == frames * channels,
        r@ == shifted_spec(samples@, shift as nat, channels as nat, frames as nat, later, fill),
{
    let n = samples.len();
    assert(frames * channels <= n);
    let total = frames * channels;
    assert(shift * channels <= frames * channels) by (nonlinear_arith)
        requires
            shift <= frames,
    ;
    let lead = shift * channels;
    let ghost want = shifted_spec(samples@, shift as nat, channels as nat, frames as nat, later, fill);
    let mut out: Vec<T> = Vec::new();
    let mut i: usize = 0;
    while i < total
        invariant
            i <= total,
            total == frames * channels,
            lead == shift * channels,
            lead <= total,
            total <= samples@.len(),
            want == shifted_spec(samples@, shift as nat, channels as nat, frames as nat, later, fill),
            out@ == want.take(i as int),
        decreases total - i,
    {
        let x: T = if later {
            if i < lead {
                fill
            } else {
                samples[i - lead]
            }
        } else {
            if i < total - lead {
                samples[i + lead]
            } else {
                fill
            }
        };
        out.push(x);
        i += 1;
        assert(out@ =~= want.take(i as int));
    }
    assert(want.take(total as int) =~= want);
    out
}

/// What a delay does to a sound's interleaved samples: with `channels` (0 read
/// as 1) and `sample_rate` (0 read as 1), the delay is refused where it shifts
/// by the whole sound, and otherwise the samples move by the delay's frames,
/// later for a positive (or zero) delay and earlier for a negative one, the
/// running time unchanged.
pub fn delayed_samples<T: Copy>(
    samples: &[T],
    channels: u16,
    sample_rate: u32,
    delay_ms: i64,
    path: &str,
    fill: T,
) -> (r: Result<Vec<T>, String>)
    ensures
        ({
            let ch = at_least_one(channels as nat);
            let rate = at_least_one(sample_rate as nat);
            let frames = samples@.len() / ch;
            let shift = delay_shift_spec(delay_ms as int, rate);
            if delay_ms == 0 || shift < frames {
                r matches Ok(v) && v@.len() == frames * ch && v@ == shifted_spec(
                    samples@,
                    if delay_ms == 0 {
                        0
                    } else {
                        shift
                    },
                    ch,
                    frames,
                    delay_ms >= 0,
                    fill,
                )
            } else {
                r matches Err(e) && e@ == delay_refusal(delay_ms as int, frames, rate, path@)
            }
        }),
{
    let ch: usize = if channels == 0 {
        1
    } else {
        channels as usize
    };
    let rate: u32 = if sample_rate == 0 {
        1
    } else {
        sample_rate
    };
    let frames: usize = samples.len() / ch;
    let n = samples.len();
    assert(frames * ch <= samples@.len()) by (nonlinear_arith)
        requires
            frames == samples@.len() / (ch as nat),
            ch > 0,
    ;
    let facts = AudioFacts {
        path: string_of(&chars_of(path)),
        sample_frames: frames as u64,
        sample_rate: rate,
    };
    match check_audio_delay(delay_ms, &facts) {
        Err(e) => Err(e),
        Ok(()) => {
            let shift: usize = if delay_ms == 0 {
                0
            } else {
                delay_shift_frames(delay_ms, rate) as usize
            };
            Ok(shifted_window(samples, shift, ch, frames, delay_ms >= 0, fill))
        },
    }
}

// ---------------------------------------------------------------------------
// The plan-time check
// ---------------------------------------------------------------------------

/// The source lengths the edit refusals measure against: the picture, each
/// sound file, and the edit rate the trim's frame counts are in.
#[derive(Debug, Clone)]
pub struct SourceFacts {
    pub picture: Option<PictureFacts>,
    pub audio: Vec<AudioFacts>,
    pub fps_num: u32,
    pub fps_den: u32,
}

/// `picture_frames` picture frames at `fps_num / fps_den` (each read as at
/// least 1) as sample frames at `sample_rate`: the nearest whole number,
/// halves away from zero, saturated at `u64::MAX`.
pub open spec fn trim_samples_spec(picture_frames: nat, sample_rate: nat, fps_num: nat, fps_den: nat) -> nat {
    let num = at_least_one(fps_num);
    let q = ((2 * picture_frames * at_least_one(fps_den) * sample_rate + num) / (2 * num)) as nat;
    if q > u64::MAX {
        u64::MAX as nat
    } else {
        q
    }
}

/// A trim cuts the sound by the picture's duration: the sample frames it
/// takes are the nearest whole number to what the trimmed picture frames
/// last at the sample rate (off by at most half a sample frame), wherever
/// that fits in `u64`.
pub proof fn law_trim_cuts_sound_by_the_picture_duration(
    picture_frames: nat,
    sample_rate: nat,
    fps_num: nat,
    fps_den: nat,
)
    requires
        ((2 * picture_frames * at_least_one(fps_den) * sample_rate + at_least_one(fps_num)) / (2
            * at_least_one(fps_num))) <= u64::MAX,
    ensures
        ({
            let num = at_least_one(fps_num);
            let exact = picture_frames * at_least_one(fps_den) * sample_rate;
            let q = trim_samples_spec(picture_frames, sample_rate, fps_num, fps_den);
            2 * q * num <= 2 * exact + num && 2 * exact < 2 * q * num + num
        }),
{
    let num = at_least_one(fps_num);
    let exact = picture_frames * at_least_one(fps_den) * sample_rate;
    let q = (2 * exact + num) / (2 * num);
    assert(2 * picture_frames * at_least_one(fps_den) * sample_rate == 2 * exact) by (nonlinear_arith)
        requires
            exact == picture_frames * at_least_one(fps_den) * sample_rate,
    ;
    assert(q * (2 * num) <= 2 * exact + num && 2 * exact + num < q * (2 * num) + 2 * num) by (nonlinear_arith)
        requires
            num >= 1,
            q == (2 * exact + num) / (2 * num),
            exact >= 0,
    ;
    assert(2 * q * num == q * (2 * num)) by (nonlinear_arith);
}

proof fn lemma_trim_samples_big(a: int, rate: int, num: int, limit: int)
    requires
        1 <= rate <= 0xffff_ffff,
        1 <= num <= 0xffff_ffff,
        limit == (0xffff_ffff_ffff_ffff_ffff_ffff_ffff_ffff - num) / (2 * rate),
        a > limit,
    ensures
        (2 * a * rate + num) / (2 * num) > 0xffff_ffff_ffff_ffff,
{
    assert((limit + 1) * (2 * rate) > 0xffff_ffff_ffff_ffff_ffff_ffff_ffff_ffff - num) by (nonlinear_arith)
        requires
            limit == (0xffff_ffff_ffff_ffff_ffff_ffff_ffff_ffff - num) / (2 * rate),
            rate >= 1,
    ;
    assert(2 * a * rate >= (limit + 1) * (2 * rate)) by (nonlinear_arith)
        requires
            a >= limit + 1,
            rate >= 1,
    ;
    assert((2 * a * rate + num) / (2 * num) > 0xffff_ffff_ffff_ffff) by (nonlinear_arith)
        requires
            2 * a * rate + num > 0xffff_ffff_ffff_ffff_ffff_ffff_ffff_ffff,
            1 <= num <= 0xffff_ffff,
    ;
}

/// A trim's picture frames as sample frames, measured through the edit rate.
pub fn trim_sample_frames_of(picture_frames: u64, sample_rate: u32, fps_num: u32, fps_den: u32) -> (r: u64)
    ensures
        r == trim_samples_spec(picture_frames as nat, sample_rate as nat, fps_num as nat, fps_den as nat),
{
    let num: u128 = if fps_num == 0 {
        1
    } else {
        fps_num as u128
    };
    let den: u128 = if fps_den == 0 {
        1
    } else {
        fps_den as u128
    };
    if sample_rate == 0 {
        assert(2 * picture_frames * den * 0 == 0) by (nonlinear_arith);
        assert((0 + num) / (2 * num) == 0) by (nonlinear_arith)
            requires
                num >= 1,
        ;
        return 0;
    }
    let rate = sample_rate as u128;
    assert(picture_frames as u128 * den <= 0xffff_ffff_ffff_ffff_ffff_ffff) by (nonlinear_arith)
        requires
            picture_frames <= 0xffff_ffff_ffff_ffff,
            den <= 0xffff_ffff,
    ;
    let a: u128 = picture_frames as u128 * den;
    let limit: u128 = (u128::MAX - num) / (2 * rate);
    if a > limit {
        proof {
            lemma_trim_samples_big(a as int, rate as int, num as int, limit as int);
            assert(2 * picture_frames * den * rate == 2 * a * rate) by (nonlinear_arith)
                requires
                    a == picture_frames * den,
            ;
        }
        return u64::MAX;
    }
    assert(2 * a * rate + num <= u128::MAX) by (nonlinear_arith)
        requires
            a <= limit,
            limit == (u128::MAX - num) / (2 * rate),
            rate >= 1,
    ;
    let q = (2 * a * rate + num) / (2 * num);
    proof {
        assert(2 * picture_frames * den * rate == 2 * a * rate) by (nonlinear_arith)
            requires
                a == picture_frames * den,
        ;
    }
    if q > u64::MAX as u128 {
        u64::MAX
    } else {
        q as u64
    }
}

pub open spec fn audio_trim_refusal(head: nat, tail: nat, frames: nat, path: Seq<char>) -> Seq<char> {
    "trimming "@ + decimal(head) + " + "@ + decimal(tail) + " sample frames leaves nothing of the "@
        + decimal(frames) + " in "@ + path
}

/// What a trim leaves of one sound file: refused where the head and tail, as
/// sample frames, take it all.
pub open spec fn audio_trim_spec(edits: SourceEdits, audio: AudioFacts, fps_num: u32, fps_den: u32) -> Result<
    (),
    Seq<char>,
> {
    let head = trim_samples_spec(edits.trim_start_frames as nat, audio.sample_rate as nat, fps_num as nat, fps_den as nat);
    let tail = trim_samples_spec(edits.trim_end_frames as nat, audio.sample_rate as nat, fps_num as nat, fps_den as nat);
    if !(edits.trim_start_frames > 0 || edits.trim_end_frames > 0) || head + tail < audio.sample_frames {
        Ok(())
    } else {
        Err(audio_trim_refusal(head, tail, audio.sample_frames as nat, audio.path@))
    }
}

pub fn check_audio_trim(edits: &SourceEdits, audio: &AudioFacts, fps_num: u32, fps_den: u32) -> (r: Result<
    (),
    String,
>)
    ensures
        match audio_trim_spec(*edits, *audio, fps_num, fps_den) {
            Ok(()) => r is Ok,
            Err(m) => r matches Err(e) && e@ == m,
        },
{
    if !edits.trims() {
        return Ok(());
    }
    let head = trim_sample_frames_of(edits.trim_start_frames, audio.sample_rate, fps_num, fps_den);
    let tail = trim_sample_frames_of(edits.trim_end_frames, audio.sample_rate, fps_num, fps_den);
    if (head as u128) + (tail as u128) < audio.sample_frames as u128 {
        return Ok(());
    }
    let mut m = chars_of("trimming ");
    push_all(&mut m, &decimal_chars(head));
    push_str(&mut m, " + ");
    push_all(&mut m, &decimal_chars(tail));
    push_str(&mut m, " sample frames leaves nothing of the ");
    push_all(&mut m, &decimal_chars(audio.sample_frames));
    push_str(&mut m, " in ");
    push_str(&mut m, audio.path.as_str());
    Err(string_of(&m))
}

/// The delay refusal of one sound file.
pub open spec fn audio_delay_spec(delay_ms: i64, audio: AudioFacts) -> Result<(), Seq<char>> {
    if delay_ms == 0 || delay_shift_spec(delay_ms as int, audio.sample_rate as nat) < audio.sample_frames {
        Ok(())
    } else {
        Err(delay_refusal(delay_ms as int, audio.sample_frames as nat, audio.sample_rate as nat, audio.path@))
    }
}

/// The first refusal among the first `n` sound files: each file's delay, then
/// its trim.
pub open spec fn audio_refusals(edits: SourceEdits, audio: Seq<AudioFacts>, fps_num: u32, fps_den: u32, n: int) -> Result<
    (),
    Seq<char>,
>
    decreases n,
{
    if n <= 0 {
        Ok(())
    } else {
        match audio_refusals(edits, audio, fps_num, fps_den, n - 1) {
            Err(e) => Err(e),
            Ok(()) => match audio_delay_spec(edits.audio_delay_ms, audio[n - 1]) {
                Err(e) => Err(e),
                Ok(()) => audio_trim_spec(edits, audio[n - 1], fps_num, fps_den),
            },
        }
    }
}

/// The edits' first refusal, or none: a delay with no sound, a trim with no
/// picture or one that leaves no picture, then each sound file's delay and
/// trim.
pub open spec fn edits_check_spec(edits: SourceEdits, facts: SourceFacts) -> Result<(), Seq<char>> {
    if edits.audio_delay_ms != 0 && facts.audio@.len() == 0 {
        Err(no_sound_to_delay())
    } else if (edits.trim_start_frames > 0 || edits.trim_end_frames > 0) && facts.picture is None {
        Err(no_picture_to_trim())
    } else if (edits.trim_start_frames > 0 || edits.trim_end_frames > 0) && edits.trim_start_frames
        + edits.trim_end_frames >= facts.picture->0.frames {
        Err(
            picture_trim_refusal(
                edits.trim_start_frames,
                edits.trim_end_frames,
                facts.picture->0.frames,
                facts.picture->0.path@,
            ),
        )
    } else {
        audio_refusals(edits, facts.audio@, facts.fps_num, facts.fps_den, facts.audio@.len() as int)
    }
}

proof fn lemma_audio_refusals_err(
    edits: SourceEdits,
    audio: Seq<AudioFacts>,
    fps_num: u32,
    fps_den: u32,
    a: int,
    b: int,
)
    requires
        0 <= a <= b,
        audio_refusals(edits, audio, fps_num, fps_den, a) is Err,
    ensures
        audio_refusals(edits, audio, fps_num, fps_den, b) == audio_refusals(edits, audio, fps_num, fps_den, a),
    decreases b - a,
{
    if b > a {
        lemma_audio_refusals_err(edits, audio, fps_num, fps_den, a, b - 1);
    }
}

/// Refuse every edit the source cannot absorb, before anything is encoded.
pub fn check_edits(edits: &SourceEdits, facts: &SourceFacts) -> (r: Result<(), String>)
    ensures
        match edits_check_spec(*edits, *facts) {
            Ok(()) => r is Ok,
            Err(m) => r matches Err(e) && e@ == m,
        },
{
    let picture = match &facts.picture {
        Some(p) => Some(p),
        None => None,
    };
    match check_edit_sources(edits, picture, facts.audio.len() > 0) {
        Err(e) => return Err(e),
        Ok(()) => {},
    }
    let mut i: usize = 0;
    while i < facts.audio.len()
        invariant
            i <= facts.audio@.len(),
            audio_refusals(*edits, facts.audio@, facts.fps_num, facts.fps_den, i as int) is Ok,
            edits_check_spec(*edits, *facts) == audio_refusals(
                *edits,
                facts.audio@,
                facts.fps_num,
                facts.fps_den,
                facts.audio@.len() as int,
            ),
        decreases facts.audio.len() - i,
    {
        match check_audio_delay(edits.audio_delay_ms, &facts.audio[i]) {
            Err(e) => {
                proof {
                    lemma_audio_refusals_err(*edits, facts.audio@, facts.fps_num, facts.fps_den, i + 1, facts.audio@.len() as int);
                }
                return Err(e);
            },
            Ok(()) => {},
        }
        match check_audio_trim(edits, &facts.audio[i], facts.fps_num, facts.fps_den) {
            Err(e) => {
                proof {
                    lemma_audio_refusals_err(*edits, facts.audio@, facts.fps_num, facts.fps_den, i + 1, facts.audio@.len() as int);
                }
                return Err(e);
            },
            Ok(()) => {},
        }
        i += 1;
    }
    Ok(())
}

// ---------------------------------------------------------------------------
// Timed-text times
// ---------------------------------------------------------------------------

/// The refusal of a subtitle time that cannot be read.
pub open spec fn unreadable_time_spec(value: Seq<char>) -> Seq<char> {
    "cannot read the subtitle time '"@ + value
        + "': expected a clock time like 00:00:01.500 or an offset like 0.8s"@
}

pub fn unreadable_time(value: &str) -> (r: String)
    ensures
        r@ == unreadable_time_spec(value@),
{
    let mut m = chars_of("cannot read the subtitle time '");
    push_str(&mut m, value);
    push_str(&mut m, "': expected a clock time like 00:00:01.500 or an offset like 0.8s");
    string_of(&m)
}

/// The metric of a TTML offset time ("0.8s", "40f", "1500ms"): the first of
/// `ms`, `h`, `m`, `s`, `f`, `t` the value ends with; none for a clock time
/// (one with a `:`) or a value with no metric.
pub open spec fn offset_metric_spec(value: Seq<char>) -> Option<Seq<char>> {
    if contains(value, ":"@) {
        None
    } else if ends_with(value, "ms"@) {
        Some("ms"@)
    } else if ends_with(value, "h"@) {
        Some("h"@)
    } else if ends_with(value, "m"@) {
        Some("m"@)
    } else if ends_with(value, "s"@) {
        Some("s"@)
    } else if ends_with(value, "f"@) {
        Some("f"@)
    } else if ends_with(value, "t"@) {
        Some("t"@)
    } else {
        None
    }
}

pub fn offset_metric(value: &str) -> (r: Option<&'static str>)
    ensures
        match offset_metric_spec(value@) {
            Some(m) => r matches Some(x) && x@ == m,
            None => r is None,
        },
{
    let v = chars_of(value);
    if contains_str(&v, ":") {
        return None;
    }
    if ends_with_chars(&v, &chars_of("ms")) {
        return Some("ms");
    }
    if ends_with_chars(&v, &chars_of("h")) {
        return Some("h");
    }
    if ends_with_chars(&v, &chars_of("m")) {
        return Some("m");
    }
    if ends_with_chars(&v, &chars_of("s")) {
        return Some("s");
    }
    if ends_with_chars(&v, &chars_of("f")) {
        return Some("f");
    }
    if ends_with_chars(&v, &chars_of("t")) {
        return Some("t");
    }
    None
}

/// An extension (lower-cased) the encoder enumerates as a picture frame in a
/// directory.
pub open spec fn is_frame_extension(l: Seq<char>) -> bool {
    l == "j2c"@ || l == "j2k"@ || l == "tif"@ || l == "tiff"@ || l == "dpx"@ || l == "exr"@ || l
        == "bmp"@
}

/// How many of a directory's entries, given by their extensions, are picture
/// frames.
pub open spec fn frame_entries(exts: Seq<Option<Seq<char>>>) -> nat
    decreases exts.len(),
{
    if exts.len() == 0 {
        0
    } else {
        frame_entries(exts.drop_last()) + match exts.last() {
            Some(e) => if is_frame_extension(unicode_lower(e)) {
                1nat
            } else {
                0nat
            },
            None => 0nat,
        }
    }
}

pub open spec fn ext_views(v: Seq<Option<String>>) -> Seq<Option<Seq<char>>> {
    v.map_values(
        |o: Option<String>|
            match o {
                Some(s) => Some(s@),
                None => None,
            },
    )
}

/// The frame count of a picture directory: how many of its entries, given
/// by their extensions (`None` where an entry has none that is text), are
/// picture frames; a directory with none is refused.
pub fn directory_frame_count(dir: &str, extensions: &Vec<Option<String>>) -> (r: Result<u64, String>)
    ensures
        frame_entries(ext_views(extensions@)) == 0 ==> (r matches Err(e) && e@ == "no picture frames in "@
            + dir@),
        frame_entries(ext_views(extensions@)) > 0 ==> r == Ok::<u64, String>(
            frame_entries(ext_views(extensions@)) as u64,
        ),
{
    let ghost exts = ext_views(extensions@);
    let mut count: u64 = 0;
    let mut i: usize = 0;
    while i < extensions.len()
        invariant
            i <= extensions.len(),
            exts == ext_views(extensions@),
            count as nat == frame_entries(exts.take(i as int)),
            count <= i,
        decreases extensions.len() - i,
    {
        proof {
            assert(exts.take(i + 1).drop_last() =~= exts.take(i as int));
            assert(exts.take(i + 1).last() == exts[i as int]);
        }
        match &extensions[i] {
            Some(e) => {
                let l = chars_of(to_lowercase(e.as_str()).as_str());
                if eq_str(&l, "j2c") || eq_str(&l, "j2k") || eq_str(&l, "tif") || eq_str(&l, "tiff")
                    || eq_str(&l, "dpx") || eq_str(&l, "exr") || eq_str(&l, "bmp") {
                    count += 1;
                }
            },
            None => {},
        }
        i += 1;
    }
    assert(exts.take(extensions.len() as int) =~= exts);
    if count == 0 {
        let mut m = chars_of("no picture frames in ");
        push_str(&mut m, dir);
        return Err(string_of(&m));
    }
    Ok(count)
}

/// The refusal of a video whose length ffprobe could not report.
pub open spec fn unmeasured_video(picture: Seq<char>) -> Seq<char> {
    "cannot read how long "@ + picture + " runs, so a trim cannot be measured against it"@
}

/// What ffprobe's length report says of a video: the stream's frame count on
/// its first line where that is a positive whole number, else the container
/// duration in seconds on its second, to the nearest frame at `fps_num /
/// fps_den`.
pub open spec fn probed_frames(stdout: Seq<char>, fps_num: u32, fps_den: u32) -> Option<nat> {
    let ls = lines(stdout);
    let counted = if ls.len() > 0 {
        parse_unsigned(trim(ls[0]), u64::MAX as nat)
    } else {
        None
    };
    match counted {
        Some(n) if n > 0 => Some(n),
        _ => if ls.len() > 1 {
            seconds_frames(trim(ls[1]), fps_num, fps_den)
        } else {
            None
        },
    }
}

/// The frame count of a video source from ffprobe's length report (`stdout`
/// of a run that succeeded where `probe_ok`); a run that failed or a report
/// with neither a count nor a duration is refused, naming the source.
pub fn video_frame_count(picture: &str, probe_ok: bool, stdout: &str, fps_num: u32, fps_den: u32) -> (r:
    Result<u64, String>)
    ensures
        match (probe_ok, probed_frames(stdout@, fps_num, fps_den)) {
            (true, Some(n)) => r matches Ok(v) && v as nat == n,
            _ => r matches Err(e) && e@ == unmeasured_video(picture@),
        },
{
    let mut m = chars_of("cannot read how long ");
    push_str(&mut m, picture);
    push_str(&mut m, " runs, so a trim cannot be measured against it");
    if !probe_ok {
        return Err(string_of(&m));
    }
    let ls = lines_chars(&chars_of(stdout));
    if ls.len() > 0 {
        match parse_u64(&trim_chars(&ls[0])) {
            Some(n) => {
                if n > 0 {
                    return Ok(n);
                }
            },
            None => {},
        }
    }
    if ls.len() > 1 {
        match parse_seconds(&trim_chars(&ls[1]), fps_num, fps_den) {
            Some(f) => {
                return Ok(f);
            },
            None => {},
        }
    }
    Err(string_of(&m))
}

} // verus!
