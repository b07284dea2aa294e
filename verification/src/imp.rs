//! The IMP's compositions and tracks, and the language tags audio carries.
use vstd::prelude::*;
use crate::hdr_wcg::HdrWcg;
use crate::text::{
    ascii_lower, chars_of, eq_str, is_alnum, is_alpha, is_ascii_alnum, is_ascii_alpha,
    lowercase_chars, push_str, string_of, unicode_lower, contains, rfind, string_views,
};
use crate::EssenceType;

verus! {

/// Accessibility role of an audio track, carried in the CPL as an MCA essence
/// descriptor (ST 2067-2/-3). None is normal main audio.
#[derive(Debug, Clone, Copy, PartialEq, Eq, Structural)]
pub enum AudioRole {
    /// AD: visually impaired narration (MCA chVIN)
    AudioDescription,
    /// HI: hearing impaired mix (MCA chHI)
    HearingImpaired,
}

impl AudioRole {
    /// Parse a CLI role selector; None for an unknown value.
    pub fn from_flag(s: &str) -> (r: Option<Self>)
        ensures
            r == (if unicode_lower(s@) == "ad"@ || unicode_lower(s@) == "vi"@ {
                Some(AudioRole::AudioDescription)
            } else if unicode_lower(s@) == "hi"@ {
                Some(AudioRole::HearingImpaired)
            } else {
                None
            }),
    {
        let l = lowercase_chars(s);
        if eq_str(&l, "ad") || eq_str(&l, "vi") {
            Some(AudioRole::AudioDescription)
        } else if eq_str(&l, "hi") {
            Some(AudioRole::HearingImpaired)
        } else {
            None
        }
    }
}

/// One audio track and its RFC 5646 language tag (e.g. "de-DE").
#[derive(Debug, Clone, Default)]
pub struct AudioTrack {
    pub path: String,
    pub language: Option<String>,
    /// Accessibility role; None is normal main audio.
    pub role: Option<AudioRole>,
}

/// One composition in an IMP. Each becomes a separate CPL sharing one PKL/ASSETMAP.
#[derive(Debug, Clone, Default)]
pub struct Composition {
    pub title: String,
    pub content_kind: String,
    /// J2K codestream directory
    pub j2k_dir: Option<String>,
    /// WAV audio tracks
    pub audio_files: Vec<AudioTrack>,
    /// Timed text files
    pub timed_text_files: Vec<String>,
    /// HDR/WCG picture metadata (ST 2067-21); None is SDR.
    pub hdr: Option<HdrWcg>,
}

/// IMP creation options.
#[derive(Debug, Clone, Default)]
pub struct ImpOptions {
    pub output_dir: String,
    /// One or more compositions, each written as its own CPL.
    pub compositions: Vec<Composition>,
    pub fps_num: u32,
    pub fps_den: u32,
    pub edit_rate: String,
    /// Duration in frames
    pub duration: u64,
}

/// A CPL written into the IMP, referenced by the shared PKL and ASSETMAP.
#[derive(Debug, Clone)]
pub struct CplEntry {
    pub uuid: String,
    pub path: String,
}

/// IMP creation result.
#[derive(Debug, Clone, Default)]
pub struct ImpResult {
    pub success: bool,
    pub error: String,
    pub output_dir: String,
    pub cpl_paths: Vec<String>,
    pub pkl_path: String,
    pub assetmap_path: String,
    pub track_files: Vec<crate::MxfTrackFile>,
}

/// Length of the primary subtag: up to the first `-`.
pub open spec fn primary_len(t: Seq<char>) -> int
    decreases t.len(),
{
    if t.len() == 0 || t[0] == '-' {
        0
    } else {
        1 + primary_len(t.drop_first())
    }
}

/// Whether `t` passes the RFC 5646 sanity check: non-empty, hyphen-separated
/// alphanumeric subtags (none empty), the first 2-8 letters.
pub open spec fn language_tag_ok(t: Seq<char>) -> bool {
    &&& t.len() > 0
    &&& t[0] != '-'
    &&& t.last() != '-'
    &&& forall|i: int| 0 <= i < t.len() ==> is_ascii_alnum(#[trigger] t[i]) || t[i] == '-'
    &&& forall|i: int| 0 <= i < t.len() - 1 && #[trigger] t[i] == '-' ==> t[i + 1] != '-'
    &&& 2 <= primary_len(t) <= 8
    &&& forall|i: int| 0 <= i < primary_len(t) ==> is_ascii_alpha(#[trigger] t[i])
}

proof fn lemma_primary_len(t: Seq<char>)
    ensures
        0 <= primary_len(t) <= t.len(),
        forall|i: int| 0 <= i < primary_len(t) ==> #[trigger] t[i] != '-',
        primary_len(t) < t.len() ==> t[primary_len(t)] == '-',
    decreases t.len(),
{
    if t.len() > 0 && t[0] != '-' {
        lemma_primary_len(t.drop_first());
        assert forall|i: int| 0 <= i < primary_len(t) implies #[trigger] t[i] != '-' by {
            if i > 0 {
                assert(t[i] == t.drop_first()[i - 1]);
            }
        }
    }
}

proof fn lemma_primary_len_unique(t: Seq<char>, n: int)
    requires
        0 <= n <= t.len(),
        forall|i: int| 0 <= i < n ==> #[trigger] t[i] != '-',
        n < t.len() ==> t[n] == '-',
    ensures
        primary_len(t) == n,
    decreases t.len(),
{
    if n > 0 {
        assert forall|i: int| 0 <= i < n - 1 implies #[trigger] t.drop_first()[i] != '-' by {
            assert(t.drop_first()[i] == t[i + 1]);
        }
        if n - 1 < t.drop_first().len() {
            assert(t.drop_first()[n - 1] == t[n]);
        }
        lemma_primary_len_unique(t.drop_first(), n - 1);
    }
}

/// Validate an RFC 5646 language tag well enough to reject obvious garbage.
/// Not a full BCP 47 parser: checks subtags are alphanumeric, hyphen-separated,
/// with a 2-8 letter primary subtag.
pub fn validate_language(tag: &str) -> (r: Result<(), String>)
    ensures
        language_tag_ok(tag@) ==> r is Ok,
        !language_tag_ok(tag@) ==> (r matches Err(e) && e@ == "invalid RFC 5646 language tag: "@
            + tag@),
{
    let t = chars_of(tag);
    let n = t.len();
    let mut ok: bool = n > 0 && t[0] != '-' && t[n - 1] != '-';
    let mut i: usize = 0;
    while i < n
        invariant
            n == t@.len(),
            i <= n,
            ok ==> forall|k: int| 0 <= k < i ==> is_ascii_alnum(#[trigger] t@[k]) || t@[k] == '-',
            ok ==> forall|k: int| 0 <= k < i && k < n - 1 && #[trigger] t@[k] == '-' ==> t@[k + 1]
                != '-',
            !ok ==> !language_tag_ok(t@),
            ok ==> n > 0 && t@[0] != '-' && t@.last() != '-',
        decreases n - i,
    {
        let c = t[i];
        if !(is_alnum(c) || c == '-') {
            ok = false;
        } else if c == '-' && i + 1 < n && t[i + 1] == '-' {
            assert(t@[i as int] == '-');
            ok = false;
        }
        i += 1;
    }
    let mut p: usize = 0;
    while p < n && t[p] != '-'
        invariant
            p <= n,
            n == t@.len(),
            forall|k: int| 0 <= k < p ==> #[trigger] t@[k] != '-',
        decreases n - p,
    {
        p += 1;
    }
    proof {
        lemma_primary_len_unique(t@, p as int);
    }
    let mut alpha = 2 <= p && p <= 8;
    let mut k: usize = 0;
    while k < p
        invariant
            p <= n,
            n == t@.len(),
            k <= p,
            alpha ==> 2 <= p <= 8,
            alpha ==> forall|j: int| 0 <= j < k ==> is_ascii_alpha(#[trigger] t@[j]),
            !alpha ==> !(2 <= p <= 8 && forall|j: int|
                0 <= j < p ==> is_ascii_alpha(#[trigger] t@[j])),
        decreases p - k,
    {
        if !is_alpha(t[k]) {
            alpha = false;
        }
        k += 1;
    }
    if !ok || !alpha {
        let mut msg = chars_of("invalid RFC 5646 language tag: ");
        push_str(&mut msg, tag);
        return Err(string_of(&msg));
    }
    assert(language_tag_ok(t@));
    Ok(())
}

// ---------------------------------------------------------------------------
// Checking a request, and what gets wrapped
// ---------------------------------------------------------------------------

pub open spec fn picture_required() -> Seq<char> {
    "A J2K input directory is required"@
}

pub open spec fn language_refusal(tag: Seq<char>) -> Seq<char> {
    "invalid RFC 5646 language tag: "@ + tag
}

/// The first audio track among the first `n` of `audio` whose language tag is
/// refused.
pub open spec fn audio_language_error(audio: Seq<AudioTrack>, n: int) -> Option<Seq<char>>
    decreases n,
{
    if n <= 0 {
        None
    } else {
        match audio_language_error(audio, n - 1) {
            Some(e) => Some(e),
            None => match audio[n - 1].language {
                Some(l) => if language_tag_ok(l@) {
                    None
                } else {
                    Some(language_refusal(l@))
                },
                None => None,
            },
        }
    }
}

/// The first refused language tag among the first `n` compositions.
pub open spec fn languages_error(comps: Seq<Composition>, n: int) -> Option<Seq<char>>
    decreases n,
{
    if n <= 0 {
        None
    } else {
        match languages_error(comps, n - 1) {
            Some(e) => Some(e),
            None => audio_language_error(comps[n - 1].audio_files@, comps[n - 1].audio_files@.len() as int),
        }
    }
}

/// The first composition among the first `n` with no J2K directory, or one
/// that is not there (`dir_exists`).
pub open spec fn picture_dir_error(comps: Seq<Composition>, dir_exists: Seq<bool>, n: int) -> Option<Seq<char>>
    decreases n,
{
    if n <= 0 {
        None
    } else {
        match picture_dir_error(comps, dir_exists, n - 1) {
            Some(e) => Some(e),
            None => match comps[n - 1].j2k_dir {
                None => Some(picture_required()),
                Some(d) => if dir_exists[n - 1] {
                    None
                } else {
                    Some("J2K input directory not found: "@ + d@)
                },
            },
        }
    }
}

/// What an IMP request is refused for before anything is wrapped: no
/// composition; then the first audio language tag that is refused; then the
/// first composition without its J2K directory.
pub open spec fn imp_request_spec(comps: Seq<Composition>, dir_exists: Seq<bool>) -> Result<(), Seq<char>> {
    if comps.len() == 0 {
        Err(picture_required())
    } else {
        match languages_error(comps, comps.len() as int) {
            Some(e) => Err(e),
            None => match picture_dir_error(comps, dir_exists, comps.len() as int) {
                Some(e) => Err(e),
                None => Ok(()),
            },
        }
    }
}

fn audio_languages(audio: &Vec<AudioTrack>) -> (r: Result<(), String>)
    ensures
        match audio_language_error(audio@, audio@.len() as int) {
            Some(m) => r matches Err(e) && e@ == m,
            None => r is Ok,
        },
{
    let mut i: usize = 0;
    while i < audio.len()
        invariant
            i <= audio@.len(),
            audio_language_error(audio@, i as int) is None,
        decreases audio.len() - i,
    {
        match &audio[i].language {
            Some(l) => match validate_language(l.as_str()) {
                Err(e) => {
                    proof {
                        lemma_audio_language_error_stays(audio@, i + 1, audio@.len() as int);
                    }
                    return Err(e);
                },
                Ok(()) => {},
            },
            None => {},
        }
        i += 1;
    }
    Ok(())
}

proof fn lemma_audio_language_error_stays(audio: Seq<AudioTrack>, a: int, b: int)
    requires
        0 <= a <= b,
        audio_language_error(audio, a) is Some,
    ensures
        audio_language_error(audio, b) == audio_language_error(audio, a),
    decreases b - a,
{
    if b > a {
        lemma_audio_language_error_stays(audio, a, b - 1);
    }
}

proof fn lemma_languages_error_stays(comps: Seq<Composition>, a: int, b: int)
    requires
        0 <= a <= b,
        languages_error(comps, a) is Some,
    ensures
        languages_error(comps, b) == languages_error(comps, a),
    decreases b - a,
{
    if b > a {
        lemma_languages_error_stays(comps, a, b - 1);
    }
}

proof fn lemma_picture_dir_error_stays(comps: Seq<Composition>, exists: Seq<bool>, a: int, b: int)
    requires
        0 <= a <= b,
        picture_dir_error(comps, exists, a) is Some,
    ensures
        picture_dir_error(comps, exists, b) == picture_dir_error(comps, exists, a),
    decreases b - a,
{
    if b > a {
        lemma_picture_dir_error_stays(comps, exists, a, b - 1);
    }
}

/// Check an IMP request before anything is wrapped, so it fails before any
/// output exists; `dir_exists` says, per composition, whether its J2K
/// directory is there.
pub fn check_imp_request(opts: &ImpOptions, dir_exists: &Vec<bool>) -> (r: Result<(), String>)
    requires
        dir_exists@.len() == opts.compositions@.len(),
    ensures
        match imp_request_spec(opts.compositions@, dir_exists@) {
            Ok(()) => r is Ok,
            Err(m) => r matches Err(e) && e@ == m,
        },
{
    if opts.compositions.len() == 0 {
        return Err(string_of(&chars_of("A J2K input directory is required")));
    }
    let mut i: usize = 0;
    while i < opts.compositions.len()
        invariant
            i <= opts.compositions@.len(),
            opts.compositions@.len() > 0,
            languages_error(opts.compositions@, i as int) is None,
        decreases opts.compositions.len() - i,
    {
        match audio_languages(&opts.compositions[i].audio_files) {
            Err(e) => {
                proof {
                    lemma_languages_error_stays(opts.compositions@, i + 1, opts.compositions@.len() as int);
                }
                return Err(e);
            },
            Ok(()) => {},
        }
        i += 1;
    }
    let mut k: usize = 0;
    while k < opts.compositions.len()
        invariant
            k <= opts.compositions@.len(),
            opts.compositions@.len() > 0,
            dir_exists@.len() == opts.compositions@.len(),
            languages_error(opts.compositions@, opts.compositions@.len() as int) is None,
            picture_dir_error(opts.compositions@, dir_exists@, k as int) is None,
        decreases opts.compositions.len() - k,
    {
        match &opts.compositions[k].j2k_dir {
            None => {
                proof {
                    lemma_picture_dir_error_stays(opts.compositions@, dir_exists@, k + 1, opts.compositions@.len() as int);
                }
                return Err(string_of(&chars_of("A J2K input directory is required")));
            },
            Some(d) => {
                if !dir_exists[k] {
                    let mut m = chars_of("J2K input directory not found: ");
                    push_str(&mut m, d.as_str());
                    proof {
                        lemma_picture_dir_error_stays(opts.compositions@, dir_exists@, k + 1, opts.compositions@.len() as int);
                    }
                    return Err(string_of(&m));
                }
            },
        }
        k += 1;
    }
    Ok(())
}

/// One track file to wrap: the prefix its file name takes, the input it is
/// wrapped from, and its essence.
#[derive(Debug, Clone)]
pub struct WrapJob {
    pub prefix: String,
    pub input: String,
    pub essence: EssenceType,
}

pub open spec fn job_view(j: WrapJob) -> (Seq<char>, Seq<char>, EssenceType) {
    (j.prefix@, j.input@, j.essence)
}

pub open spec fn job_views(v: Seq<WrapJob>) -> Seq<(Seq<char>, Seq<char>, EssenceType)> {
    v.map_values(|j: WrapJob| job_view(j))
}

/// The sound jobs of the first `n` audio tracks that are there.
pub open spec fn audio_jobs(audio: Seq<AudioTrack>, present: Seq<bool>, n: int) -> Seq<(Seq<char>, Seq<char>, EssenceType)>
    decreases n,
{
    if n <= 0 {
        Seq::empty()
    } else if present[n - 1] {
        audio_jobs(audio, present, n - 1).push(("AUDIO"@, audio[n - 1].path@, EssenceType::Wav))
    } else {
        audio_jobs(audio, present, n - 1)
    }
}

/// The timed-text jobs of the first `n` files that are there.
pub open spec fn text_jobs(files: Seq<Seq<char>>, present: Seq<bool>, n: int) -> Seq<(Seq<char>, Seq<char>, EssenceType)>
    decreases n,
{
    if n <= 0 {
        Seq::empty()
    } else if present[n - 1] {
        text_jobs(files, present, n - 1).push(("SUBTITLE"@, files[n - 1], EssenceType::TimedText))
    } else {
        text_jobs(files, present, n - 1)
    }
}

/// What a composition's track files are wrapped from, in order: the picture,
/// then each audio file that is there, then each timed-text file that is
/// there (a missing one is left out).
pub open spec fn wrap_jobs_spec(comp: Composition, audio_present: Seq<bool>, text_present: Seq<bool>) -> Seq<
    (Seq<char>, Seq<char>, EssenceType),
> {
    seq![("VIDEO"@, comp.j2k_dir->0@, EssenceType::J2k)] + audio_jobs(
        comp.audio_files@,
        audio_present,
        comp.audio_files@.len() as int,
    ) + text_jobs(string_views(comp.timed_text_files@), text_present, comp.timed_text_files@.len() as int)
}

pub fn wrap_jobs(comp: &Composition, audio_present: &Vec<bool>, text_present: &Vec<bool>) -> (r: Vec<WrapJob>)
    requires
        comp.j2k_dir is Some,
        audio_present@.len() == comp.audio_files@.len(),
        text_present@.len() == comp.timed_text_files@.len(),
    ensures
        job_views(r@) == wrap_jobs_spec(*comp, audio_present@, text_present@),
{
    let mut jobs: Vec<WrapJob> = Vec::new();
    let dir = match &comp.j2k_dir {
        Some(d) => string_of(&chars_of(d.as_str())),
        None => string_of(&chars_of("")),
    };
    jobs.push(WrapJob { prefix: string_of(&chars_of("VIDEO")), input: dir, essence: EssenceType::J2k });
    let ghost head = job_views(jobs@);
    assert(head =~= seq![("VIDEO"@, comp.j2k_dir->0@, EssenceType::J2k)]);
    let mut i: usize = 0;
    while i < comp.audio_files.len()
        invariant
            i <= comp.audio_files@.len(),
            audio_present@.len() == comp.audio_files@.len(),
            job_views(jobs@) == head + audio_jobs(comp.audio_files@, audio_present@, i as int),
        decreases comp.audio_files.len() - i,
    {
        if audio_present[i] {
            let ghost before = job_views(jobs@);
            jobs.push(WrapJob {
                prefix: string_of(&chars_of("AUDIO")),
                input: string_of(&chars_of(comp.audio_files[i].path.as_str())),
                essence: EssenceType::Wav,
            });
            assert(job_views(jobs@) =~= before.push(("AUDIO"@, comp.audio_files@[i as int].path@, EssenceType::Wav)));
        }
        i += 1;
    }
    let ghost mid = job_views(jobs@);
    let ghost tv = string_views(comp.timed_text_files@);
    let mut k: usize = 0;
    assert(mid =~= mid + text_jobs(tv, text_present@, 0));
    while k < comp.timed_text_files.len()
        invariant
            k <= comp.timed_text_files@.len(),
            text_present@.len() == comp.timed_text_files@.len(),
            tv == string_views(comp.timed_text_files@),
            job_views(jobs@) == mid + text_jobs(tv, text_present@, k as int),
        decreases comp.timed_text_files.len() - k,
    {
        if text_present[k] {
            let ghost before = job_views(jobs@);
            jobs.push(WrapJob {
                prefix: string_of(&chars_of("SUBTITLE")),
                input: string_of(&chars_of(comp.timed_text_files[k].as_str())),
                essence: EssenceType::TimedText,
            });
            assert(tv[k as int] == comp.timed_text_files@[k as int]@);
            assert(job_views(jobs@) =~= before.push(("SUBTITLE"@, tv[k as int], EssenceType::TimedText)));
        }
        k += 1;
    }
    jobs
}

/// The refusal of a failed wrap, by what was being wrapped.
pub open spec fn wrap_failure_spec(essence: EssenceType, error: Seq<char>) -> Seq<char> {
    match essence {
        EssenceType::J2k => "MXF wrapping failed: "@ + error,
        EssenceType::Wav => "Audio wrap failed: "@ + error,
        _ => "Subtitle wrap failed: "@ + error,
    }
}

pub fn wrap_failure(essence: EssenceType, error: &str) -> (r: String)
    ensures
        r@ == wrap_failure_spec(essence, error@),
{
    let mut m = match essence {
        EssenceType::J2k => chars_of("MXF wrapping failed: "),
        EssenceType::Wav => chars_of("Audio wrap failed: "),
        _ => chars_of("Subtitle wrap failed: "),
    };
    push_str(&mut m, error);
    string_of(&m)
}

/// A package file's name: `PREFIX_id.ext`, such as `VIDEO_<uuid>.mxf` or
/// `CPL_<uuid>.xml`.
pub open spec fn package_file_name_spec(prefix: Seq<char>, id: Seq<char>, ext: Seq<char>) -> Seq<char> {
    prefix + "_"@ + id + "."@ + ext
}

pub fn package_file_name(prefix: &str, id: &str, ext: &str) -> (r: String)
    ensures
        r@ == package_file_name_spec(prefix@, id@, ext@),
{
    let mut m = chars_of(prefix);
    push_str(&mut m, "_");
    push_str(&mut m, id);
    push_str(&mut m, ".");
    push_str(&mut m, ext);
    string_of(&m)
}

/// One asset, one id: the id a track file is named for reads back from its
/// name as the part after the last `_` once `.mxf` is taken off, whatever
/// the prefix, for any id without a `_` (as a UUID has none).
pub proof fn law_track_file_name_carries_its_id(prefix: Seq<char>, id: Seq<char>)
    requires
        !id.contains('_'),
    ensures
        ({
            let name = package_file_name_spec(prefix, id, "mxf"@);
            let stem = name.take(name.len() - 4);
            &&& name.skip(name.len() - 4) == ".mxf"@
            &&& stem == prefix + "_"@ + id
            &&& stem.skip(prefix.len() + 1int) == id
            &&& stem[prefix.len() as int] == '_'
            &&& forall|k: int| prefix.len() < k < stem.len() ==> #[trigger] stem[k] != '_'
        }),
{
    reveal_strlit("mxf");
    reveal_strlit(".mxf");
    reveal_strlit("_");
    reveal_strlit(".");
    let name = package_file_name_spec(prefix, id, "mxf"@);
    let stem = name.take(name.len() - 4);
    assert(name =~= prefix + "_"@ + id + ".mxf"@);
    assert(stem =~= prefix + "_"@ + id);
    assert(stem.skip(prefix.len() + 1int) =~= id);
    assert forall|k: int| prefix.len() < k < stem.len() implies #[trigger] stem[k] != '_' by {
        assert(stem[k] == id[k - prefix.len() - 1]);
        if stem[k] == '_' {
            assert(id.contains('_'));
        }
    }
}

} // verus!
