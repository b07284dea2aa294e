//! Supplemental IMPs (ST 2067-2/-3 OV+supplemental model).
//!
//! A supplemental IMP packages ONLY the new or changed track files plus a new
//! CPL. The CPL references the new track files (present here) and the
//! unchanged OV track files by their UUIDs (present in the OV IMP, not
//! duplicated). ASSETMAP/PKL list only the physically-present assets.
//!
//! The library reads the OV CPL, the `<path>@<track>` specs, checks a
//! request before anything is wrapped, and lays out the new composition's
//! resources once the new track files are wrapped.
use vstd::prelude::*;
use crate::EssenceType;
use crate::text::{
    chars_of, decimal, decimal_chars, eq_str, parse_u32, parse_unsigned, parse_u64_bounded,
    push_all, push_str, rfind, slice, split_once, split_once_chars, string_of, trim, trim_chars,
    views, words, words_chars,
};
use crate::timeline::{strip_urn, strip_urn_spec, token_views, xml_token_views, xml_tokens, XmlKind};

verus! {

/// The kind of track an IMF virtual track carries.
#[derive(Debug, Clone, Copy, PartialEq, Eq, Structural)]
pub enum ImfTrackKind {
    Image,
    Audio,
    Subtitle,
}

/// The kind's name, as `{:?}` spells it.
pub open spec fn kind_name(k: ImfTrackKind) -> Seq<char> {
    match k {
        ImfTrackKind::Image => "Image"@,
        ImfTrackKind::Audio => "Audio"@,
        ImfTrackKind::Subtitle => "Subtitle"@,
    }
}

fn kind_name_str(k: ImfTrackKind) -> (r: &'static str)
    ensures
        r@ == kind_name(k),
{
    match k {
        ImfTrackKind::Image => "Image",
        ImfTrackKind::Audio => "Audio",
        ImfTrackKind::Subtitle => "Subtitle",
    }
}

/// Options for creating a supplemental IMP. Paths are text.
pub struct SupplementOptions {
    pub ov_dir: String,
    pub title: String,
    pub output_dir: String,
    /// Replace an OV track, each spec `<path>@<track>` where track is
    /// `video`, `audio[:N]`, or `subtitle[:N]` (N defaults to 0).
    pub replace: Vec<String>,
    /// Add a new track, each spec `<path>@<track>` where track is `audio` or `subtitle`.
    pub add: Vec<String>,
}

/// Result of supplemental IMP creation.
pub struct SupplementResult {
    pub success: bool,
    pub error: String,
    pub output_dir: String,
}

impl SupplementResult {
    /// A failed creation, with its reason.
    pub fn fail(output_dir: &str, error: String) -> (r: Self)
        ensures
            !r.success,
            r.error@ == error@,
            r.output_dir@ == output_dir@,
    {
        SupplementResult { success: false, error, output_dir: string_of(&chars_of(output_dir)) }
    }
}

// ---------------------------------------------------------------------------
// Track specs
// ---------------------------------------------------------------------------

/// A parsed `<path>@<track>` spec.
pub struct TrackSpec {
    pub path: String,
    pub kind: ImfTrackKind,
    pub index: usize,
}

/// The track kind a spec's track name names.
pub open spec fn track_kind_named(n: Seq<char>) -> Option<ImfTrackKind> {
    if n == "video"@ || n == "image"@ {
        Some(ImfTrackKind::Image)
    } else if n == "audio"@ {
        Some(ImfTrackKind::Audio)
    } else if n == "subtitle"@ || n == "subtitles"@ {
        Some(ImfTrackKind::Subtitle)
    } else {
        None
    }
}

/// What a `<path>@<track>[:N]` spec says: split at its last `@`, the track
/// split at its first `:`.
pub open spec fn spec_parse(spec: Seq<char>) -> Result<(Seq<char>, ImfTrackKind, nat), Seq<char>> {
    match rfind(spec, "@"@) {
        None => Err("bad track spec `"@ + spec + "`, expected <path>@<track>"@),
        Some(at) => {
            let path = spec.take(at);
            let track = spec.skip(at + 1);
            if path.len() == 0 {
                Err("bad track spec `"@ + spec + "`, empty path"@)
            } else {
                let (name, index): (Seq<char>, Option<nat>) = match split_once(track, ':') {
                    Some((n, i)) => (n, parse_unsigned(i, usize::MAX as nat)),
                    None => (track, Some(0)),
                };
                match index {
                    None => Err("bad track index in `"@ + spec + "`"@),
                    Some(ix) => match track_kind_named(name) {
                        Some(k) => Ok((path, k, ix)),
                        None => Err("unknown track `"@ + name + "` in `"@ + spec + "`"@),
                    },
                }
            }
        },
    }
}

fn rfind_char(s: &[char], c: char) -> (r: Option<usize>)
    ensures
        match (r, rfind(s@, seq![c])) {
            (Some(a), Some(b)) => a == b && a < s@.len(),
            (None, None) => true,
            _ => false,
        },
        r matches Some(a) ==> a < s@.len(),
{
    let n = s.len();
    let ghost p = seq![c];
    let mut i: usize = n;
    while i > 0
        invariant
            i <= n,
            n == s@.len(),
            p == seq![c],
            rfind(s@, p) == crate::text::rfind_from(s@, p, i - 1),
        decreases i,
    {
        let k = i - 1;
        proof {
            assert(s@.subrange(k as int, k + 1)[0] == s@[k as int]);
            assert(p.len() == 1 && p[0] == c);
            assert(crate::text::occurs_at(s@, p, k as int) <==> s@[k as int] == c) by {
                if s@[k as int] == c {
                    assert(s@.subrange(k as int, k + 1) =~= p);
                }
            }
        }
        if s[k] == c {
            return Some(k);
        }
        i = k;
    }
    None
}

/// Parse a `<path>@<track>[:N]` spec.
pub fn parse_spec(spec: &str) -> (r: Result<TrackSpec, String>)
    ensures
        match spec_parse(spec@) {
            Ok((p, k, ix)) => r matches Ok(t) && t.path@ == p && t.kind == k && t.index == ix,
            Err(m) => r matches Err(e) && e@ == m,
        },
{
    let s = chars_of(spec);
    let slen = s.len();
    let at = match rfind_char(&s, '@') {
        Some(a) => a,
        None => {
            let mut m = chars_of("bad track spec `");
            push_str(&mut m, spec);
            push_str(&mut m, "`, expected <path>@<track>");
            proof {
                reveal_strlit("@");
                assert("@"@ =~= seq!['@']);
            }
            return Err(string_of(&m));
        },
    };
    proof {
        reveal_strlit("@");
        assert("@"@ =~= seq!['@']);
    }
    let path = slice(&s, 0, at);
    let track = slice(&s, at + 1, slen);
    if path.len() == 0 {
        let mut m = chars_of("bad track spec `");
        push_str(&mut m, spec);
        push_str(&mut m, "`, empty path");
        return Err(string_of(&m));
    }
    let (name, index) = match split_once_chars(&track, ':') {
        Some((n, i)) => (n, parse_u64_bounded(&i, usize::MAX as u64)),
        None => (track, Some(0u64)),
    };
    let ix = match index {
        Some(v) => v,
        None => {
            let mut m = chars_of("bad track index in `");
            push_str(&mut m, spec);
            push_str(&mut m, "`");
            return Err(string_of(&m));
        },
    };
    let kind = if eq_str(&name, "video") || eq_str(&name, "image") {
        ImfTrackKind::Image
    } else if eq_str(&name, "audio") {
        ImfTrackKind::Audio
    } else if eq_str(&name, "subtitle") || eq_str(&name, "subtitles") {
        ImfTrackKind::Subtitle
    } else {
        let mut m = chars_of("unknown track `");
        push_all(&mut m, &name);
        push_str(&mut m, "` in `");
        push_str(&mut m, spec);
        push_str(&mut m, "`");
        return Err(string_of(&m));
    };
    Ok(TrackSpec { path: string_of(&path), kind, index: ix as usize })
}

/// The essence a track of this kind is wrapped as.
pub fn essence_for(kind: ImfTrackKind) -> (r: EssenceType)
    ensures
        r == match kind {
            ImfTrackKind::Image => EssenceType::J2k,
            ImfTrackKind::Audio => EssenceType::Wav,
            ImfTrackKind::Subtitle => EssenceType::TimedText,
        },
{
    match kind {
        ImfTrackKind::Image => EssenceType::J2k,
        ImfTrackKind::Audio => EssenceType::Wav,
        ImfTrackKind::Subtitle => EssenceType::TimedText,
    }
}

/// The file name prefix of a wrapped track of this kind.
pub fn prefix_for(kind: ImfTrackKind) -> (r: &'static str)
    ensures
        r@ == match kind {
            ImfTrackKind::Image => "VIDEO"@,
            ImfTrackKind::Audio => "AUDIO"@,
            ImfTrackKind::Subtitle => "SUBTITLE"@,
        },
{
    match kind {
        ImfTrackKind::Image => "VIDEO",
        ImfTrackKind::Audio => "AUDIO",
        ImfTrackKind::Subtitle => "SUBTITLE",
    }
}

// ---------------------------------------------------------------------------
// The OV CPL
// ---------------------------------------------------------------------------

/// One resource read from the OV CPL.
pub struct OvResource {
    pub kind: ImfTrackKind,
    pub uuid: String,
    pub duration: u64,
}

/// What the supplemental takes from the OV CPL.
pub struct OvCpl {
    pub fps_num: u32,
    pub fps_den: u32,
    pub content_kind: String,
    pub resources: Vec<OvResource>,
}

/// The OV CPL reader's state.
pub struct OvState {
    pub cur: Seq<char>,
    pub seq_kind: Option<ImfTrackKind>,
    pub in_resource: bool,
    pub edit_rate: Option<(u32, u32)>,
    pub content_kind: Seq<char>,
    pub resources: Seq<(ImfTrackKind, Seq<char>, u64)>,
    pub cur_uuid: Seq<char>,
    pub cur_dur: u64,
    pub error: Option<Seq<char>>,
}

pub open spec fn ov_init() -> OvState {
    OvState {
        cur: Seq::empty(),
        seq_kind: None,
        in_resource: false,
        edit_rate: None,
        content_kind: Seq::empty(),
        resources: Seq::empty(),
        cur_uuid: Seq::empty(),
        cur_dur: 0,
        error: None,
    }
}

/// The edit rate an `EditRate` text gives: its first two words, as `u32`s.
pub open spec fn edit_rate_of(text: Seq<char>) -> Option<(u32, u32)> {
    let w = words(text);
    if w.len() >= 2 {
        match (parse_unsigned(w[0], u32::MAX as nat), parse_unsigned(w[1], u32::MAX as nat)) {
            (Some(n), Some(d)) => Some((n as u32, d as u32)),
            _ => None,
        }
    } else {
        None
    }
}

pub open spec fn parsed_u64_or(text: Seq<char>, old: u64) -> u64 {
    match parse_unsigned(text, u64::MAX as nat) {
        Some(v) => v as u64,
        None => old,
    }
}

pub open spec fn ov_text(st: OvState, text: Seq<char>) -> OvState {
    if st.cur == "EditRate"@ && st.edit_rate is None && st.seq_kind is None {
        match edit_rate_of(text) {
            Some(r) => OvState { edit_rate: Some(r), ..st },
            None => st,
        }
    } else if st.cur == "ContentKind"@ && st.content_kind.len() == 0 && st.seq_kind is None {
        OvState { content_kind: text, ..st }
    } else if st.cur == "TrackFileId"@ && st.in_resource {
        OvState { cur_uuid: strip_urn_spec(text), ..st }
    } else if st.cur == "SourceDuration"@ && st.in_resource {
        OvState { cur_dur: parsed_u64_or(text, st.cur_dur), ..st }
    } else if st.cur == "IntrinsicDuration"@ && st.in_resource && st.cur_dur == 0 {
        OvState { cur_dur: parsed_u64_or(text, 0), ..st }
    } else {
        st
    }
}

/// One event of the OV CPL reader.
pub open spec fn ov_step(st: OvState, t: (XmlKind, Seq<char>)) -> OvState {
    if st.error is Some {
        st
    } else {
        match t.0 {
            XmlKind::Start => {
                let st = OvState { cur: t.1, ..st };
                if t.1 == "MainImageSequence"@ {
                    OvState { seq_kind: Some(ImfTrackKind::Image), ..st }
                } else if t.1 == "MainAudioSequence"@ {
                    OvState { seq_kind: Some(ImfTrackKind::Audio), ..st }
                } else if t.1 == "SubtitlesSequence"@ {
                    OvState { seq_kind: Some(ImfTrackKind::Subtitle), ..st }
                } else if t.1 == "Resource"@ {
                    OvState { in_resource: true, cur_uuid: Seq::empty(), cur_dur: 0, ..st }
                } else {
                    st
                }
            },
            XmlKind::Text => {
                let text = trim(t.1);
                if text.len() == 0 {
                    st
                } else {
                    ov_text(st, text)
                }
            },
            XmlKind::End => {
                let st = OvState { cur: Seq::empty(), ..st };
                if t.1 == "Resource"@ {
                    match st.seq_kind {
                        Some(k) => if st.cur_uuid.len() > 0 {
                            OvState {
                                in_resource: false,
                                resources: st.resources.push((k, st.cur_uuid, st.cur_dur)),
                                cur_uuid: Seq::empty(),
                                ..st
                            }
                        } else {
                            OvState { in_resource: false, ..st }
                        },
                        None => OvState { in_resource: false, ..st },
                    }
                } else if t.1 == "MainImageSequence"@ || t.1 == "MainAudioSequence"@ || t.1
                    == "SubtitlesSequence"@ {
                    OvState { seq_kind: None, ..st }
                } else {
                    st
                }
            },
            XmlKind::Error => OvState { error: Some(t.1), ..st },
        }
    }
}

pub open spec fn ov_fold(toks: Seq<(XmlKind, Seq<char>)>, n: int) -> OvState
    decreases n,
{
    if n <= 0 {
        ov_init()
    } else {
        ov_step(ov_fold(toks, n - 1), toks[n - 1])
    }
}

pub type OvModel = (u32, u32, Seq<char>, Seq<(ImfTrackKind, Seq<char>, u64)>);

/// What an OV CPL's text gives: its composition edit rate (the first
/// `EditRate` outside any sequence), content kind, and every track-file
/// resource of the main image, audio and subtitle sequences; or the refusal.
pub open spec fn ov_cpl_spec(content: Seq<char>) -> Result<OvModel, Seq<char>> {
    let toks = xml_token_views(content);
    let st = ov_fold(toks, toks.len() as int);
    match st.error {
        Some(e) => Err("OV CPL parse error: "@ + e),
        None => match st.edit_rate {
            None => Err("OV CPL has no composition EditRate"@),
            Some((n, d)) => if st.resources.len() == 0 {
                Err("OV CPL has no track-file resources"@)
            } else {
                Ok((n, d, st.content_kind, st.resources))
            },
        },
    }
}

pub open spec fn ov_resource_views(v: Seq<OvResource>) -> Seq<(ImfTrackKind, Seq<char>, u64)> {
    v.map_values(|r: OvResource| (r.kind, r.uuid@, r.duration))
}

struct OvExec {
    cur: Vec<char>,
    seq_kind: Option<ImfTrackKind>,
    in_resource: bool,
    edit_rate: Option<(u32, u32)>,
    content_kind: Vec<char>,
    resources: Vec<OvResource>,
    cur_uuid: Vec<char>,
    cur_dur: u64,
}

spec fn ov_view(e: &OvExec) -> OvState {
    OvState {
        cur: e.cur@,
        seq_kind: e.seq_kind,
        in_resource: e.in_resource,
        edit_rate: e.edit_rate,
        content_kind: e.content_kind@,
        resources: ov_resource_views(e.resources@),
        cur_uuid: e.cur_uuid@,
        cur_dur: e.cur_dur,
        error: None,
    }
}

fn edit_rate_exec(text: &[char]) -> (r: Option<(u32, u32)>)
    ensures
        r == edit_rate_of(text@),
{
    let w = words_chars(text);
    if w.len() >= 2 {
        assert(views(w@)[0] == w@[0]@);
        assert(views(w@)[1] == w@[1]@);
        match (parse_u32(&w[0]), parse_u32(&w[1])) {
            (Some(n), Some(d)) => Some((n, d)),
            _ => None,
        }
    } else {
        None
    }
}

fn ov_text_exec(st: &mut OvExec, text: &[char])
    ensures
        ov_view(final(st)) == ov_text(ov_view(old(st)), text@),
{
    let in_resource = st.in_resource;
    if eq_str(&st.cur, "EditRate") && st.edit_rate.is_none() && st.seq_kind.is_none() {
        match edit_rate_exec(text) {
            Some(r) => {
                st.edit_rate = Some(r);
            },
            None => {},
        }
    } else if eq_str(&st.cur, "ContentKind") && st.content_kind.len() == 0 && st.seq_kind.is_none() {
        st.content_kind = slice(text, 0, text.len());
        assert(st.content_kind@ =~= text@);
    } else if eq_str(&st.cur, "TrackFileId") && in_resource {
        st.cur_uuid = strip_urn(text);
    } else if eq_str(&st.cur, "SourceDuration") && in_resource {
        match parse_u64_bounded(text, u64::MAX) {
            Some(v) => {
                st.cur_dur = v;
            },
            None => {},
        }
    } else if eq_str(&st.cur, "IntrinsicDuration") && in_resource && st.cur_dur == 0 {
        st.cur_dur = match parse_u64_bounded(text, u64::MAX) {
            Some(v) => v,
            None => 0,
        };
    }
}

/// Parse an OV IMF CPL's text into its composition edit rate and per-kind resources.
pub fn parse_ov_cpl(content: &str) -> (r: Result<OvCpl, String>)
    ensures
        match ov_cpl_spec(content@) {
            Ok((n, d, k, res)) => r matches Ok(ov) && ov.fps_num == n && ov.fps_den == d
                && ov.content_kind@ == k && ov_resource_views(ov.resources@) == res,
            Err(m) => r matches Err(e) && e@ == m,
        },
{
    let toks = xml_tokens(content);
    let ghost tv = token_views(toks@);
    let mut st = OvExec {
        cur: Vec::new(),
        seq_kind: None,
        in_resource: false,
        edit_rate: None,
        content_kind: Vec::new(),
        resources: Vec::new(),
        cur_uuid: Vec::new(),
        cur_dur: 0,
    };
    assert(ov_view(&st) =~= ov_init()) by {
        assert(ov_resource_views(st.resources@) =~= Seq::<(ImfTrackKind, Seq<char>, u64)>::empty());
    }
    let mut i: usize = 0;
    while i < toks.len()
        invariant
            i <= toks.len(),
            tv == token_views(toks@),
            tv == xml_token_views(content@),
            ov_view(&st) == ov_fold(tv, i as int),
        decreases toks.len() - i,
    {
        let t = &toks[i];
        let ghost tt = tv[i as int];
        assert(tt == (t.kind, t.text@));
        let ghost before = ov_view(&st);
        match t.kind {
            XmlKind::Start => {
                let name = chars_of(t.text.as_str());
                if eq_str(&name, "MainImageSequence") {
                    st.seq_kind = Some(ImfTrackKind::Image);
                } else if eq_str(&name, "MainAudioSequence") {
                    st.seq_kind = Some(ImfTrackKind::Audio);
                } else if eq_str(&name, "SubtitlesSequence") {
                    st.seq_kind = Some(ImfTrackKind::Subtitle);
                } else if eq_str(&name, "Resource") {
                    st.in_resource = true;
                    st.cur_uuid = Vec::new();
                    st.cur_dur = 0;
                }
                st.cur = name;
            },
            XmlKind::Text => {
                let text = trim_chars(&chars_of(t.text.as_str()));
                if text.len() > 0 {
                    ov_text_exec(&mut st, &text);
                }
            },
            XmlKind::End => {
                st.cur = Vec::new();
                let name = chars_of(t.text.as_str());
                if eq_str(&name, "Resource") {
                    st.in_resource = false;
                    match st.seq_kind {
                        Some(k) => {
                            if st.cur_uuid.len() > 0 {
                                let ghost rv = ov_resource_views(st.resources@);
                                let ghost entry = (k, st.cur_uuid@, st.cur_dur);
                                let uuid = string_of(&st.cur_uuid);
                                st.resources.push(OvResource { kind: k, uuid, duration: st.cur_dur });
                                assert(ov_resource_views(st.resources@) =~= rv.push(entry));
                                st.cur_uuid = Vec::new();
                            }
                        },
                        None => {},
                    }
                } else if eq_str(&name, "MainImageSequence") || eq_str(&name, "MainAudioSequence")
                    || eq_str(&name, "SubtitlesSequence") {
                    st.seq_kind = None;
                }
            },
            XmlKind::Error => {
                proof {
                    lemma_ov_error_stays(tv, (i + 1) as int, tv.len() as int);
                }
                let mut m = chars_of("OV CPL parse error: ");
                push_str(&mut m, t.text.as_str());
                return Err(string_of(&m));
            },
        }
        proof {
            assert(ov_fold(tv, (i + 1) as int) == ov_step(before, tt));
            assert(ov_view(&st) =~= ov_step(before, tt));
        }
        i += 1;
    }
    let (n, d) = match st.edit_rate {
        Some(r) => r,
        None => return Err(string_of(&chars_of("OV CPL has no composition EditRate"))),
    };
    if st.resources.len() == 0 {
        return Err(string_of(&chars_of("OV CPL has no track-file resources")));
    }
    Ok(OvCpl { fps_num: n, fps_den: d, content_kind: string_of(&st.content_kind), resources: st.resources })
}

/// Once the reader has met an error, later events leave the state as it is.
pub proof fn lemma_ov_error_stays(tv: Seq<(XmlKind, Seq<char>)>, a: int, b: int)
    requires
        0 <= a <= b,
        ov_fold(tv, a).error is Some,
    ensures
        ov_fold(tv, b) == ov_fold(tv, a),
    decreases b - a,
{
    if b > a {
        lemma_ov_error_stays(tv, a, b - 1);
    }
}

// ---------------------------------------------------------------------------
// The request
// ---------------------------------------------------------------------------

/// How many OV resources are of kind `k`.
pub open spec fn count_kind(res: Seq<(ImfTrackKind, Seq<char>, u64)>, k: ImfTrackKind) -> nat
    decreases res.len(),
{
    if res.len() == 0 {
        0
    } else {
        count_kind(res.drop_last(), k) + if res.last().0 == k {
            1nat
        } else {
            0nat
        }
    }
}

pub open spec fn spec_views(v: Seq<TrackSpec>) -> Seq<(Seq<char>, ImfTrackKind, nat)> {
    v.map_values(|t: TrackSpec| (t.path@, t.kind, t.index as nat))
}

/// The first spec of `specs` that does not parse, or the parsed specs.
pub open spec fn parse_all(specs: Seq<Seq<char>>) -> Result<Seq<(Seq<char>, ImfTrackKind, nat)>, Seq<char>>
    decreases specs.len(),
{
    if specs.len() == 0 {
        Ok(Seq::empty())
    } else {
        match parse_all(specs.drop_last()) {
            Err(e) => Err(e),
            Ok(v) => match spec_parse(specs.last()) {
                Err(e) => Err(e),
                Ok(t) => Ok(v.push(t)),
            },
        }
    }
}

/// The first spec of `specs` that `ok` refuses.
pub open spec fn first_image(specs: Seq<(Seq<char>, ImfTrackKind, nat)>, from: int) -> Option<int>
    decreases specs.len() - from,
{
    if from < 0 || from >= specs.len() {
        None
    } else if specs[from].1 == ImfTrackKind::Image {
        Some(from)
    } else {
        first_image(specs, from + 1)
    }
}

/// The first replace spec naming an OV track that is not there.
pub open spec fn first_missing(
    specs: Seq<(Seq<char>, ImfTrackKind, nat)>,
    res: Seq<(ImfTrackKind, Seq<char>, u64)>,
    from: int,
) -> Option<int>
    decreases specs.len() - from,
{
    if from < 0 || from >= specs.len() {
        None
    } else if specs[from].2 >= count_kind(res, specs[from].1) {
        Some(from)
    } else {
        first_missing(specs, res, from + 1)
    }
}

/// What a request asks for once the OV CPL is read: the replace and add
/// specs, each parsed in order; no added image track; every replaced track
/// present in the OV.
pub open spec fn request_spec(
    replace: Seq<Seq<char>>,
    add: Seq<Seq<char>>,
    res: Seq<(ImfTrackKind, Seq<char>, u64)>,
) -> Result<(Seq<(Seq<char>, ImfTrackKind, nat)>, Seq<(Seq<char>, ImfTrackKind, nat)>), Seq<char>> {
    match parse_all(replace) {
        Err(e) => Err(e),
        Ok(r) => match parse_all(add) {
            Err(e) => Err(e),
            Ok(a) => match first_image(a, 0) {
                Some(i) => Err("cannot --add an image track (only audio/subtitle); got "@ + a[i].0),
                None => match first_missing(r, res, 0) {
                    Some(i) => Err(
                        "OV has no "@ + kind_name(r[i].1) + " track at index "@ + decimal(r[i].2)
                            + " (it has "@ + decimal(count_kind(res, r[i].1)) + ")"@,
                    ),
                    None => Ok((r, a)),
                },
            },
        },
    }
}

pub proof fn lemma_parse_all_err(specs: Seq<Seq<char>>, n: int)
    requires
        0 <= n <= specs.len(),
        parse_all(specs.take(n)) is Err,
    ensures
        parse_all(specs) == parse_all(specs.take(n)),
    decreases specs.len() - n,
{
    if n < specs.len() {
        assert(specs.take(n + 1).drop_last() =~= specs.take(n));
        lemma_parse_all_err(specs, n + 1);
    } else {
        assert(specs.take(n) =~= specs);
    }
}

fn parse_specs(specs: &Vec<String>) -> (r: Result<Vec<TrackSpec>, String>)
    ensures
        match parse_all(crate::text::string_views(specs@)) {
            Ok(v) => r matches Ok(t) && spec_views(t@) == v,
            Err(m) => r matches Err(e) && e@ == m,
        },
{
    let ghost sv = crate::text::string_views(specs@);
    let mut out: Vec<TrackSpec> = Vec::new();
    let mut i: usize = 0;
    assert(sv.take(0) =~= Seq::<Seq<char>>::empty());
    assert(spec_views(out@) =~= Seq::<(Seq<char>, ImfTrackKind, nat)>::empty());
    while i < specs.len()
        invariant
            i <= specs.len(),
            sv == crate::text::string_views(specs@),
            parse_all(sv.take(i as int)) == Ok::<Seq<(Seq<char>, ImfTrackKind, nat)>, Seq<char>>(
                spec_views(out@),
            ),
        decreases specs.len() - i,
    {
        assert(sv.take(i + 1).drop_last() =~= sv.take(i as int));
        assert(sv.take(i + 1).last() == specs@[i as int]@);
        match parse_spec(specs[i].as_str()) {
            Ok(t) => {
                let ghost before = spec_views(out@);
                let ghost tv = (t.path@, t.kind, t.index as nat);
                out.push(t);
                assert(spec_views(out@) =~= before.push(tv));
            },
            Err(e) => {
                proof {
                    lemma_parse_all_err(sv, i + 1);
                }
                return Err(e);
            },
        }
        i += 1;
    }
    assert(sv.take(specs.len() as int) =~= sv);
    Ok(out)
}

fn count_of_kind(res: &Vec<OvResource>, k: ImfTrackKind) -> (r: usize)
    ensures
        r == count_kind(ov_resource_views(res@), k),
{
    let ghost rv = ov_resource_views(res@);
    let mut c: usize = 0;
    let mut i: usize = 0;
    while i < res.len()
        invariant
            i <= res.len(),
            rv == ov_resource_views(res@),
            c == count_kind(rv.take(i as int), k),
            c <= i,
        decreases res.len() - i,
    {
        assert(rv.take(i + 1).drop_last() =~= rv.take(i as int));
        if res[i].kind == k {
            c += 1;
        }
        i += 1;
    }
    assert(rv.take(res.len() as int) =~= rv);
    c
}

/// Check a supplemental request against the OV: parse the replace and add
/// specs, refuse an added image track and a replaced track the OV does not
/// have.
pub fn check_request(replace: &Vec<String>, add: &Vec<String>, ov: &OvCpl) -> (r: Result<
    (Vec<TrackSpec>, Vec<TrackSpec>),
    String,
>)
    ensures
        match request_spec(
            crate::text::string_views(replace@),
            crate::text::string_views(add@),
            ov_resource_views(ov.resources@),
        ) {
            Ok((rs, ads)) => r matches Ok((a, b)) && spec_views(a@) == rs && spec_views(b@) == ads,
            Err(m) => r matches Err(e) && e@ == m,
        },
{
    let rs = match parse_specs(replace) {
        Ok(v) => v,
        Err(e) => return Err(e),
    };
    let ads = match parse_specs(add) {
        Ok(v) => v,
        Err(e) => return Err(e),
    };
    let ghost av = spec_views(ads@);
    let ghost rv = spec_views(rs@);
    let mut i: usize = 0;
    while i < ads.len()
        invariant
            i <= ads.len(),
            av == spec_views(ads@),
            rv == spec_views(rs@),
            parse_all(crate::text::string_views(replace@)) == Ok::<
                Seq<(Seq<char>, ImfTrackKind, nat)>,
                Seq<char>,
            >(rv),
            parse_all(crate::text::string_views(add@)) == Ok::<
                Seq<(Seq<char>, ImfTrackKind, nat)>,
                Seq<char>,
            >(av),
            first_image(av, 0) == first_image(av, i as int),
        decreases ads.len() - i,
    {
        if ads[i].kind == ImfTrackKind::Image {
            let mut m = chars_of("cannot --add an image track (only audio/subtitle); got ");
            push_str(&mut m, ads[i].path.as_str());
            return Err(string_of(&m));
        }
        i += 1;
    }
    let ghost ov_res = ov_resource_views(ov.resources@);
    let mut j: usize = 0;
    while j < rs.len()
        invariant
            j <= rs.len(),
            rv == spec_views(rs@),
            av == spec_views(ads@),
            first_image(av, 0) is None,
            parse_all(crate::text::string_views(replace@)) == Ok::<
                Seq<(Seq<char>, ImfTrackKind, nat)>,
                Seq<char>,
            >(rv),
            parse_all(crate::text::string_views(add@)) == Ok::<
                Seq<(Seq<char>, ImfTrackKind, nat)>,
                Seq<char>,
            >(av),
            ov_res == ov_resource_views(ov.resources@),
            first_missing(rv, ov_res, 0) == first_missing(rv, ov_res, j as int),
        decreases rs.len() - j,
    {
        let count = count_of_kind(&ov.resources, rs[j].kind);
        if rs[j].index >= count {
            let mut m = chars_of("OV has no ");
            push_str(&mut m, kind_name_str(rs[j].kind));
            push_str(&mut m, " track at index ");
            push_all(&mut m, &decimal_chars(rs[j].index as u64));
            push_str(&mut m, " (it has ");
            push_all(&mut m, &decimal_chars(count as u64));
            push_str(&mut m, ")");
            return Err(string_of(&m));
        }
        j += 1;
    }
    Ok((rs, ads))
}

// ---------------------------------------------------------------------------
// The new composition
// ---------------------------------------------------------------------------

/// A track-file resource of the supplemental composition.
pub struct ImfResource {
    pub track_file_uuid: String,
    pub duration: u64,
    pub kind: ImfTrackKind,
}

pub open spec fn resource_views(v: Seq<ImfResource>) -> Seq<(ImfTrackKind, Seq<char>, u64)> {
    v.map_values(|r: ImfResource| (r.kind, r.track_file_uuid@, r.duration))
}

/// The position of the `n`-th resource of kind `k`, counting from `from`.
pub open spec fn nth_of_kind(res: Seq<(ImfTrackKind, Seq<char>, u64)>, k: ImfTrackKind, n: nat, from: int) -> Option<int>
    decreases res.len() - from,
{
    if from < 0 || from >= res.len() {
        None
    } else if res[from].0 == k {
        if n == 0 {
            Some(from)
        } else {
            nth_of_kind(res, k, (n - 1) as nat, from + 1)
        }
    } else {
        nth_of_kind(res, k, n, from + 1)
    }
}

/// The OV's resources with one replacement: the `index`-th resource of its
/// kind now names the new track file and its duration.
pub open spec fn replaced(
    res: Seq<(ImfTrackKind, Seq<char>, u64)>,
    k: ImfTrackKind,
    index: nat,
    uuid: Seq<char>,
    duration: u64,
) -> Seq<(ImfTrackKind, Seq<char>, u64)> {
    match nth_of_kind(res, k, index, 0) {
        Some(p) => res.update(p, (k, uuid, duration)),
        None => res,
    }
}

proof fn lemma_count_kind_first(s: Seq<(ImfTrackKind, Seq<char>, u64)>, k: ImfTrackKind)
    requires
        s.len() > 0,
    ensures
        count_kind(s, k) == count_kind(s.drop_first(), k) + if s[0].0 == k {
            1nat
        } else {
            0nat
        },
    decreases s.len(),
{
    if s.len() == 1 {
        assert(s.drop_first() =~= Seq::<(ImfTrackKind, Seq<char>, u64)>::empty());
        assert(s.drop_last() =~= Seq::<(ImfTrackKind, Seq<char>, u64)>::empty());
    } else {
        lemma_count_kind_first(s.drop_last(), k);
        assert(s.drop_last().drop_first() =~= s.drop_first().drop_last());
        assert(s.drop_first().last() == s.last());
    }
}

proof fn lemma_nth_of_kind(res: Seq<(ImfTrackKind, Seq<char>, u64)>, k: ImfTrackKind, n: nat, from: int)
    requires
        0 <= from <= res.len(),
    ensures
        (nth_of_kind(res, k, n, from) is Some) <==> n < count_kind(res.skip(from), k),
        nth_of_kind(res, k, n, from) matches Some(p) ==> from <= p < res.len() && res[p].0 == k,
    decreases res.len() - from,
{
    if from == res.len() {
        assert(res.skip(from) =~= Seq::<(ImfTrackKind, Seq<char>, u64)>::empty());
    } else {
        lemma_count_kind_first(res.skip(from), k);
        assert(res.skip(from).drop_first() =~= res.skip(from + 1));
        assert(res.skip(from)[0] == res[from]);
        if res[from].0 == k && n > 0 {
            lemma_nth_of_kind(res, k, (n - 1) as nat, from + 1);
        } else {
            lemma_nth_of_kind(res, k, n, from + 1);
        }
    }
}

/// Replacing a track keeps the composition's shape: as many resources, each
/// of the kind it was. A replacement that names a
/// track the OV has (an index below the count of its kind) takes effect: that
/// resource now names the new track file and its duration.
pub proof fn law_replacement_keeps_shape(
    res: Seq<(ImfTrackKind, Seq<char>, u64)>,
    k: ImfTrackKind,
    index: nat,
    uuid: Seq<char>,
    duration: u64,
)
    ensures
        replaced(res, k, index, uuid, duration).len() == res.len(),
        forall|i: int|
            0 <= i < res.len() ==> (#[trigger] replaced(res, k, index, uuid, duration)[i]).0 == res[i].0,
        index < count_kind(res, k) ==> (nth_of_kind(res, k, index, 0) matches Some(p)
            && replaced(res, k, index, uuid, duration)[p] == (k, uuid, duration)),
{
    lemma_nth_of_kind(res, k, index, 0);
    assert(res.skip(0) =~= res);
}

fn nth_of_kind_exec(res: &Vec<ImfResource>, k: ImfTrackKind, n: usize) -> (r: Option<usize>)
    ensures
        match (r, nth_of_kind(resource_views(res@), k, n as nat, 0)) {
            (Some(a), Some(b)) => a == b && a < res.len(),
            (None, None) => true,
            _ => false,
        },
{
    let ghost rv = resource_views(res@);
    let mut left: usize = n;
    let mut i: usize = 0;
    while i < res.len()
        invariant
            i <= res.len(),
            rv == resource_views(res@),
            nth_of_kind(rv, k, n as nat, 0) == nth_of_kind(rv, k, left as nat, i as int),
        decreases res.len() - i,
    {
        if res[i].kind == k {
            if left == 0 {
                return Some(i);
            }
            left -= 1;
        }
        i += 1;
    }
    None
}

/// Point the `index`-th resource of kind `kind` at a new track file.
pub fn replace_resource(
    resources: &mut Vec<ImfResource>,
    kind: ImfTrackKind,
    index: usize,
    uuid: &str,
    duration: u64,
)
    ensures
        resource_views(final(resources)@) == replaced(
            resource_views(old(resources)@),
            kind,
            index as nat,
            uuid@,
            duration,
        ),
{
    match nth_of_kind_exec(resources, kind, index) {
        Some(p) => {
            let ghost before = resource_views(resources@);
            resources.set(
                p,
                ImfResource { track_file_uuid: string_of(&chars_of(uuid)), duration, kind },
            );
            assert(resource_views(resources@) =~= before.update(p as int, (kind, uuid@, duration)));
        },
        None => {},
    }
}

/// The supplemental composition starts from the OV's resources.
pub fn ov_resources(ov: &OvCpl) -> (r: Vec<ImfResource>)
    ensures
        resource_views(r@) == ov_resource_views(ov.resources@),
{
    let mut out: Vec<ImfResource> = Vec::new();
    let mut i: usize = 0;
    while i < ov.resources.len()
        invariant
            i <= ov.resources.len(),
            resource_views(out@) == ov_resource_views(ov.resources@).take(i as int),
        decreases ov.resources.len() - i,
    {
        let r = &ov.resources[i];
        let ghost before = resource_views(out@);
        out.push(
            ImfResource {
                track_file_uuid: string_of(&chars_of(r.uuid.as_str())),
                duration: r.duration,
                kind: r.kind,
            },
        );
        assert(resource_views(out@) =~= before.push((r.kind, r.uuid@, r.duration)));
        i += 1;
        assert(ov_resource_views(ov.resources@).take(i as int) =~= before.push(
            (r.kind, r.uuid@, r.duration),
        ));
    }
    assert(ov_resource_views(ov.resources@).take(ov.resources.len() as int) =~= ov_resource_views(
        ov.resources@,
    ));
    out
}

/// The refusal of a request that changes nothing, checked before the OV is read.
pub fn check_options(ov_is_dir: bool, opts: &SupplementOptions) -> (r: Result<(), String>)
    ensures
        !ov_is_dir ==> (r matches Err(e) && e@ == "OV is not a directory: "@ + opts.ov_dir@),
        ov_is_dir && opts.replace@.len() == 0 && opts.add@.len() == 0 ==> (r matches Err(e) && e@
            == "nothing to change; a supplemental needs at least one --replace or --add"@),
        ov_is_dir && (opts.replace@.len() > 0 || opts.add@.len() > 0) ==> r is Ok,
{
    if !ov_is_dir {
        let mut m = chars_of("OV is not a directory: ");
        push_str(&mut m, opts.ov_dir.as_str());
        return Err(string_of(&m));
    }
    if opts.replace.len() == 0 && opts.add.len() == 0 {
        return Err(string_of(&chars_of(
            "nothing to change; a supplemental needs at least one --replace or --add",
        )));
    }
    Ok(())
}

} // verus!
