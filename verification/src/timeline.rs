//! The CPL timeline and the ASSETMAP, read from the XML event stream.
//!
//! The XML itself is tokenised by quick-xml; what the library does with the
//! tokens (which element a text belongs to, when a segment ends) is the state
//! machine below.
use vstd::prelude::*;
use quick_xml::events::Event::{End, Eof, Start, Text};
use quick_xml::reader::Reader;
use crate::text::{
    chars_of, eq, eq_str, find, find_chars, lemma_find_from_bounds, parse_u64, parse_unsigned,
    push_all, slice, string_of, trim, trim_chars,
};

verus! {

/// A segment entry from an IMF CPL (equivalent to DCP reel).
#[derive(Debug, Clone, Default)]
pub struct SegmentEntry {
    pub segment_id: String,
    pub segment_number: u32,
    pub duration_frames: u64,
    pub entry_point: u64,
    pub edit_rate: String,
    pub video_track_file_id: String,
    pub audio_track_file_id: String,
    pub video_file: String,
    pub audio_file: String,
}

#[derive(Debug, Clone, Default)]
pub struct CplInfo {
    pub id: String,
    pub file_path: String,
    pub title: String,
}

// ---------------------------------------------------------------------------
// Tokens
// ---------------------------------------------------------------------------

/// The kinds of XML event the readers act on.
#[derive(Debug, Clone, Copy, PartialEq, Eq, Structural)]
pub enum XmlKind {
    /// An opening tag; the text is the element's local name.
    Start,
    /// Character data, entity references resolved.
    Text,
    /// A closing tag; the text is the element's local name.
    End,
    /// The document could not be read further; the text is why. Always the
    /// last token.
    Error,
}

pub struct XmlToken {
    pub kind: XmlKind,
    pub text: String,
}

pub open spec fn token_views(v: Seq<XmlToken>) -> Seq<(XmlKind, Seq<char>)> {
    v.map_values(|t: XmlToken| (t.kind, t.text@))
}

/// The events quick-xml reads from `content` (text trimmed), up to the end of
/// the document or the first error.
pub uninterp spec fn xml_token_views(content: Seq<char>) -> Seq<(XmlKind, Seq<char>)>;

/// Tokenise `content` with quick-xml, text trimmed.
///
/// Calls `quick_xml::reader::Reader::from_str` and `read_event` until `Eof`
/// or the first error; start and end tags become their local names, text its
/// unescaped content (empty where unescaping fails), every other event is
/// skipped. What quick-xml reads is named, not restated.
#[verifier::external_body]
pub(crate) fn xml_tokens(content: &str) -> (r: Vec<XmlToken>)
    ensures
        token_views(r@) == xml_token_views(content@),
{
    let mut rd = Reader::from_str(content);
    rd.config_mut().trim_text(true);
    let mut out = Vec::new();
    loop {
        let (kind, text) = match rd.read_event() {
            Ok(Start(e)) => (XmlKind::Start, String::from_utf8_lossy(e.local_name().into_inner()).into_owned()),
            Ok(End(e)) => (XmlKind::End, String::from_utf8_lossy(e.local_name().into_inner()).into_owned()),
            Ok(Text(t)) => (XmlKind::Text, t.unescape().unwrap_or_default().into_owned()),
            Ok(Eof) => return out,
            Ok(_) => continue,
            Err(e) => (XmlKind::Error, e.to_string()),
        };
        out.push(XmlToken { kind, text });
        if kind == XmlKind::Error { return out; }
    }
}

/// `s` with every occurrence of `urn:uuid:` removed, as `str::replace(.., "")`.
pub open spec fn strip_urn_spec(s: Seq<char>) -> Seq<char>
    decreases s.len(),
{
    match find(s, "urn:uuid:"@) {
        None => s,
        Some(i) => {
            let rest = s.skip(i + "urn:uuid:"@.len());
            if rest.len() < s.len() {
                s.take(i) + strip_urn_spec(rest)
            } else {
                s.take(i)
            }
        },
    }
}

/// `s` with every `urn:uuid:` removed.
pub fn strip_urn(s: &[char]) -> (r: Vec<char>)
    ensures
        r@ == strip_urn_spec(s@),
{
    let urn = chars_of("urn:uuid:");
    let mut out: Vec<char> = Vec::new();
    let mut rest = slice(s, 0, s.len());
    assert(rest@ =~= s@);
    assert(out@ + strip_urn_spec(rest@) =~= strip_urn_spec(s@));
    loop
        invariant
            urn@ == "urn:uuid:"@,
            out@ + strip_urn_spec(rest@) == strip_urn_spec(s@),
        decreases rest.len(),
    {
        proof {
            reveal_strlit("urn:uuid:");
        }
        match find_chars(&rest, &urn) {
            None => {
                push_all(&mut out, &rest);
                return out;
            },
            Some(i) => {
                proof {
                    lemma_find_from_bounds(rest@, urn@, 0);
                }
                let ghost before = out@;
                let head = slice(&rest, 0, i);
                push_all(&mut out, &head);
                let next = slice(&rest, i + urn.len(), rest.len());
                assert(next@ == rest@.skip(i + "urn:uuid:"@.len()));
                assert(out@ + strip_urn_spec(next@) =~= before + strip_urn_spec(rest@));
                rest = next;
            },
        }
    }
}

// ---------------------------------------------------------------------------
// ASSETMAP
// ---------------------------------------------------------------------------

/// The ASSETMAP reader's state: inside an `<Asset>`, the element being read,
/// the id and path seen so far, the assets found and whether reading stopped.
pub struct AmState {
    pub in_asset: bool,
    pub cur: Seq<char>,
    pub id: Seq<char>,
    pub path: Seq<char>,
    pub assets: Seq<(Seq<char>, Seq<char>)>,
}

pub open spec fn am_init() -> AmState {
    AmState {
        in_asset: false,
        cur: Seq::empty(),
        id: Seq::empty(),
        path: Seq::empty(),
        assets: Seq::empty(),
    }
}

/// One event of the ASSETMAP reader: an `<Asset>` collects its first `Id`
/// (without `urn:uuid:`) and first `Path`, and is kept when both are non-empty.
pub open spec fn am_step(st: AmState, t: (XmlKind, Seq<char>)) -> AmState {
    match t.0 {
        XmlKind::Start => if t.1 == "Asset"@ {
            AmState { in_asset: true, cur: t.1, id: Seq::empty(), path: Seq::empty(), ..st }
        } else {
            AmState { cur: t.1, ..st }
        },
        XmlKind::Text => if st.in_asset {
            let text = trim(t.1);
            if st.cur == "Id"@ && st.id.len() == 0 {
                AmState { id: strip_urn_spec(text), ..st }
            } else if st.cur == "Path"@ && st.path.len() == 0 {
                AmState { path: text, ..st }
            } else {
                st
            }
        } else {
            st
        },
        XmlKind::End => if t.1 == "Asset"@ {
            if st.in_asset && st.id.len() > 0 && st.path.len() > 0 {
                AmState {
                    in_asset: false,
                    cur: Seq::empty(),
                    id: Seq::empty(),
                    path: Seq::empty(),
                    assets: st.assets.push((st.id, st.path)),
                }
            } else {
                AmState { in_asset: false, cur: Seq::empty(), ..st }
            }
        } else {
            AmState { cur: Seq::empty(), ..st }
        },
        XmlKind::Error => st,
    }
}

/// The ASSETMAP reader's state after the first `n` events.
pub open spec fn am_fold(toks: Seq<(XmlKind, Seq<char>)>, n: int) -> AmState
    decreases n,
{
    if n <= 0 {
        am_init()
    } else {
        am_step(am_fold(toks, n - 1), toks[n - 1])
    }
}

/// The (id, path) pairs an ASSETMAP document lists.
pub open spec fn assetmap_assets_spec(content: Seq<char>) -> Seq<(Seq<char>, Seq<char>)> {
    let toks = xml_token_views(content);
    am_fold(toks, toks.len() as int).assets
}

pub open spec fn pair_views(v: Seq<(String, String)>) -> Seq<(Seq<char>, Seq<char>)> {
    v.map_values(|p: (String, String)| (p.0@, p.1@))
}

/// The (id, path) pairs an ASSETMAP document lists, ids without `urn:uuid:`.
pub fn assetmap_assets(content: &str) -> (r: Vec<(String, String)>)
    ensures
        pair_views(r@) == assetmap_assets_spec(content@),
{
    assetmap_from_tokens(&xml_tokens(content))
}

/// The (id, path) pairs the tokens of an ASSETMAP document list, ids without
/// `urn:uuid:`.
pub fn assetmap_from_tokens(toks: &Vec<XmlToken>) -> (r: Vec<(String, String)>)
    ensures
        pair_views(r@) == am_fold(token_views(toks@), toks@.len() as int).assets,
{
    let ghost tv = token_views(toks@);
    let mut in_asset = false;
    let mut cur: Vec<char> = Vec::new();
    let mut id: Vec<char> = Vec::new();
    let mut path: Vec<char> = Vec::new();
    let mut assets: Vec<(String, String)> = Vec::new();
    let mut i: usize = 0;
    assert(pair_views(assets@) =~= Seq::<(Seq<char>, Seq<char>)>::empty());
    while i < toks.len()
        invariant
            i <= toks.len(),
            tv == token_views(toks@),
            ({
                let st = am_fold(tv, i as int);
                &&& st.in_asset == in_asset
                &&& st.cur == cur@
                &&& st.id == id@
                &&& st.path == path@
                &&& st.assets == pair_views(assets@)
            }),
        decreases toks.len() - i,
    {
        let t = &toks[i];
        let ghost tt = tv[i as int];
        assert(tt == (t.kind, t.text@));
        match t.kind {
            XmlKind::Start => {
                let name = chars_of(t.text.as_str());
                if eq_str(&name, "Asset") {
                    in_asset = true;
                    id = Vec::new();
                    path = Vec::new();
                }
                cur = name;
            },
            XmlKind::Text => {
                if in_asset {
                    let raw = chars_of(t.text.as_str());
                    let text = trim_chars(&raw);
                    if eq_str(&cur, "Id") && id.len() == 0 {
                        id = strip_urn(&text);
                    } else if eq_str(&cur, "Path") && path.len() == 0 {
                        path = text;
                    }
                }
            },
            XmlKind::End => {
                cur = Vec::new();
                let name = chars_of(t.text.as_str());
                if eq_str(&name, "Asset") {
                    if in_asset && id.len() > 0 && path.len() > 0 {
                        let ghost before = pair_views(assets@);
                        let ghost pv = (id@, path@);
                        let entry = (string_of(&id), string_of(&path));
                        assets.push(entry);
                        assert(pair_views(assets@) =~= before.push(pv));
                        id = Vec::new();
                        path = Vec::new();
                    }
                    in_asset = false;
                }
            },
            XmlKind::Error => {},
        }
        proof {
            assert(am_fold(tv, (i + 1) as int) == am_step(am_fold(tv, i as int), tt));
        }
        i += 1;
    }
    assets
}

/// The path the last entry for `id` names, if any (a later entry for the same
/// id replaces an earlier one).
pub open spec fn lookup_last(entries: Seq<(Seq<char>, Seq<char>)>, id: Seq<char>) -> Option<
    Seq<char>,
>
    decreases entries.len(),
{
    if entries.len() == 0 {
        None
    } else if entries.last().0 == id {
        Some(entries.last().1)
    } else {
        lookup_last(entries.drop_last(), id)
    }
}

/// The path the last entry for `id` names.
pub fn lookup_path(entries: &Vec<(String, String)>, id: &[char]) -> (r: Option<Vec<char>>)
    ensures
        match (r, lookup_last(pair_views(entries@), id@)) {
            (Some(a), Some(b)) => a@ == b,
            (None, None) => true,
            _ => false,
        },
{
    let mut k: usize = entries.len();
    assert(pair_views(entries@).take(k as int) =~= pair_views(entries@));
    while k > 0
        invariant
            k <= entries.len(),
            lookup_last(pair_views(entries@), id@) == lookup_last(
                pair_views(entries@).take(k as int),
                id@,
            ),
        decreases k,
    {
        let key = chars_of(entries[k - 1].0.as_str());
        let ghost pre = pair_views(entries@).take(k as int);
        assert(pre.last() == (entries@[k - 1].0@, entries@[k - 1].1@));
        if eq(&key, id) {
            return Some(chars_of(entries[k - 1].1.as_str()));
        }
        assert(pre.drop_last() == pair_views(entries@).take(k - 1));
        k -= 1;
    }
    None
}

// ---------------------------------------------------------------------------
// CPL timeline
// ---------------------------------------------------------------------------

/// A segment entry as the timeline reader sees it.
pub struct SegModel {
    pub segment_id: Seq<char>,
    pub segment_number: u32,
    pub duration_frames: u64,
    pub entry_point: u64,
    pub edit_rate: Seq<char>,
    pub video_track_file_id: Seq<char>,
    pub audio_track_file_id: Seq<char>,
    pub video_file: Seq<char>,
    pub audio_file: Seq<char>,
}

pub open spec fn seg_default() -> SegModel {
    SegModel {
        segment_id: Seq::empty(),
        segment_number: 0,
        duration_frames: 0,
        entry_point: 0,
        edit_rate: Seq::empty(),
        video_track_file_id: Seq::empty(),
        audio_track_file_id: Seq::empty(),
        video_file: Seq::empty(),
        audio_file: Seq::empty(),
    }
}

pub open spec fn seg_view(e: SegmentEntry) -> SegModel {
    SegModel {
        segment_id: e.segment_id@,
        segment_number: e.segment_number,
        duration_frames: e.duration_frames,
        entry_point: e.entry_point,
        edit_rate: e.edit_rate@,
        video_track_file_id: e.video_track_file_id@,
        audio_track_file_id: e.audio_track_file_id@,
        video_file: e.video_file@,
        audio_file: e.audio_file@,
    }
}

pub open spec fn seg_views(v: Seq<SegmentEntry>) -> Seq<SegModel> {
    v.map_values(|e: SegmentEntry| seg_view(e))
}

/// The timeline reader's state.
pub struct TlState {
    pub in_segment: bool,
    pub in_image: bool,
    pub in_audio: bool,
    pub in_resource: bool,
    pub seg: SegModel,
    pub cur: Seq<char>,
    pub number: u32,
    pub entries: Seq<SegModel>,
}

pub open spec fn tl_init() -> TlState {
    TlState {
        in_segment: false,
        in_image: false,
        in_audio: false,
        in_resource: false,
        seg: seg_default(),
        cur: Seq::empty(),
        number: 0,
        entries: Seq::empty(),
    }
}

pub open spec fn wrapping_next(n: u32) -> u32 {
    if n == u32::MAX {
        0
    } else {
        (n + 1) as u32
    }
}

/// A duration-like text read as `u64`, keeping `old` where it does not parse.
pub open spec fn parsed_or(text: Seq<char>, old: u64) -> u64 {
    match parse_unsigned(text, u64::MAX as nat) {
        Some(v) => v as u64,
        None => old,
    }
}

/// The effect of one text event inside a segment.
pub open spec fn tl_text(st: TlState, text: Seq<char>) -> TlState {
    let seg = st.seg;
    if st.cur == "Id"@ && !st.in_image && !st.in_audio && !st.in_resource
        && seg.segment_id.len() == 0 {
        TlState { seg: SegModel { segment_id: strip_urn_spec(text), ..seg }, ..st }
    } else if st.cur == "EditRate"@ && seg.edit_rate.len() == 0 {
        TlState { seg: SegModel { edit_rate: text, ..seg }, ..st }
    } else if st.cur == "TrackFileId"@ && st.in_resource {
        let id = strip_urn_spec(text);
        if st.in_image && seg.video_track_file_id.len() == 0 {
            TlState { seg: SegModel { video_track_file_id: id, ..seg }, ..st }
        } else if st.in_audio && seg.audio_track_file_id.len() == 0 {
            TlState { seg: SegModel { audio_track_file_id: id, ..seg }, ..st }
        } else {
            st
        }
    } else if st.cur == "SourceDuration"@ && st.in_resource {
        TlState {
            seg: SegModel { duration_frames: parsed_or(text, seg.duration_frames), ..seg },
            ..st
        }
    } else if st.cur == "IntrinsicDuration"@ && st.in_resource && seg.duration_frames == 0 {
        TlState {
            seg: SegModel { duration_frames: parsed_or(text, seg.duration_frames), ..seg },
            ..st
        }
    } else if st.cur == "EntryPoint"@ && st.in_resource {
        TlState { seg: SegModel { entry_point: parsed_or(text, seg.entry_point), ..seg }, ..st }
    } else {
        st
    }
}

pub open spec fn or_empty(p: Option<Seq<char>>) -> Seq<char> {
    match p {
        Some(v) => v,
        None => Seq::empty(),
    }
}

/// One event of the timeline reader. `paths` resolves a track file id to the
/// file the ASSETMAP names for it.
pub open spec fn tl_step(
    st: TlState,
    t: (XmlKind, Seq<char>),
    paths: Seq<(Seq<char>, Seq<char>)>,
) -> TlState {
    match t.0 {
        XmlKind::Start => {
            let st = TlState { cur: t.1, ..st };
            if t.1 == "Segment"@ {
                TlState {
                    in_segment: true,
                    number: wrapping_next(st.number),
                    seg: SegModel { segment_number: wrapping_next(st.number), ..seg_default() },
                    ..st
                }
            } else if t.1 == "MainImageSequence"@ {
                TlState { in_image: true, in_audio: false, ..st }
            } else if t.1 == "MainAudioSequence"@ {
                TlState { in_audio: true, in_image: false, ..st }
            } else if t.1 == "Resource"@ {
                TlState { in_resource: true, ..st }
            } else {
                st
            }
        },
        XmlKind::Text => {
            let text = trim(t.1);
            if !st.in_segment || text.len() == 0 {
                st
            } else {
                tl_text(st, text)
            }
        },
        XmlKind::End => {
            let st = TlState { cur: Seq::empty(), ..st };
            if t.1 == "Resource"@ {
                TlState { in_resource: false, ..st }
            } else if t.1 == "MainImageSequence"@ {
                TlState { in_image: false, ..st }
            } else if t.1 == "MainAudioSequence"@ {
                TlState { in_audio: false, ..st }
            } else if t.1 == "Segment"@ {
                if st.in_segment {
                    let done_seg = SegModel {
                        video_file: or_empty(lookup_last(paths, st.seg.video_track_file_id)),
                        audio_file: or_empty(lookup_last(paths, st.seg.audio_track_file_id)),
                        ..st.seg
                    };
                    TlState {
                        entries: st.entries.push(done_seg),
                        seg: seg_default(),
                        in_segment: false,
                        ..st
                    }
                } else {
                    TlState { in_segment: false, ..st }
                }
            } else {
                st
            }
        },
        XmlKind::Error => st,
    }
}

pub open spec fn tl_fold(
    toks: Seq<(XmlKind, Seq<char>)>,
    n: int,
    paths: Seq<(Seq<char>, Seq<char>)>,
) -> TlState
    decreases n,
{
    if n <= 0 {
        tl_init()
    } else {
        tl_step(tl_fold(toks, n - 1, paths), toks[n - 1], paths)
    }
}

/// The segments a CPL document lists, track files resolved through `paths`.
pub open spec fn timeline_spec(content: Seq<char>, paths: Seq<(Seq<char>, Seq<char>)>) -> Seq<
    SegModel,
> {
    let toks = xml_token_views(content);
    tl_fold(toks, toks.len() as int, paths).entries
}


/// The executable state of the timeline reader.
struct TlExec {
    in_segment: bool,
    in_image: bool,
    in_audio: bool,
    in_resource: bool,
    seg: SegmentEntry,
    cur: Vec<char>,
    number: u32,
    entries: Vec<SegmentEntry>,
}

spec fn tl_view(e: &TlExec) -> TlState {
    TlState {
        in_segment: e.in_segment,
        in_image: e.in_image,
        in_audio: e.in_audio,
        in_resource: e.in_resource,
        seg: seg_view(e.seg),
        cur: e.cur@,
        number: e.number,
        entries: seg_views(e.entries@),
    }
}

fn empty_segment() -> (r: SegmentEntry)
    ensures
        seg_view(r) == seg_default(),
{
    SegmentEntry {
        segment_id: String::new(),
        segment_number: 0,
        duration_frames: 0,
        entry_point: 0,
        edit_rate: String::new(),
        video_track_file_id: String::new(),
        audio_track_file_id: String::new(),
        video_file: String::new(),
        audio_file: String::new(),
    }
}

/// A text event inside a segment.
fn tl_text_exec(st: &mut TlExec, text: &[char])
    ensures
        tl_view(final(st)) == tl_text(tl_view(old(st)), text@),
{
    let in_resource = st.in_resource;
    if eq_str(&st.cur, "Id") && !st.in_image && !st.in_audio && !st.in_resource
        && st.seg.segment_id.as_str().is_empty() {
        st.seg.segment_id = string_of(&strip_urn(text));
    } else if eq_str(&st.cur, "EditRate") && st.seg.edit_rate.as_str().is_empty() {
        st.seg.edit_rate = string_of(text);
    } else if eq_str(&st.cur, "TrackFileId") && in_resource {
        let id = strip_urn(text);
        if st.in_image && st.seg.video_track_file_id.as_str().is_empty() {
            st.seg.video_track_file_id = string_of(&id);
        } else if st.in_audio && st.seg.audio_track_file_id.as_str().is_empty() {
            st.seg.audio_track_file_id = string_of(&id);
        }
    } else if eq_str(&st.cur, "SourceDuration") && in_resource {
        if let Some(v) = parse_u64(text) {
            st.seg.duration_frames = v;
        }
    } else if eq_str(&st.cur, "IntrinsicDuration") && in_resource && st.seg.duration_frames
        == 0 {
        if let Some(v) = parse_u64(text) {
            st.seg.duration_frames = v;
        }
    } else if eq_str(&st.cur, "EntryPoint") && in_resource {
        if let Some(v) = parse_u64(text) {
            st.seg.entry_point = v;
        }
    }
}

/// The segments of a CPL document, their track files resolved through
/// `paths` (id, file) where the ASSETMAP names them.
pub fn timeline_from_xml(content: &str, paths: &Vec<(String, String)>) -> (r: Vec<SegmentEntry>)
    ensures
        seg_views(r@) == timeline_spec(content@, pair_views(paths@)),
{
    timeline_from_tokens(&xml_tokens(content), paths)
}

/// The segments the tokens of a CPL document give, their track files
/// resolved through `paths` (id, file) where the ASSETMAP names them.
pub fn timeline_from_tokens(toks: &Vec<XmlToken>, paths: &Vec<(String, String)>) -> (r: Vec<SegmentEntry>)
    ensures
        seg_views(r@) == tl_fold(token_views(toks@), toks@.len() as int, pair_views(paths@)).entries,
{
    let ghost tv = token_views(toks@);
    let ghost pv = pair_views(paths@);
    let mut st = TlExec {
        in_segment: false,
        in_image: false,
        in_audio: false,
        in_resource: false,
        seg: empty_segment(),
        cur: Vec::new(),
        number: 0,
        entries: Vec::new(),
    };
    assert(tl_view(&st) =~= tl_init()) by {
        assert(seg_views(st.entries@) =~= Seq::<SegModel>::empty());
    }
    let mut i: usize = 0;
    while i < toks.len()
        invariant
            i <= toks.len(),
            tv == token_views(toks@),
            pv == pair_views(paths@),
            tl_view(&st) == tl_fold(tv, i as int, pv),
        decreases toks.len() - i,
    {
        let t = &toks[i];
        let ghost tt = tv[i as int];
        assert(tt == (t.kind, t.text@));
        let ghost before = tl_view(&st);
        match t.kind {
            XmlKind::Start => {
                let name = chars_of(t.text.as_str());
                if eq_str(&name, "Segment") {
                    st.in_segment = true;
                    st.number = if st.number == u32::MAX {
                        0
                    } else {
                        st.number + 1
                    };
                    let mut seg = empty_segment();
                    seg.segment_number = st.number;
                    st.seg = seg;
                } else if eq_str(&name, "MainImageSequence") {
                    st.in_image = true;
                    st.in_audio = false;
                } else if eq_str(&name, "MainAudioSequence") {
                    st.in_audio = true;
                    st.in_image = false;
                } else if eq_str(&name, "Resource") {
                    st.in_resource = true;
                }
                st.cur = name;
            },
            XmlKind::Text => {
                let raw = chars_of(t.text.as_str());
                let text = trim_chars(&raw);
                if st.in_segment && text.len() > 0 {
                    tl_text_exec(&mut st, &text);
                }
            },
            XmlKind::End => {
                st.cur = Vec::new();
                let name = chars_of(t.text.as_str());
                if eq_str(&name, "Resource") {
                    st.in_resource = false;
                } else if eq_str(&name, "MainImageSequence") {
                    st.in_image = false;
                } else if eq_str(&name, "MainAudioSequence") {
                    st.in_audio = false;
                } else if eq_str(&name, "Segment") {
                    if st.in_segment {
                        let vid = chars_of(st.seg.video_track_file_id.as_str());
                        let aid = chars_of(st.seg.audio_track_file_id.as_str());
                        let vf = match lookup_path(paths, &vid) {
                            Some(p) => p,
                            None => Vec::new(),
                        };
                        let af = match lookup_path(paths, &aid) {
                            Some(p) => p,
                            None => Vec::new(),
                        };
                        let mut done_seg = empty_segment();
                        std::mem::swap(&mut done_seg, &mut st.seg);
                        done_seg.video_file = string_of(&vf);
                        done_seg.audio_file = string_of(&af);
                        let ghost ev = seg_views(st.entries@);
                        let ghost dv = seg_view(done_seg);
                        st.entries.push(done_seg);
                        assert(seg_views(st.entries@) =~= ev.push(dv));
                    }
                    st.in_segment = false;
                }
            },
            XmlKind::Error => {},
        }
        proof {
            assert(tl_fold(tv, (i + 1) as int, pv) == tl_step(before, tt, pv));
            assert(tl_view(&st) =~= tl_step(before, tt, pv));
        }
        i += 1;
    }
    st.entries
}

// ---------------------------------------------------------------------------
// First element text and the CPL list
// ---------------------------------------------------------------------------

/// The text of the first `<tag>` element, scanning from event `i`, as the
/// reader finds it: text is taken only while inside that element.
pub open spec fn first_text_from(
    toks: Seq<(XmlKind, Seq<char>)>,
    tag: Seq<char>,
    i: int,
    in_tag: bool,
) -> Option<Seq<char>>
    decreases toks.len() - i,
{
    if i < 0 || i >= toks.len() {
        None
    } else {
        let t = toks[i];
        match t.0 {
            XmlKind::Start => first_text_from(toks, tag, i + 1, in_tag || t.1 == tag),
            XmlKind::Text => if in_tag {
                Some(trim(t.1))
            } else {
                first_text_from(toks, tag, i + 1, in_tag)
            },
            XmlKind::End => first_text_from(toks, tag, i + 1, in_tag && t.1 != tag),
            XmlKind::Error => None,
        }
    }
}

/// The text of the first `<tag>` element of `content`.
pub open spec fn first_element_text_spec(content: Seq<char>, tag: Seq<char>) -> Option<Seq<char>> {
    first_text_from(xml_token_views(content), tag, 0, false)
}

/// Read the text of the first occurrence of `<tag>` in an XML string.
pub fn first_element_text(xml: &str, tag: &str) -> (r: Option<String>)
    ensures
        match (r, first_element_text_spec(xml@, tag@)) {
            (Some(a), Some(b)) => a@ == b,
            (None, None) => true,
            _ => false,
        },
{
    let toks = xml_tokens(xml);
    let ghost tv = token_views(toks@);
    let tagc = chars_of(tag);
    let mut in_tag = false;
    let mut i: usize = 0;
    while i < toks.len()
        invariant
            i <= toks.len(),
            tv == token_views(toks@),
            tv == xml_token_views(xml@),
            tagc@ == tag@,
            first_element_text_spec(xml@, tag@) == first_text_from(tv, tag@, i as int, in_tag),
        decreases toks.len() - i,
    {
        let t = &toks[i];
        assert(tv[i as int] == (t.kind, t.text@));
        let name = chars_of(t.text.as_str());
        match t.kind {
            XmlKind::Start => {
                if eq(&name, &tagc) {
                    in_tag = true;
                }
            },
            XmlKind::Text => {
                if in_tag {
                    return Some(string_of(&trim_chars(&name)));
                }
            },
            XmlKind::End => {
                if eq(&name, &tagc) {
                    in_tag = false;
                }
            },
            XmlKind::Error => {
                return None;
            },
        }
        i += 1;
    }
    None
}

/// The CPL an ASSETMAP entry names, given the entry's id, path and the text
/// of the file: only a document carrying `CompositionPlaylist` is one, and
/// its title is its first `ContentTitle`.
pub fn cpl_info_from(id: &str, rel_path: &str, content: &str) -> (r: Option<CplInfo>)
    ensures
        !crate::text::contains(content@, "CompositionPlaylist"@) ==> r is None,
        crate::text::contains(content@, "CompositionPlaylist"@) ==> (r matches Some(c) && c.id@
            == id@ && c.file_path@ == rel_path@ && c.title@ == or_empty(
            first_element_text_spec(content@, "ContentTitle"@),
        )),
{
    let cs = chars_of(content);
    if !crate::text::contains_str(&cs, "CompositionPlaylist") {
        return None;
    }
    let title = match first_element_text(content, "ContentTitle") {
        Some(t) => t,
        None => String::new(),
    };
    Some(
        CplInfo {
            id: string_of(&chars_of(id)),
            title,
            file_path: string_of(&chars_of(rel_path)),
        },
    )
}


// ---------------------------------------------------------------------------
// Segment numbering
// ---------------------------------------------------------------------------

/// How many `Segment` elements open among the first `n` tokens.
pub open spec fn segment_opens(toks: Seq<(XmlKind, Seq<char>)>, n: int) -> nat
    decreases n,
{
    if n <= 0 {
        0
    } else {
        segment_opens(toks, n - 1) + if toks[n - 1].0 == XmlKind::Start && toks[n - 1].1
            == "Segment"@ {
            1nat
        } else {
            0nat
        }
    }
}

/// How many `Segment` elements close among the first `n` tokens.
pub open spec fn segment_closes(toks: Seq<(XmlKind, Seq<char>)>, n: int) -> nat
    decreases n,
{
    if n <= 0 {
        0
    } else {
        segment_closes(toks, n - 1) + if toks[n - 1].0 == XmlKind::End && toks[n - 1].1
            == "Segment"@ {
            1nat
        } else {
            0nat
        }
    }
}

/// Segments open and close in turn: each closes before the next opens.
pub open spec fn segments_in_turn(toks: Seq<(XmlKind, Seq<char>)>) -> bool {
    forall|n: int|
        0 <= n <= toks.len() ==> segment_closes(toks, n) <= #[trigger] segment_opens(toks, n)
            <= segment_closes(toks, n) + 1
}

proof fn lemma_numbering_prefix(
    toks: Seq<(XmlKind, Seq<char>)>,
    n: int,
    paths: Seq<(Seq<char>, Seq<char>)>,
)
    requires
        0 <= n <= toks.len(),
        segments_in_turn(toks),
        segment_opens(toks, toks.len() as int) < u32::MAX,
    ensures
        ({
            let st = tl_fold(toks, n, paths);
            &&& st.number == segment_opens(toks, n)
            &&& st.in_segment == (segment_opens(toks, n) == segment_closes(toks, n) + 1)
            &&& st.in_segment ==> st.seg.segment_number == st.number
            &&& st.entries.len() == segment_closes(toks, n)
            &&& forall|k: int| 0 <= k < st.entries.len() ==> #[trigger] st.entries[k].segment_number == k + 1
        }),
    decreases n,
{
    assert(segment_opens(toks, n) <= segment_opens(toks, toks.len() as int)) by {
        lemma_opens_grow(toks, n, toks.len() as int);
    }
    if n > 0 {
        lemma_numbering_prefix(toks, n - 1, paths);
        let before = segment_opens(toks, n - 1);
        assert(segment_closes(toks, n - 1) <= segment_opens(toks, n - 1) <= segment_closes(toks, n - 1) + 1);
        assert(segment_closes(toks, n) <= segment_opens(toks, n) <= segment_closes(toks, n) + 1);
        let p = tl_fold(toks, n - 1, paths);
        let st = tl_fold(toks, n, paths);
        let t = toks[n - 1];
        assert(st == tl_step(p, t, paths));
        reveal_strlit("Segment");
        reveal_strlit("Resource");
        reveal_strlit("MainImageSequence");
        reveal_strlit("MainAudioSequence");
        assert("Segment"@ != "Resource"@ && "Segment"@ != "MainImageSequence"@ && "Segment"@
            != "MainAudioSequence"@) by {
            assert("Segment"@.len() != "Resource"@.len());
            assert("Segment"@.len() != "MainImageSequence"@.len());
            assert("Segment"@.len() != "MainAudioSequence"@.len());
        }
        if t.0 == XmlKind::Text {
            let text = trim(t.1);
            if p.in_segment && text.len() > 0 {
                assert(st == tl_text(p, text));
            }
        }
        if t.0 == XmlKind::End && t.1 == "Segment"@ {
            assert(p.in_segment);
            assert forall|k: int| 0 <= k < st.entries.len() implies #[trigger] st.entries[k].segment_number
                == k + 1 by {
                if k < p.entries.len() {
                    assert(st.entries[k] == p.entries[k]);
                }
            }
        }
    }
}

proof fn lemma_opens_grow(toks: Seq<(XmlKind, Seq<char>)>, m: int, n: int)
    requires
        m <= n,
    ensures
        segment_opens(toks, m) <= segment_opens(toks, n),
    decreases n - m,
{
    if m < n {
        lemma_opens_grow(toks, m, n - 1);
    }
}

/// Segments are numbered from one in the order they close: where segments
/// open and close in turn (fewer than `u32::MAX` of them), the timeline holds
/// one entry per segment, and the `k`-th entry, counting from one, carries
/// segment number `k`.
pub proof fn law_segments_numbered_in_order(
    toks: Seq<(XmlKind, Seq<char>)>,
    paths: Seq<(Seq<char>, Seq<char>)>,
)
    requires
        segments_in_turn(toks),
        segment_opens(toks, toks.len() as int) < u32::MAX,
    ensures
        tl_fold(toks, toks.len() as int, paths).entries.len() == segment_closes(toks, toks.len() as int),
        forall|k: int|
            0 <= k < tl_fold(toks, toks.len() as int, paths).entries.len() ==> (#[trigger] tl_fold(
                toks,
                toks.len() as int,
                paths,
            ).entries[k]).segment_number == k + 1,
{
    lemma_numbering_prefix(toks, toks.len() as int, paths);
}

} // verus!
