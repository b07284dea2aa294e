//! What a composition playlist (ST 2067-3) lists: one resource per track file
//! of a kind a track carries, and the audio languages of its LocaleList.
use vstd::prelude::*;
use crate::imp::{AudioTrack, Composition};
use crate::imp_diff::distinct;
use crate::text::{chars_of, last_piece, last_piece_chars, starts_with, starts_with_str, string_of, string_views};
use crate::MxfTrackFile;

verus! {

/// The kind of track a track file plays in.
#[derive(Debug, Clone, Copy, PartialEq, Eq, Structural)]
pub enum TrackKind {
    Image,
    Audio,
    Subtitle,
}

/// The track kind a track file's name declares by its prefix, as the MXF
/// wrapper names them; `None` for a file that is no track file.
pub open spec fn track_kind_of(name: Seq<char>) -> Option<TrackKind> {
    if starts_with(name, "VIDEO_"@) {
        Some(TrackKind::Image)
    } else if starts_with(name, "AUDIO_"@) {
        Some(TrackKind::Audio)
    } else if starts_with(name, "SUBTITLE_"@) {
        Some(TrackKind::Subtitle)
    } else {
        None
    }
}

/// The track kind a track file's name declares.
pub fn track_kind(file_name: &str) -> (r: Option<TrackKind>)
    ensures
        r == track_kind_of(file_name@),
{
    let n = chars_of(file_name);
    if starts_with_str(&n, "VIDEO_") {
        Some(TrackKind::Image)
    } else if starts_with_str(&n, "AUDIO_") {
        Some(TrackKind::Audio)
    } else if starts_with_str(&n, "SUBTITLE_") {
        Some(TrackKind::Subtitle)
    } else {
        None
    }
}

/// The file name of a track file: its path after the last `/`.
pub open spec fn file_name_of(path: Seq<char>) -> Seq<char> {
    last_piece(path, "/"@)
}

/// One resource of a CPL: the track file it plays, for how long, in which
/// kind of track.
#[derive(Debug, Clone)]
pub struct CplResource {
    pub track_file_uuid: String,
    pub duration: u64,
    pub kind: TrackKind,
}

/// The resources the track files become, in order: a track file whose name
/// declares no kind is left out.
pub open spec fn resources_spec(tfs: Seq<MxfTrackFile>) -> Seq<(Seq<char>, u64, TrackKind)>
    decreases tfs.len(),
{
    if tfs.len() == 0 {
        Seq::empty()
    } else {
        let t = tfs.last();
        let rest = resources_spec(tfs.drop_last());
        match track_kind_of(file_name_of(t.path@)) {
            Some(k) => rest.push((t.uuid@, t.duration, k)),
            None => rest,
        }
    }
}

pub open spec fn resource_views(v: Seq<CplResource>) -> Seq<(Seq<char>, u64, TrackKind)> {
    v.map_values(|r: CplResource| (r.track_file_uuid@, r.duration, r.kind))
}

/// The CPL resources of `track_files`.
pub fn cpl_resources(track_files: &Vec<MxfTrackFile>) -> (r: Vec<CplResource>)
    ensures
        resource_views(r@) == resources_spec(track_files@),
{
    let mut out: Vec<CplResource> = Vec::new();
    let mut i: usize = 0;
    while i < track_files.len()
        invariant
            i <= track_files.len(),
            resource_views(out@) == resources_spec(track_files@.take(i as int)),
        decreases track_files.len() - i,
    {
        let tf = &track_files[i];
        let slash = chars_of("/");
        proof {
            reveal_strlit("/");
        }
        let name = last_piece_chars(&chars_of(tf.path.as_str()), &slash);
        let ghost before = out@;
        proof {
            assert(track_files@.take(i + 1).drop_last() =~= track_files@.take(i as int));
            assert(track_files@.take(i + 1).last() == *tf);
        }
        match track_kind(string_of(&name).as_str()) {
            Some(kind) => {
                out.push(CplResource { track_file_uuid: tf.uuid.clone(), duration: tf.duration, kind });
                assert(resource_views(out@) =~= resource_views(before).push(
                    (tf.uuid@, tf.duration, kind),
                ));
            },
            None => {},
        }
        i += 1;
    }
    assert(track_files@.take(track_files.len() as int) =~= track_files@);
    out
}

/// The language tags the audio tracks carry, in track order.
pub open spec fn track_languages(tracks: Seq<AudioTrack>) -> Seq<Seq<char>>
    decreases tracks.len(),
{
    if tracks.len() == 0 {
        Seq::empty()
    } else {
        let rest = track_languages(tracks.drop_last());
        match tracks.last().language {
            Some(l) => rest.push(l@),
            None => rest,
        }
    }
}

/// The languages of a composition's LocaleList: each audio language once, in
/// first-seen order.
pub fn composition_languages(comp: &Composition) -> (r: Vec<String>)
    ensures
        string_views(r@) == distinct(track_languages(comp.audio_files@)),
{
    let tracks = &comp.audio_files;
    let mut out: Vec<String> = Vec::new();
    let mut i: usize = 0;
    while i < tracks.len()
        invariant
            i <= tracks.len(),
            tracks == &comp.audio_files,
            string_views(out@) == distinct(track_languages(tracks@.take(i as int))),
        decreases tracks.len() - i,
    {
        let ghost before = string_views(out@);
        let ghost prev = track_languages(tracks@.take(i as int));
        proof {
            assert(tracks@.take(i + 1).drop_last() =~= tracks@.take(i as int));
            assert(tracks@.take(i + 1).last() == tracks@[i as int]);
        }
        match &tracks[i].language {
            Some(l) => {
                assert(track_languages(tracks@.take(i + 1)) == prev.push(l@));
                assert(prev.push(l@).drop_last() =~= prev);
                let mut seen = false;
                let mut j: usize = 0;
                while j < out.len()
                    invariant
                        j <= out.len(),
                        before == string_views(out@),
                        seen <==> exists|q: int| 0 <= q < j && before[q] == l@,
                    decreases out.len() - j,
                {
                    let same = crate::text::eq(&chars_of(out[j].as_str()), &chars_of(l.as_str()));
                    proof {
                        assert(before[j as int] == out@[j as int]@);
                    }
                    if same {
                        seen = true;
                    }
                    j += 1;
                }
                proof {
                    assert(seen <==> before.contains(l@));
                }
                if !seen {
                    out.push(l.clone());
                    assert(string_views(out@) =~= before.push(l@));
                }
            },
            None => {
                assert(track_languages(tracks@.take(i + 1)) == prev);
            },
        }
        i += 1;
    }
    assert(tracks@.take(tracks.len() as int) =~= tracks@);
    out
}

/// A CPL's LocaleList names every language its audio carries, and each once.
pub proof fn law_each_language_listed_once(tracks: Seq<AudioTrack>)
    ensures
        distinct(track_languages(tracks)).no_duplicates(),
        forall|l: Seq<char>| #[trigger] distinct(track_languages(tracks)).contains(l) <==> track_languages(
            tracks,
        ).contains(l),
{
    lemma_distinct_props(track_languages(tracks));
}

proof fn lemma_distinct_props(s: Seq<Seq<char>>)
    ensures
        distinct(s).no_duplicates(),
        forall|l: Seq<char>| #[trigger] distinct(s).contains(l) <==> s.contains(l),
    decreases s.len(),
{
    if s.len() > 0 {
        let t = s.drop_last();
        lemma_distinct_props(t);
        let d = distinct(t);
        assert forall|l: Seq<char>| #[trigger] distinct(s).contains(l) <==> s.contains(l) by {
            if s.contains(l) && l != s.last() {
                let k = choose|k: int| 0 <= k < s.len() && s[k] == l;
                assert(t[k] == l);
            }
            if t.contains(l) {
                let k = choose|k: int| 0 <= k < t.len() && t[k] == l;
                assert(s[k] == l);
            }
            if !d.contains(s.last()) {
                let e = d.push(s.last());
                if d.contains(l) {
                    let k = choose|k: int| 0 <= k < d.len() && d[k] == l;
                    assert(e[k] == l);
                }
                if e.contains(l) && l != s.last() {
                    let k = choose|k: int| 0 <= k < e.len() && e[k] == l;
                    assert(d[k] == l);
                }
                assert(e[d.len() as int] == s.last());
            }
            assert(s[s.len() - 1] == s.last());
        }
        if !d.contains(s.last()) {
            let e = d.push(s.last());
            assert forall|i: int, j: int| 0 <= i < e.len() && 0 <= j < e.len() && i != j implies e[i]
                != e[j] by {
                if i < d.len() && j < d.len() {
                } else if i < d.len() {
                    assert(d.contains(e[i]));
                } else {
                    assert(d.contains(e[j]));
                }
            }
        }
    }
}

} // verus!
