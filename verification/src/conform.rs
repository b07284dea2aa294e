//! Conforming an edit decision list to an IMP: which media a reel names, and
//! the checks a plan has to pass before anything is encoded.
use vstd::prelude::*;
use crate::text::{
    chars_of, contains, contains_chars, decimal, decimal_chars, join, join_chars, push_all,
    push_str, string_of, string_views, views,
};

verus! {

/// One timeline event with its source media found.
#[derive(Debug, Clone)]
pub struct ConformEvent {
    pub event_number: u32,
    pub reel_name: String,
    pub media: String,
    pub source_in: u64,
    pub source_out: u64,
    /// The picture track file this event became, once the IMP is built.
    pub picture_track_file: Option<String>,
    /// The sound track file this event became, once the IMP is built.
    pub sound_track_file: Option<String>,
}

impl ConformEvent {
    /// The frames the event keeps: source out minus source in, none where
    /// out is not after in.
    pub fn frames(&self) -> (r: u64)
        ensures
            r == if self.source_out >= self.source_in {
                (self.source_out - self.source_in) as u64
            } else {
                0
            },
    {
        self.source_out.saturating_sub(self.source_in)
    }
}

/// A timeline resolved against a media directory: what to encode, in the order
/// the composition plays it.
#[derive(Debug, Clone)]
pub struct ConformPlan {
    pub title: String,
    pub fps_num: u32,
    pub fps_den: u32,
    pub events: Vec<ConformEvent>,
}

/// What a finished conform wrote. Paths are text.
#[derive(Debug, Clone)]
pub struct ConformResult {
    pub imp_dir: String,
    pub cpl_path: String,
    pub manifest_path: String,
    pub picture_frames: u64,
}

/// A character as a file name may hold it: the ones Windows refuses become `_`.
pub open spec fn comparable_char(c: char) -> char {
    if c == ':' || c == '*' || c == '?' || c == '"' || c == '<' || c == '>' || c == '|' {
        '_'
    } else {
        c
    }
}

pub open spec fn comparable(s: Seq<char>) -> Seq<char> {
    s.map_values(|c: char| comparable_char(c))
}

fn comparable_chars(s: &[char]) -> (r: Vec<char>)
    ensures
        r@ == comparable(s@),
{
    let mut r: Vec<char> = Vec::new();
    let mut i: usize = 0;
    while i < s.len()
        invariant
            i <= s.len(),
            r@ == comparable(s@.take(i as int)),
        decreases s.len() - i,
    {
        let c = s[i];
        let d = if c == ':' || c == '*' || c == '?' || c == '"' || c == '<' || c == '>' || c
            == '|' {
            '_'
        } else {
            c
        };
        r.push(d);
        i += 1;
        assert(r@ =~= comparable(s@.take(i as int)));
    }
    assert(s@.take(s.len() as int) =~= s@);
    r
}

/// A reel name or file name with the characters a file name cannot hold
/// replaced, so a reel resolves the same way wherever it was named.
pub fn comparable_file_name(name: &str) -> (r: String)
    ensures
        r@ == comparable(name@),
{
    string_of(&comparable_chars(&chars_of(name)))
}

/// Whether a media file's name carries a reel's name.
pub fn media_matches(reel_name: &str, file_name: &str) -> (r: bool)
    ensures
        r == contains(comparable(file_name@), comparable(reel_name@)),
{
    let want = comparable_chars(&chars_of(reel_name));
    let have = comparable_chars(&chars_of(file_name));
    contains_chars(&have, &want)
}

/// A reel resolves to media named for it: a file whose name starts with the
/// reel's comparable spelling matches the reel, whatever follows (a take
/// suffix, an extension), since spelling a name comparably twice changes
/// nothing more.
pub proof fn law_reel_matches_media_named_for_it(reel: Seq<char>, rest: Seq<char>)
    ensures
        comparable(comparable(reel)) == comparable(reel),
        contains(comparable(comparable(reel) + rest), comparable(reel)),
{
    let c = comparable(reel);
    assert(comparable(c) =~= c);
    let f = comparable(c + rest);
    assert(f.subrange(0, c.len() as int) =~= c);
    assert(crate::text::occurs_at(f, c, 0));
    crate::text::lemma_find_from_bounds(f, c, 0);
}

/// One event of an edit decision list, as the timeline reader gives it.
#[derive(Debug, Clone)]
pub struct TimelineEvent {
    pub event_number: u32,
    pub reel_name: String,
    pub track_type: String,
    pub record_in: u64,
    pub source_in: u64,
    pub source_out: u64,
}

/// An event as the contracts see it: number, reel, track type, record in,
/// source in, source out.
pub type EventModel = (u32, Seq<char>, Seq<char>, u64, u64, u64);

pub open spec fn event_view(e: TimelineEvent) -> EventModel {
    (e.event_number, e.reel_name@, e.track_type@, e.record_in, e.source_in, e.source_out)
}

pub open spec fn event_views(v: Seq<TimelineEvent>) -> Seq<EventModel> {
    v.map_values(|e: TimelineEvent| event_view(e))
}

/// A picture event names source media: it is on a video track and its reel
/// is not black (`BL`) or aux (`AX`).
pub open spec fn is_picture_event(e: EventModel) -> bool {
    e.2.len() > 0 && e.2[0] == 'V' && e.1 != "BL"@ && e.1 != "AX"@
}

/// `e` placed into `sorted` after every event that records no later than it.
pub open spec fn insert_by_record(sorted: Seq<EventModel>, e: EventModel) -> Seq<EventModel>
    decreases sorted.len(),
{
    if sorted.len() == 0 {
        seq![e]
    } else if sorted.last().3 <= e.3 {
        sorted.push(e)
    } else {
        insert_by_record(sorted.drop_last(), e).push(sorted.last())
    }
}

/// The picture events of the first `n` events, in record order; events that
/// record at the same point keep their order.
pub open spec fn picture_events_spec(events: Seq<EventModel>, n: int) -> Seq<EventModel>
    decreases n,
{
    if n <= 0 {
        Seq::empty()
    } else if is_picture_event(events[n - 1]) {
        insert_by_record(picture_events_spec(events, n - 1), events[n - 1])
    } else {
        picture_events_spec(events, n - 1)
    }
}

pub open spec fn in_record_order(s: Seq<EventModel>) -> bool {
    forall|i: int, j: int| 0 <= i < j < s.len() ==> #[trigger] s[i].3 <= #[trigger] s[j].3
}

proof fn lemma_insert_keeps_order(s: Seq<EventModel>, e: EventModel)
    requires
        in_record_order(s),
    ensures
        in_record_order(insert_by_record(s, e)),
        insert_by_record(s, e).len() == s.len() + 1,
        forall|k: int| 0 <= k < insert_by_record(s, e).len() ==> (#[trigger] insert_by_record(s, e)[k] == e
            || s.contains(insert_by_record(s, e)[k])),
    decreases s.len(),
{
    let r = insert_by_record(s, e);
    if s.len() == 0 {
    } else if s.last().3 <= e.3 {
        assert forall|i: int, j: int| 0 <= i < j < r.len() implies #[trigger] r[i].3 <= #[trigger] r[j].3 by {
            if j == s.len() {
                assert(s[i].3 <= s[s.len() - 1].3);
            }
        }
        assert forall|k: int| 0 <= k < r.len() implies (#[trigger] r[k] == e || s.contains(r[k])) by {
            if k < s.len() {
                assert(r[k] == s[k]);
            }
        }
    } else {
        let t = s.drop_last();
        assert forall|i: int, j: int| 0 <= i < j < t.len() implies #[trigger] t[i].3 <= #[trigger] t[j].3 by {
            assert(t[i] == s[i] && t[j] == s[j]);
        }
        lemma_insert_keeps_order(t, e);
        let u = insert_by_record(t, e);
        lemma_insert_bounded(t, e, s.last().3);
        assert forall|i: int, j: int| 0 <= i < j < r.len() implies #[trigger] r[i].3 <= #[trigger] r[j].3 by {
            if j == u.len() {
                assert(r[j] == s.last());
                assert(r[i] == u[i]);
            } else {
                assert(r[i] == u[i] && r[j] == u[j]);
            }
        }
        assert forall|k: int| 0 <= k < r.len() implies (#[trigger] r[k] == e || s.contains(r[k])) by {
            if k < u.len() {
                assert(r[k] == u[k]);
                if u[k] != e {
                    let w = choose|w: int| 0 <= w < t.len() && t[w] == u[k];
                    assert(s[w] == t[w]);
                }
            } else {
                assert(r[k] == s[s.len() - 1]);
            }
        }
    }
}

proof fn lemma_insert_bounded(s: Seq<EventModel>, e: EventModel, bound: u64)
    requires
        in_record_order(s),
        forall|k: int| 0 <= k < s.len() ==> #[trigger] s[k].3 <= bound,
        e.3 < bound,
    ensures
        forall|k: int| 0 <= k < insert_by_record(s, e).len() ==> #[trigger] insert_by_record(s, e)[k].3 <= bound,
    decreases s.len(),
{
    let r = insert_by_record(s, e);
    if s.len() == 0 {
    } else if s.last().3 <= e.3 {
        assert forall|k: int| 0 <= k < r.len() implies #[trigger] r[k].3 <= bound by {
            if k < s.len() {
                assert(r[k] == s[k]);
            }
        }
    } else {
        let t = s.drop_last();
        assert forall|i: int, j: int| 0 <= i < j < t.len() implies #[trigger] t[i].3 <= #[trigger] t[j].3 by {
            assert(t[i] == s[i] && t[j] == s[j]);
        }
        assert forall|k: int| 0 <= k < t.len() implies #[trigger] t[k].3 <= bound by {
            assert(t[k] == s[k]);
        }
        lemma_insert_bounded(t, e, bound);
        assert forall|k: int| 0 <= k < r.len() implies #[trigger] r[k].3 <= bound by {
            if k < r.len() - 1 {
                assert(r[k] == insert_by_record(t, e)[k]);
            } else {
                assert(r[k] == s[s.len() - 1]);
            }
        }
    }
}

/// A conform plays its picture events in record order, and plays nothing
/// but picture events of the timeline.
pub proof fn law_picture_events_in_record_order(events: Seq<EventModel>, n: int)
    requires
        0 <= n <= events.len(),
    ensures
        in_record_order(picture_events_spec(events, n)),
        forall|k: int|
            0 <= k < picture_events_spec(events, n).len() ==> is_picture_event(
                #[trigger] picture_events_spec(events, n)[k],
            ) && events.take(n).contains(picture_events_spec(events, n)[k]),
    decreases n,
{
    if n > 0 {
        law_picture_events_in_record_order(events, n - 1);
        let p = picture_events_spec(events, n - 1);
        if is_picture_event(events[n - 1]) {
            lemma_insert_keeps_order(p, events[n - 1]);
            let r = insert_by_record(p, events[n - 1]);
            assert forall|k: int| 0 <= k < r.len() implies is_picture_event(#[trigger] r[k])
                && events.take(n).contains(r[k]) by {
                if r[k] == events[n - 1] {
                    assert(events.take(n)[n - 1] == events[n - 1]);
                } else {
                    let w = choose|w: int| 0 <= w < p.len() && p[w] == r[k];
                    assert(is_picture_event(p[w]));
                    let pre = events.take(n - 1);
                    let v = choose|v: int| 0 <= v < pre.len() && #[trigger] pre[v] == p[w];
                    assert(events.take(n)[v] == pre[v]);
                }
            }
        } else {
            assert forall|k: int| 0 <= k < p.len() implies is_picture_event(#[trigger] p[k])
                && events.take(n).contains(p[k]) by {
                let pre = events.take(n - 1);
                let v = choose|v: int| 0 <= v < pre.len() && #[trigger] pre[v] == p[k];
                assert(events.take(n)[v] == pre[v]);
            }
        }
    }
}

fn insert_event(sorted: &mut Vec<TimelineEvent>, e: TimelineEvent)
    ensures
        event_views(final(sorted)@) == insert_by_record(event_views(old(sorted)@), event_view(e)),
{
    let ghost s0 = event_views(sorted@);
    let ghost ev = event_view(e);
    let mut k: usize = sorted.len();
    assert(s0.take(k as int) =~= s0);
    assert(s0.skip(k as int) =~= Seq::<EventModel>::empty());
    while k > 0 && sorted[k - 1].record_in > e.record_in
        invariant
            k <= sorted@.len(),
            s0 == event_views(sorted@),
            ev == event_view(e),
            insert_by_record(s0, ev) == insert_by_record(s0.take(k as int), ev) + s0.skip(k as int),
        decreases k,
    {
        proof {
            let t = s0.take(k as int);
            assert(t.last() == s0[k - 1]);
            assert(s0[k - 1] == event_view(sorted@[k - 1]));
            assert(t.drop_last() =~= s0.take(k - 1));
            assert(s0.skip(k - 1) =~= seq![s0[k - 1]] + s0.skip(k as int));
            assert(insert_by_record(t, ev) == insert_by_record(s0.take(k - 1), ev).push(s0[k - 1]));
            assert(insert_by_record(s0.take(k - 1), ev).push(s0[k - 1]) + s0.skip(k as int)
                =~= insert_by_record(s0.take(k - 1), ev) + s0.skip(k - 1));
        }
        k -= 1;
    }
    proof {
        let t = s0.take(k as int);
        if k == 0 {
            assert(t =~= Seq::<EventModel>::empty());
        } else {
            assert(t.last() == s0[k - 1]);
            assert(s0[k - 1] == event_view(sorted@[k - 1]));
        }
        assert(insert_by_record(t, ev) == t.push(ev));
    }
    sorted.insert(k, e);
    assert(event_views(sorted@) =~= s0.take(k as int).push(ev) + s0.skip(k as int));
}

/// The events a conform encodes: the picture events, in record order.
pub fn picture_events(events: &Vec<TimelineEvent>) -> (r: Vec<TimelineEvent>)
    ensures
        event_views(r@) == picture_events_spec(event_views(events@), events@.len() as int),
{
    let ghost evs = event_views(events@);
    let mut sorted: Vec<TimelineEvent> = Vec::new();
    let mut i: usize = 0;
    assert(event_views(sorted@) =~= Seq::<EventModel>::empty());
    while i < events.len()
        invariant
            i <= events@.len(),
            evs == event_views(events@),
            event_views(sorted@) == picture_events_spec(evs, i as int),
        decreases events.len() - i,
    {
        let e = &events[i];
        let t = crate::text::chars_of(e.track_type.as_str());
        let is_video = t.len() > 0 && t[0] == 'V';
        let reel = crate::text::chars_of(e.reel_name.as_str());
        let copy = TimelineEvent {
            event_number: e.event_number,
            reel_name: crate::text::string_of(&reel),
            track_type: crate::text::string_of(&t),
            record_in: e.record_in,
            source_in: e.source_in,
            source_out: e.source_out,
        };
        assert(event_view(copy) == evs[i as int]);
        if is_video && !crate::text::eq_str(&reel, "BL") && !crate::text::eq_str(&reel, "AX") {
            insert_event(&mut sorted, copy);
        }
        i += 1;
    }
    sorted
}

/// The first event that keeps no frames.
pub open spec fn first_empty(events: Seq<ConformEvent>, from: int) -> Option<int>
    decreases events.len() - from,
{
    if from < 0 || from >= events.len() {
        None
    } else if events[from].source_out <= events[from].source_in {
        Some(from)
    } else {
        first_empty(events, from + 1)
    }
}

/// After resolution: refuse reels with no media (all named), then the first
/// event that keeps no frames.
pub open spec fn resolution_spec(events: Seq<ConformEvent>, missing: Seq<Seq<char>>, media_dir: Seq<char>) -> Result<(), Seq<char>> {
    if missing.len() > 0 {
        Err("no media under "@ + media_dir + " for reel "@ + join(missing, ", "@))
    } else {
        match first_empty(events, 0) {
            Some(i) => {
                let e = events[i];
                Err(
                    "event "@ + decimal(e.event_number as nat) + " on reel "@ + e.reel_name@
                        + " keeps no frames: source in "@ + decimal(e.source_in as nat)
                        + " is not before source out "@ + decimal(e.source_out as nat),
                )
            },
            None => Ok(()),
        }
    }
}

/// Refuse a resolution that left reels without media, or an event with no frames.
pub fn check_resolution(events: &Vec<ConformEvent>, missing: &Vec<String>, media_dir: &str) -> (r:
    Result<(), String>)
    ensures
        match resolution_spec(events@, string_views(missing@), media_dir@) {
            Ok(()) => r is Ok,
            Err(m) => r matches Err(e) && e@ == m,
        },
{
    if missing.len() > 0 {
        let mut parts: Vec<Vec<char>> = Vec::new();
        let mut i: usize = 0;
        while i < missing.len()
            invariant
                i <= missing.len(),
                views(parts@) == string_views(missing@).take(i as int),
            decreases missing.len() - i,
        {
            let ghost before = views(parts@);
            let c = chars_of(missing[i].as_str());
            parts.push(c);
            assert(views(parts@) =~= before.push(missing@[i as int]@));
            i += 1;
            assert(string_views(missing@).take(i as int) =~= before.push(missing@[i - 1]@));
        }
        assert(string_views(missing@).take(missing.len() as int) =~= string_views(missing@));
        let sep = chars_of(", ");
        let mut m = chars_of("no media under ");
        push_str(&mut m, media_dir);
        push_str(&mut m, " for reel ");
        push_all(&mut m, &join_chars(&parts, &sep));
        return Err(string_of(&m));
    }
    let mut i: usize = 0;
    while i < events.len()
        invariant
            i <= events.len(),
            missing@.len() == 0,
            first_empty(events@, 0) == first_empty(events@, i as int),
        decreases events.len() - i,
    {
        let e = &events[i];
        if e.source_out <= e.source_in {
            let mut m = chars_of("event ");
            push_all(&mut m, &decimal_chars(e.event_number as u64));
            push_str(&mut m, " on reel ");
            push_str(&mut m, e.reel_name.as_str());
            push_str(&mut m, " keeps no frames: source in ");
            push_all(&mut m, &decimal_chars(e.source_in));
            push_str(&mut m, " is not before source out ");
            push_all(&mut m, &decimal_chars(e.source_out));
            return Err(string_of(&m));
        }
        i += 1;
    }
    Ok(())
}

// ---------------------------------------------------------------------------
// The raster every event shares
// ---------------------------------------------------------------------------

/// What a probe of an event's media found.
#[derive(Debug, Clone, Copy)]
pub struct VideoInfo {
    pub width: u32,
    pub height: u32,
    pub total_frames: u64,
    pub has_audio: bool,
}

/// What the picture of every event has to agree on, since one virtual track
/// carries them all.
#[derive(Debug, Clone, Copy, PartialEq, Eq, Structural)]
pub struct Raster {
    pub width: u32,
    pub height: u32,
    pub has_sound: bool,
}

/// One event against the raster the earlier events agreed on.
pub open spec fn raster_step_spec(agreed: Option<Raster>, e: ConformEvent, info: VideoInfo) -> Result<Raster, Seq<char>> {
    if info.total_frames > 0 && e.source_out > info.total_frames {
        Err(
            "event "@ + decimal(e.event_number as nat) + " asks for frames "@ + decimal(
                e.source_in as nat,
            ) + ".."@ + decimal(e.source_out as nat) + " of "@ + e.media@ + ", which is "@
                + decimal(info.total_frames as nat) + " frames long"@,
        )
    } else {
        match agreed {
            None => Ok(Raster { width: info.width, height: info.height, has_sound: info.has_audio }),
            Some(first) => if first.width != info.width || first.height != info.height {
                Err(
                    e.media@ + " is "@ + decimal(info.width as nat) + "x"@ + decimal(
                        info.height as nat,
                    ) + " where the first event is "@ + decimal(first.width as nat) + "x"@
                        + decimal(first.height as nat)
                        + ", and one image track carries one raster"@,
                )
            } else if first.has_sound != info.has_audio {
                Err(
                    e.media@ + " carries "@ + (if info.has_audio {
                        ""@
                    } else {
                        "no"@
                    }) + " sound where an earlier event carries "@ + (if first.has_sound {
                        "some"@
                    } else {
                        "none"@
                    }),
                )
            } else {
                Ok(first)
            },
        }
    }
}

/// Check one event's probed media against the raster the earlier events
/// agreed on; the first event sets it.
pub fn raster_step(agreed: Option<Raster>, event: &ConformEvent, info: &VideoInfo) -> (r: Result<
    Raster,
    String,
>)
    ensures
        match raster_step_spec(agreed, *event, *info) {
            Ok(x) => r == Ok::<Raster, String>(x),
            Err(m) => r matches Err(e) && e@ == m,
        },
{
    if info.total_frames > 0 && event.source_out > info.total_frames {
        let mut m = chars_of("event ");
        push_all(&mut m, &decimal_chars(event.event_number as u64));
        push_str(&mut m, " asks for frames ");
        push_all(&mut m, &decimal_chars(event.source_in));
        push_str(&mut m, "..");
        push_all(&mut m, &decimal_chars(event.source_out));
        push_str(&mut m, " of ");
        push_str(&mut m, event.media.as_str());
        push_str(&mut m, ", which is ");
        push_all(&mut m, &decimal_chars(info.total_frames));
        push_str(&mut m, " frames long");
        return Err(string_of(&m));
    }
    match agreed {
        None => Ok(Raster { width: info.width, height: info.height, has_sound: info.has_audio }),
        Some(first) => {
            if first.width != info.width || first.height != info.height {
                let mut m = chars_of(event.media.as_str());
                push_str(&mut m, " is ");
                push_all(&mut m, &decimal_chars(info.width as u64));
                push_str(&mut m, "x");
                push_all(&mut m, &decimal_chars(info.height as u64));
                push_str(&mut m, " where the first event is ");
                push_all(&mut m, &decimal_chars(first.width as u64));
                push_str(&mut m, "x");
                push_all(&mut m, &decimal_chars(first.height as u64));
                push_str(&mut m, ", and one image track carries one raster");
                return Err(string_of(&m));
            }
            if first.has_sound != info.has_audio {
                let mut m = chars_of(event.media.as_str());
                push_str(&mut m, " carries ");
                push_str(
                    &mut m,
                    if info.has_audio {
                        ""
                    } else {
                        "no"
                    },
                );
                push_str(&mut m, " sound where an earlier event carries ");
                push_str(
                    &mut m,
                    if first.has_sound {
                        "some"
                    } else {
                        "none"
                    },
                );
                return Err(string_of(&m));
            }
            Ok(first)
        },
    }
}

/// The raster of a plan whose every event was checked, or the refusal of a
/// plan with no events.
pub fn agreed_raster(agreed: Option<Raster>) -> (r: Result<Raster, String>)
    ensures
        match agreed {
            Some(x) => r == Ok::<Raster, String>(x),
            None => r matches Err(e) && e@ == "the plan holds no events"@,
        },
{
    match agreed {
        Some(x) => Ok(x),
        None => Err(string_of(&chars_of("the plan holds no events"))),
    }
}

} // verus!
