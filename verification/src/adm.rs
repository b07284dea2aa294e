//! Reading ADM metadata (ITU-R BS.2076) out of an `axml` document: the
//! programme's name, its bed channels and its objects, with the track each
//! channel format takes in document order.
//!
//! quick-xml reads the document; which element a text belongs to and when a
//! channel format is complete is the fold below. An object's position arrives
//! as the texts its block formats give for each coordinate, in order; the
//! coordinate is the first of them that reads as a number.
use vstd::prelude::*;
use quick_xml::events::Event::{Empty, End, Eof, Start, Text};
use quick_xml::reader::Reader;
use crate::atmos::{utf8_lossy, utf8_lossy_string, BedChannel};
use crate::text::{chars_of, eq_str, string_of, string_views, trim, trim_chars};

verus! {

/// One event of an ADM document: an element opening (or an empty element)
/// with its local name and its attributes by local name, as raw bytes;
/// character data, unescaped; an element closing with its local name.
#[derive(Debug, Clone)]
pub enum AdmEvent {
    Open(Vec<u8>, Vec<(Vec<u8>, Vec<u8>)>),
    Chars(String),
    Close(Vec<u8>),
}

/// An event as the fold reads it.
pub enum AdmEventView {
    Open(Seq<u8>, Seq<(Seq<u8>, Seq<u8>)>),
    Chars(Seq<char>),
    Close(Seq<u8>),
}

pub open spec fn attr_views(v: Seq<(Vec<u8>, Vec<u8>)>) -> Seq<(Seq<u8>, Seq<u8>)> {
    v.map_values(|p: (Vec<u8>, Vec<u8>)| (p.0@, p.1@))
}

pub open spec fn event_view(e: AdmEvent) -> AdmEventView {
    match e {
        AdmEvent::Open(n, a) => AdmEventView::Open(n@, attr_views(a@)),
        AdmEvent::Chars(t) => AdmEventView::Chars(t@),
        AdmEvent::Close(n) => AdmEventView::Close(n@),
    }
}

pub open spec fn event_views(v: Seq<AdmEvent>) -> Seq<AdmEventView> {
    v.map_values(|e: AdmEvent| event_view(e))
}

/// The events quick-xml reads from `xml`, text untrimmed, up to the end of
/// the document or the first error.
pub uninterp spec fn adm_events_of(xml: Seq<char>) -> Seq<AdmEventView>;

/// Read the events of an ADM document.
///
/// Calls `quick_xml::reader::Reader::from_str` and `read_event` until `Eof`
/// or the first error. A start or empty tag gives its
/// local name and each well-formed attribute's local key and raw value; text
/// gives its unescaped content (empty where unescaping fails); an end tag its
/// local name; other events are skipped. What quick-xml reads is named, not
/// restated.
#[verifier::external_body]
fn adm_events(xml: &str) -> (r: Vec<AdmEvent>)
    ensures
        event_views(r@) == adm_events_of(xml@),
{
    let mut rd = Reader::from_str(xml);
    let mut out = Vec::new();
    loop {
        out.push(match rd.read_event() {
            Ok(Start(e)) | Ok(Empty(e)) => AdmEvent::Open(e.local_name().into_inner().to_vec(),
                e.attributes().flatten().map(|a| (a.key.local_name().into_inner().to_vec(), a.value.to_vec())).collect()),
            Ok(Text(t)) => AdmEvent::Chars(t.unescape().unwrap_or_default().into_owned()),
            Ok(End(e)) => AdmEvent::Close(e.local_name().into_inner().to_vec()),
            Ok(Eof) | Err(_) => return out,
            Ok(_) => continue,
        });
    }
}

/// A dynamic audio object: its id and name, its track, and the texts its
/// block formats give for each coordinate of its position, in order.
#[derive(Debug, Clone)]
pub struct AudioObject {
    pub id: String,
    pub name: String,
    pub track_index: u64,
    pub azimuth: Vec<String>,
    pub elevation: Vec<String>,
    pub distance: Vec<String>,
}

/// Parsed ADM metadata from a BWF file; `total_channels` counts every channel
/// format, whatever its type.
#[derive(Debug, Clone)]
pub struct AdmMetadata {
    pub programme_name: String,
    pub beds: Vec<BedChannel>,
    pub objects: Vec<AudioObject>,
    pub total_channels: u64,
}

/// What a channel format has gathered so far.
pub struct AccModel {
    pub id: Seq<char>,
    pub name: Seq<char>,
    pub type_label: Seq<char>,
    pub speaker: Seq<char>,
    pub azimuth: Seq<Seq<char>>,
    pub elevation: Seq<Seq<char>>,
    pub distance: Seq<Seq<char>>,
}

/// An object as the fold records it.
pub struct ObjectModel {
    pub id: Seq<char>,
    pub name: Seq<char>,
    pub track: nat,
    pub azimuth: Seq<Seq<char>>,
    pub elevation: Seq<Seq<char>>,
    pub distance: Seq<Seq<char>>,
}

/// The fold's state: what is read so far, the channel format being read and
/// the element the next text belongs to.
pub struct AdmState {
    pub programme: Seq<char>,
    pub beds: Seq<(Seq<char>, Seq<char>, nat)>,
    pub objects: Seq<ObjectModel>,
    pub tracks: nat,
    pub acc: Option<AccModel>,
    pub cur: Seq<char>,
}

/// The first attribute whose local key reads as `key`, its value as text.
pub open spec fn attr_of(attrs: Seq<(Seq<u8>, Seq<u8>)>, key: Seq<char>) -> Option<Seq<char>>
    decreases attrs.len(),
{
    if attrs.len() == 0 {
        None
    } else if utf8_lossy(attrs[0].0) == key {
        Some(utf8_lossy(attrs[0].1))
    } else {
        attr_of(attrs.drop_first(), key)
    }
}

pub open spec fn attr_or_empty(attrs: Seq<(Seq<u8>, Seq<u8>)>, key: Seq<char>) -> Seq<char> {
    match attr_of(attrs, key) {
        Some(v) => v,
        None => Seq::empty(),
    }
}

pub open spec fn adm_start() -> AdmState {
    AdmState {
        programme: Seq::empty(),
        beds: Seq::empty(),
        objects: Seq::empty(),
        tracks: 0,
        acc: None,
        cur: Seq::empty(),
    }
}

/// An element opening: the first programme name seen is kept, a channel
/// format starts gathering, and the element is the one the next text is in.
pub open spec fn on_open(st: AdmState, name: Seq<char>, attrs: Seq<(Seq<u8>, Seq<u8>)>) -> AdmState {
    let programme = if st.programme.len() == 0 {
        match attr_of(attrs, "audioProgrammeName"@) {
            Some(v) => v,
            None => st.programme,
        }
    } else {
        st.programme
    };
    let acc = if name == "audioChannelFormat"@ {
        Some(
            AccModel {
                id: attr_or_empty(attrs, "audioChannelFormatID"@),
                name: attr_or_empty(attrs, "audioChannelFormatName"@),
                type_label: attr_or_empty(attrs, "typeLabel"@),
                speaker: Seq::empty(),
                azimuth: Seq::empty(),
                elevation: Seq::empty(),
                distance: Seq::empty(),
            },
        )
    } else {
        st.acc
    };
    AdmState { programme, acc, cur: name, ..st }
}

/// Character data inside a channel format: the first speaker label, and each
/// coordinate text.
pub open spec fn on_text(st: AdmState, text: Seq<char>) -> AdmState {
    let t = trim(text);
    match st.acc {
        None => st,
        Some(a) => if t.len() == 0 {
            st
        } else if st.cur == "speakerLabel"@ && a.speaker.len() == 0 {
            AdmState { acc: Some(AccModel { speaker: t, ..a }), ..st }
        } else if st.cur == "azimuth"@ {
            AdmState { acc: Some(AccModel { azimuth: a.azimuth.push(t), ..a }), ..st }
        } else if st.cur == "elevation"@ {
            AdmState { acc: Some(AccModel { elevation: a.elevation.push(t), ..a }), ..st }
        } else if st.cur == "distance"@ {
            AdmState { acc: Some(AccModel { distance: a.distance.push(t), ..a }), ..st }
        } else {
            st
        },
    }
}

/// An element closing: a channel format that closes takes the next track,
/// and is a bed (`0001`) or an object (`0003`) by its type label.
pub open spec fn on_close(st: AdmState, name: Seq<char>) -> AdmState {
    let s = AdmState { cur: Seq::empty(), ..st };
    if name == "audioChannelFormat"@ {
        match st.acc {
            Some(a) => {
                let beds = if a.type_label == "0001"@ {
                    st.beds.push((a.name, a.speaker, st.tracks))
                } else {
                    st.beds
                };
                let objects = if a.type_label == "0003"@ {
                    st.objects.push(
                        ObjectModel {
                            id: a.id,
                            name: a.name,
                            track: st.tracks,
                            azimuth: a.azimuth,
                            elevation: a.elevation,
                            distance: a.distance,
                        },
                    )
                } else {
                    st.objects
                };
                AdmState { beds, objects, tracks: st.tracks + 1, acc: None, ..s }
            },
            None => s,
        }
    } else {
        s
    }
}

pub open spec fn adm_step(st: AdmState, e: AdmEventView) -> AdmState {
    match e {
        AdmEventView::Open(n, a) => on_open(st, utf8_lossy(n), a),
        AdmEventView::Chars(t) => on_text(st, t),
        AdmEventView::Close(n) => on_close(st, utf8_lossy(n)),
    }
}

/// The state after the first `n` events.
pub open spec fn adm_fold(events: Seq<AdmEventView>, n: int) -> AdmState
    decreases n,
{
    if n <= 0 {
        adm_start()
    } else {
        adm_step(adm_fold(events, n - 1), events[n - 1])
    }
}

/// What the ADM metadata of `xml` is: nothing for an empty document, else
/// the fold over all its events.
pub open spec fn adm_of(xml: Seq<char>) -> AdmState {
    if xml.len() == 0 {
        adm_start()
    } else {
        adm_fold(adm_events_of(xml), adm_events_of(xml).len() as int)
    }
}

pub open spec fn bed_views(v: Seq<BedChannel>) -> Seq<(Seq<char>, Seq<char>, nat)> {
    v.map_values(|b: BedChannel| (b.label@, b.speaker_label@, b.track_index as nat))
}

pub open spec fn object_model(o: AudioObject) -> ObjectModel {
    ObjectModel {
        id: o.id@,
        name: o.name@,
        track: o.track_index as nat,
        azimuth: string_views(o.azimuth@),
        elevation: string_views(o.elevation@),
        distance: string_views(o.distance@),
    }
}

pub open spec fn object_views(v: Seq<AudioObject>) -> Seq<ObjectModel> {
    v.map_values(|o: AudioObject| object_model(o))
}

/// The channel format being gathered, as the library holds it.
struct Acc {
    id: String,
    name: String,
    type_label: String,
    speaker: String,
    azimuth: Vec<String>,
    elevation: Vec<String>,
    distance: Vec<String>,
}

spec fn acc_model(a: Acc) -> AccModel {
    AccModel {
        id: a.id@,
        name: a.name@,
        type_label: a.type_label@,
        speaker: a.speaker@,
        azimuth: string_views(a.azimuth@),
        elevation: string_views(a.elevation@),
        distance: string_views(a.distance@),
    }
}

spec fn acc_opt_model(a: Option<Acc>) -> Option<AccModel> {
    match a {
        Some(x) => Some(acc_model(x)),
        None => None,
    }
}

/// The fold's state as the library holds it.
struct Fold {
    programme: String,
    beds: Vec<BedChannel>,
    objects: Vec<AudioObject>,
    tracks: u64,
    acc: Option<Acc>,
    cur: Vec<char>,
}

spec fn fold_model(f: Fold) -> AdmState {
    AdmState {
        programme: f.programme@,
        beds: bed_views(f.beds@),
        objects: object_views(f.objects@),
        tracks: f.tracks as nat,
        acc: acc_opt_model(f.acc),
        cur: f.cur@,
    }
}

fn attr_value(attrs: &Vec<(Vec<u8>, Vec<u8>)>, key: &str) -> (r: Option<String>)
    ensures
        match attr_of(attr_views(attrs@), key@) {
            Some(v) => r matches Some(s) && s@ == v,
            None => r is None,
        },
{
    let ghost av = attr_views(attrs@);
    let k = chars_of(key);
    assert(av.skip(0) =~= av);
    let mut i: usize = 0;
    while i < attrs.len()
        invariant
            i <= attrs.len(),
            av == attr_views(attrs@),
            k@ == key@,
            attr_of(av, key@) == attr_of(av.skip(i as int), key@),
        decreases attrs.len() - i,
    {
        let name = utf8_lossy_string(attrs[i].0.as_slice());
        proof {
            assert(av.skip(i as int)[0] == av[i as int]);
            assert(av[i as int] == (attrs@[i as int].0@, attrs@[i as int].1@));
            assert(av.skip(i as int).drop_first() =~= av.skip(i + 1));
        }
        if crate::text::eq(&chars_of(name.as_str()), &k) {
            return Some(utf8_lossy_string(attrs[i].1.as_slice()));
        }
        i += 1;
    }
    assert(av.skip(attrs.len() as int).len() == 0);
    None
}

fn attr_value_or_empty(attrs: &Vec<(Vec<u8>, Vec<u8>)>, key: &str) -> (r: String)
    ensures
        r@ == attr_or_empty(attr_views(attrs@), key@),
{
    match attr_value(attrs, key) {
        Some(v) => v,
        None => string_of(&Vec::new()),
    }
}

fn open_step(f: &mut Fold, name: Vec<char>, attrs: &Vec<(Vec<u8>, Vec<u8>)>)
    ensures
        fold_model(*final(f)) == on_open(fold_model(*old(f)), name@, attr_views(attrs@)),
{
    let ghost st = fold_model(*old(f));
    if chars_of(f.programme.as_str()).len() == 0 {
        match attr_value(attrs, "audioProgrammeName") {
            Some(v) => {
                f.programme = v;
            },
            None => {},
        }
    }
    if eq_str(&name, "audioChannelFormat") {
        f.acc = Some(
            Acc {
                id: attr_value_or_empty(attrs, "audioChannelFormatID"),
                name: attr_value_or_empty(attrs, "audioChannelFormatName"),
                type_label: attr_value_or_empty(attrs, "typeLabel"),
                speaker: string_of(&Vec::new()),
                azimuth: Vec::new(),
                elevation: Vec::new(),
                distance: Vec::new(),
            },
        );
        proof {
            assert(string_views(Seq::<String>::empty()) =~= Seq::<Seq<char>>::empty());
        }
    }
    f.cur = name;
    proof {
        let want = on_open(st, name@, attr_views(attrs@));
        assert(fold_model(*f).acc == want.acc);
        assert(fold_model(*f).programme == want.programme);
    }
}

fn push_text(v: &mut Vec<String>, t: &Vec<char>)
    ensures
        string_views(final(v)@) == string_views(old(v)@).push(t@),
{
    let ghost before = string_views(v@);
    v.push(string_of(t));
    assert(string_views(v@) =~= before.push(t@));
}

fn text_step(f: &mut Fold, text: &String)
    ensures
        fold_model(*final(f)) == on_text(fold_model(*old(f)), text@),
{
    let ghost st = fold_model(*old(f));
    let t = trim_chars(&chars_of(text.as_str()));
    let cur_speaker = eq_str(&f.cur, "speakerLabel");
    let cur_azimuth = eq_str(&f.cur, "azimuth");
    let cur_elevation = eq_str(&f.cur, "elevation");
    let cur_distance = eq_str(&f.cur, "distance");
    match &mut f.acc {
        None => {},
        Some(a) => {
            if t.len() == 0 {
            } else if cur_speaker && chars_of(a.speaker.as_str()).len() == 0 {
                a.speaker = string_of(&t);
            } else if cur_azimuth {
                push_text(&mut a.azimuth, &t);
            } else if cur_elevation {
                push_text(&mut a.elevation, &t);
            } else if cur_distance {
                push_text(&mut a.distance, &t);
            }
        },
    }
}

fn close_step(f: &mut Fold, name: &Vec<char>)
    requires
        old(f).tracks < u64::MAX,
    ensures
        fold_model(*final(f)) == on_close(fold_model(*old(f)), name@),
        final(f).tracks <= old(f).tracks + 1,
{
    let ghost st = fold_model(*old(f));
    let ghost want = on_close(st, name@);
    f.cur = Vec::new();
    if eq_str(name, "audioChannelFormat") {
        let taken = f.acc.take();
        match taken {
            Some(a) => {
                let ghost am = acc_model(a);
                assert(st.acc == Some(am));
                proof {
                    reveal_strlit("0001");
                    reveal_strlit("0003");
                    assert("0001"@[3] != "0003"@[3]);
                    assert("0001"@ != "0003"@);
                }
                let bed = eq_str(&chars_of(a.type_label.as_str()), "0001");
                let object = eq_str(&chars_of(a.type_label.as_str()), "0003");
                if bed {
                    let ghost before = f.beds@;
                    f.beds.push(BedChannel { label: a.name, speaker_label: a.speaker, track_index: f.tracks });
                    assert(bed_views(f.beds@) =~= bed_views(before).push((am.name, am.speaker, st.tracks)));
                    assert(am.type_label != "0003"@);
                    assert(object_views(f.objects@) == st.objects);
                } else if object {
                    let ghost before = f.objects@;
                    f.objects.push(
                        AudioObject {
                            id: a.id,
                            name: a.name,
                            track_index: f.tracks,
                            azimuth: a.azimuth,
                            elevation: a.elevation,
                            distance: a.distance,
                        },
                    );
                    assert(object_views(f.objects@) =~= object_views(before).push(
                        ObjectModel {
                            id: am.id,
                            name: am.name,
                            track: st.tracks,
                            azimuth: am.azimuth,
                            elevation: am.elevation,
                            distance: am.distance,
                        },
                    ));
                } else {
                    assert(object_views(f.objects@) == st.objects);
                }
                f.tracks = f.tracks + 1;
                proof {
                    assert(fold_model(*f).beds == want.beds);
                    assert(fold_model(*f).objects == want.objects);
                    assert(fold_model(*f).tracks == want.tracks);
                    assert(fold_model(*f).acc == want.acc);
                    assert(fold_model(*f).cur =~= want.cur);
                    assert(fold_model(*f).programme == want.programme);
                }
            },
            None => {
                proof {
                    assert(fold_model(*f).cur =~= want.cur);
                }
            },
        }
    } else {
        proof {
            assert(fold_model(*f).cur =~= want.cur);
        }
    }
}

/// Read the programme name, the bed channels and the objects out of the
/// events of an ADM document, in document order.
pub fn adm_from_events(events: &Vec<AdmEvent>) -> (r: AdmMetadata)
    ensures
        r.programme_name@ == adm_fold(event_views(events@), events@.len() as int).programme,
        bed_views(r.beds@) == adm_fold(event_views(events@), events@.len() as int).beds,
        object_views(r.objects@) == adm_fold(event_views(events@), events@.len() as int).objects,
        r.total_channels as nat == adm_fold(event_views(events@), events@.len() as int).tracks,
{
    let mut f = Fold {
        programme: string_of(&Vec::new()),
        beds: Vec::new(),
        objects: Vec::new(),
        tracks: 0,
        acc: None,
        cur: Vec::new(),
    };
    proof {
        assert(bed_views(f.beds@) =~= Seq::<(Seq<char>, Seq<char>, nat)>::empty());
        assert(object_views(f.objects@) =~= Seq::<ObjectModel>::empty());
        assert(fold_model(f).programme =~= adm_start().programme);
        assert(fold_model(f).cur =~= adm_start().cur);
        assert(fold_model(f) == adm_start());
    }
    let ghost evs = event_views(events@);
    let mut i: usize = 0;
    while i < events.len()
        invariant
            i <= events.len(),
            evs == event_views(events@),
            fold_model(f) == adm_fold(evs, i as int),
            f.tracks <= i,
        decreases events.len() - i,
    {
        let e = &events[i];
        proof {
            assert(evs[i as int] == event_view(*e));
        }
        match e {
            AdmEvent::Open(n, a) => {
                let name = chars_of(utf8_lossy_string(n.as_slice()).as_str());
                open_step(&mut f, name, a);
            },
            AdmEvent::Chars(t) => {
                text_step(&mut f, t);
            },
            AdmEvent::Close(n) => {
                let name = chars_of(utf8_lossy_string(n.as_slice()).as_str());
                close_step(&mut f, &name);
            },
        }
        i += 1;
    }
    AdmMetadata { programme_name: f.programme, beds: f.beds, objects: f.objects, total_channels: f.tracks }
}

/// Read the programme name, the bed channels and the objects out of an ADM
/// `axml` document; an empty document, or one that is not XML from its
/// start, holds none.
pub fn parse_adm_xml(xml: &str) -> (r: AdmMetadata)
    ensures
        r.programme_name@ == adm_of(xml@).programme,
        bed_views(r.beds@) == adm_of(xml@).beds,
        object_views(r.objects@) == adm_of(xml@).objects,
        r.total_channels as nat == adm_of(xml@).tracks,
{
    if chars_of(xml).len() == 0 {
        let r = AdmMetadata { programme_name: string_of(&Vec::new()), beds: Vec::new(), objects: Vec::new(), total_channels: 0 };
        proof {
            assert(bed_views(r.beds@) =~= Seq::<(Seq<char>, Seq<char>, nat)>::empty());
            assert(object_views(r.objects@) =~= Seq::<ObjectModel>::empty());
            assert(r.programme_name@ =~= Seq::<char>::empty());
        }
        return r;
    }
    adm_from_events(&adm_events(xml))
}

/// The tracks of the beds and objects an ADM document holds: each below the
/// channel count, rising in document order, and no track both a bed's and an
/// object's; so there are never more beds and objects than channels.
pub proof fn law_kept_channels_have_their_own_tracks(events: Seq<AdmEventView>, n: int)
    requires
        0 <= n <= events.len(),
    ensures
        ({
            let st = adm_fold(events, n);
            &&& forall|i: int| 0 <= i < st.beds.len() ==> #[trigger] st.beds[i].2 < st.tracks
            &&& forall|i: int| 0 <= i < st.objects.len() ==> #[trigger] st.objects[i].track < st.tracks
            &&& forall|i: int, j: int|
                0 <= i < j < st.beds.len() ==> #[trigger] st.beds[i].2 < #[trigger] st.beds[j].2
            &&& forall|i: int, j: int|
                0 <= i < j < st.objects.len() ==> #[trigger] st.objects[i].track
                    < #[trigger] st.objects[j].track
            &&& forall|i: int, j: int|
                0 <= i < st.beds.len() && 0 <= j < st.objects.len() ==> #[trigger] st.beds[i].2
                    != #[trigger] st.objects[j].track
            &&& st.beds.len() + st.objects.len() <= st.tracks
        }),
    decreases n,
{
    if n > 0 {
        law_kept_channels_have_their_own_tracks(events, n - 1);
        let p = adm_fold(events, n - 1);
        let st = adm_fold(events, n);
        match events[n - 1] {
            AdmEventView::Open(nm, a) => {
                assert(st.beds == p.beds && st.objects == p.objects && st.tracks == p.tracks);
            },
            AdmEventView::Chars(t) => {
                assert(st.beds == p.beds && st.objects == p.objects && st.tracks == p.tracks);
            },
            AdmEventView::Close(nm) => {
                if utf8_lossy(nm) == "audioChannelFormat"@ && p.acc is Some {
                    let a = p.acc->0;
                    assert(st.tracks == p.tracks + 1);
                    if a.type_label == "0001"@ {
                        assert(st.beds == p.beds.push((a.name, a.speaker, p.tracks)));
                        assert(st.beds[p.beds.len() as int].2 == p.tracks);
                    } else {
                        assert(st.beds == p.beds);
                    }
                    if a.type_label == "0003"@ {
                        assert(st.objects[p.objects.len() as int].track == p.tracks);
                    } else {
                        assert(st.objects == p.objects);
                    }
                    assert(!(a.type_label == "0001"@ && a.type_label == "0003"@)) by {
                        reveal_strlit("0001");
                        reveal_strlit("0003");
                        assert("0001"@[3] != "0003"@[3]);
                    }
                    assert forall|i: int| 0 <= i < st.beds.len() implies #[trigger] st.beds[i].2 < st.tracks by {
                        if i < p.beds.len() {
                            assert(st.beds[i] == p.beds[i]);
                        }
                    }
                    assert forall|i: int| 0 <= i < st.objects.len() implies #[trigger] st.objects[i].track < st.tracks by {
                        if i < p.objects.len() {
                            assert(st.objects[i] == p.objects[i]);
                        }
                    }
                    assert forall|i: int, j: int|
                        0 <= i < j < st.beds.len() implies #[trigger] st.beds[i].2 < #[trigger] st.beds[j].2 by {
                        assert(st.beds[i] == p.beds[i]);
                        if j < p.beds.len() {
                            assert(st.beds[j] == p.beds[j]);
                        }
                    }
                    assert forall|i: int, j: int|
                        0 <= i < j < st.objects.len() implies #[trigger] st.objects[i].track
                            < #[trigger] st.objects[j].track by {
                        assert(st.objects[i] == p.objects[i]);
                        if j < p.objects.len() {
                            assert(st.objects[j] == p.objects[j]);
                        }
                    }
                    assert forall|i: int, j: int|
                        0 <= i < st.beds.len() && 0 <= j < st.objects.len() implies #[trigger] st.beds[i].2
                            != #[trigger] st.objects[j].track by {
                        if i < p.beds.len() {
                            assert(st.beds[i] == p.beds[i]);
                        }
                        if j < p.objects.len() {
                            assert(st.objects[j] == p.objects[j]);
                        }
                    }
                } else {
                    assert(st.beds == p.beds && st.objects == p.objects && st.tracks == p.tracks);
                }
            },
        }
    }
}

} // verus!
