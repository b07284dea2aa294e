//! A partial version: one CPL and the track files it references, copied into
//! a new IMP.
use vstd::prelude::*;
use crate::text::{
    chars_of, eq, find, find_chars, lemma_find_from_bounds, slice, string_of, trim,
    trim_chars, trim_start_matches, trim_start_matches_chars, views,
};

verus! {

pub struct PartialVersion {
    pub cpl_path: String,
    pub track_files: Vec<String>,
}

pub open spec fn open_tag() -> Seq<char> {
    "<TrackFileId>"@
}

pub open spec fn close_tag() -> Seq<char> {
    "</TrackFileId>"@
}

/// The ids named by `<TrackFileId>` elements of `rest`, appended to `acc`,
/// with `urn:uuid:` prefixes dropped and repeats and empty ids left out; the
/// scan stops at an element that is never closed.
pub open spec fn track_ids_scan(rest: Seq<char>, acc: Seq<Seq<char>>) -> Seq<Seq<char>>
    decreases rest.len(),
{
    match find(rest, open_tag()) {
        None => acc,
        Some(start) => {
            let after = rest.skip(start + open_tag().len());
            match find(after, close_tag()) {
                None => acc,
                Some(end) => {
                    let id = trim_start_matches(trim(after.take(end)), "urn:uuid:"@);
                    let acc2 = if id.len() > 0 && !acc.contains(id) {
                        acc.push(id)
                    } else {
                        acc
                    };
                    let next = after.skip(end + close_tag().len());
                    if next.len() < rest.len() {
                        track_ids_scan(next, acc2)
                    } else {
                        acc2
                    }
                },
            }
        },
    }
}

/// Every track file the CPL's resources name, in the order they appear and
/// without the repeats a track split over several resources makes.
pub open spec fn referenced_ids(cpl_xml: Seq<char>) -> Seq<Seq<char>> {
    track_ids_scan(cpl_xml, Seq::empty())
}

fn contains_id(acc: &Vec<Vec<char>>, id: &[char]) -> (r: bool)
    ensures
        r == views(acc@).contains(id@),
{
    let mut i: usize = 0;
    while i < acc.len()
        invariant
            i <= acc.len(),
            forall|k: int| 0 <= k < i ==> acc@[k]@ != id@,
        decreases acc.len() - i,
    {
        if eq(&acc[i], id) {
            assert(views(acc@)[i as int] == id@);
            return true;
        }
        i += 1;
    }
    proof {
        if views(acc@).contains(id@) {
            let k = choose|k: int| 0 <= k < views(acc@).len() && views(acc@)[k] == id@;
            assert(acc@[k]@ == id@);
        }
    }
    false
}

/// Every track file id the CPL's resources name, in order of first appearance.
pub fn referenced_track_files(cpl_xml: &str) -> (r: Vec<String>)
    ensures
        r@.map_values(|s: String| s@) == referenced_ids(cpl_xml@),
{
    let open = chars_of("<TrackFileId>");
    let close = chars_of("</TrackFileId>");
    let urn = chars_of("urn:uuid:");
    let mut rest = chars_of(cpl_xml);
    let mut ids: Vec<Vec<char>> = Vec::new();
    assert(views(ids@) =~= Seq::<Seq<char>>::empty());
    loop
        invariant
            open@ == open_tag(),
            close@ == close_tag(),
            urn@ == "urn:uuid:"@,
            track_ids_scan(rest@, views(ids@)) == referenced_ids(cpl_xml@),
        ensures
            views(ids@) == referenced_ids(cpl_xml@),
        decreases rest.len(),
    {
        proof {
            reveal_strlit("<TrackFileId>");
            reveal_strlit("</TrackFileId>");
        }
        let start = match find_chars(&rest, &open) {
            None => {
                assert(track_ids_scan(rest@, views(ids@)) == views(ids@));
                break;
            },
            Some(s) => s,
        };
        proof {
            lemma_find_from_bounds(rest@, open@, 0);
        }
        let after = slice(&rest, start + open.len(), rest.len());
        assert(after@ == rest@.skip(start + open_tag().len()));
        let end = match find_chars(&after, &close) {
            None => {
                assert(track_ids_scan(rest@, views(ids@)) == views(ids@));
                break;
            },
            Some(e) => e,
        };
        proof {
            lemma_find_from_bounds(after@, close@, 0);
        }
        let raw = slice(&after, 0, end);
        let trimmed = trim_chars(&raw);
        let id = trim_start_matches_chars(&trimmed, &urn);
        let ghost acc = views(ids@);
        if id.len() > 0 && !contains_id(&ids, &id) {
            let ghost old_ids = ids@;
            ids.push(id);
            assert(views(ids@) =~= acc.push(id@));
        }
        let next = slice(&after, end + close.len(), after.len());
        assert(next@ == after@.skip(end + close_tag().len()));
        assert(next@.len() < rest@.len());
        rest = next;
    }
    let mut out: Vec<String> = Vec::new();
    let mut k: usize = 0;
    while k < ids.len()
        invariant
            k <= ids.len(),
            out@.map_values(|s: String| s@) == views(ids@).take(k as int),
        decreases ids.len() - k,
    {
        let s = string_of(&ids[k]);
        let ghost before = out@;
        let ghost sv = s@;
        out.push(s);
        assert(out@ == before.push(s));
        assert(sv == views(ids@)[k as int]);
        assert(out@.map_values(|s: String| s@) =~= before.map_values(|s: String| s@).push(sv));
        assert(out@.map_values(|s: String| s@) =~= views(ids@).take(k + 1));
        k += 1;
    }
    assert(views(ids@).take(ids.len() as int) == views(ids@));
    out
}


/// The non-empty ids the `<TrackFileId>` elements of `rest` name, in order,
/// repeats kept; read as far as the first element that is never closed.
pub open spec fn named_track_ids(rest: Seq<char>) -> Seq<Seq<char>>
    decreases rest.len(),
{
    match find(rest, open_tag()) {
        None => Seq::empty(),
        Some(start) => {
            let after = rest.skip(start + open_tag().len());
            match find(after, close_tag()) {
                None => Seq::empty(),
                Some(end) => {
                    let id = trim_start_matches(trim(after.take(end)), "urn:uuid:"@);
                    let head = if id.len() > 0 {
                        seq![id]
                    } else {
                        Seq::empty()
                    };
                    let next = after.skip(end + close_tag().len());
                    if next.len() < rest.len() {
                        head + named_track_ids(next)
                    } else {
                        head
                    }
                },
            }
        },
    }
}

proof fn lemma_scan_dedups(rest: Seq<char>, acc: Seq<Seq<char>>)
    requires
        acc.no_duplicates(),
        forall|k: int| 0 <= k < acc.len() ==> (#[trigger] acc[k]).len() > 0,
    ensures
        track_ids_scan(rest, acc).no_duplicates(),
        forall|k: int|
            0 <= k < track_ids_scan(rest, acc).len() ==> (#[trigger] track_ids_scan(rest, acc)[k]).len()
                > 0,
        forall|x: Seq<char>|
            #[trigger] track_ids_scan(rest, acc).contains(x) <==> (acc.contains(x)
                || named_track_ids(rest).contains(x)),
    decreases rest.len(),
{
    match find(rest, open_tag()) {
        None => {},
        Some(start) => {
            let after = rest.skip(start + open_tag().len());
            match find(after, close_tag()) {
                None => {},
                Some(end) => {
                    let id = trim_start_matches(trim(after.take(end)), "urn:uuid:"@);
                    let acc2 = if id.len() > 0 && !acc.contains(id) {
                        acc.push(id)
                    } else {
                        acc
                    };
                    let head: Seq<Seq<char>> = if id.len() > 0 {
                        seq![id]
                    } else {
                        Seq::empty()
                    };
                    if id.len() > 0 && !acc.contains(id) {
                        assert forall|a: int, b: int| 0 <= a < b < acc2.len() implies acc2[a]
                            != acc2[b] by {
                            if b == acc.len() {
                                assert(acc.contains(acc[a]));
                            }
                        }
                    }
                    assert(forall|k: int| 0 <= k < acc2.len() ==> (#[trigger] acc2[k]).len() > 0);
                    assert(forall|x: Seq<char>|
                        #[trigger] acc2.contains(x) <==> (acc.contains(x) || head.contains(x))) by {
                        assert forall|x: Seq<char>| acc2.contains(x) implies (acc.contains(x)
                            || head.contains(x)) by {
                            if !acc.contains(x) {
                                let k = choose|k: int| 0 <= k < acc2.len() && acc2[k] == x;
                                assert(head[0] == id);
                            }
                        }
                        assert forall|x: Seq<char>| (acc.contains(x) || head.contains(x)) implies acc2.contains(x) by {
                            if acc.contains(x) {
                                let k = choose|k: int| 0 <= k < acc.len() && acc[k] == x;
                                assert(acc2[k] == x);
                            } else {
                                assert(x == id);
                                if acc.contains(id) {
                                } else {
                                    assert(acc2[acc.len() as int] == id);
                                }
                            }
                        }
                    }
                    let next = after.skip(end + close_tag().len());
                    if next.len() < rest.len() {
                        lemma_scan_dedups(next, acc2);
                        let tail = named_track_ids(next);
                        assert forall|x: Seq<char>| (head + tail).contains(x) <==> (head.contains(x)
                            || tail.contains(x)) by {
                            if (head + tail).contains(x) {
                                let k = choose|k: int| 0 <= k < (head + tail).len() && (head
                                    + tail)[k] == x;
                                if k >= head.len() {
                                    assert(tail[k - head.len()] == x);
                                }
                            }
                            if tail.contains(x) {
                                let k = choose|k: int| 0 <= k < tail.len() && tail[k] == x;
                                assert((head + tail)[k + head.len()] == x);
                            }
                            if head.contains(x) {
                                assert((head + tail)[0] == x);
                            }
                        }
                    }
                },
            }
        },
    }
}

/// The track files a CPL references are listed once each: no id repeats,
/// none is empty, and an id is listed exactly when some `<TrackFileId>` of
/// the CPL names it.
pub proof fn law_referenced_ids_listed_once(cpl_xml: Seq<char>)
    ensures
        referenced_ids(cpl_xml).no_duplicates(),
        forall|k: int|
            0 <= k < referenced_ids(cpl_xml).len() ==> (#[trigger] referenced_ids(cpl_xml)[k]).len() > 0,
        forall|x: Seq<char>|
            #[trigger] referenced_ids(cpl_xml).contains(x) <==> named_track_ids(cpl_xml).contains(x),
{
    lemma_scan_dedups(cpl_xml, Seq::empty());
}

} // verus!
