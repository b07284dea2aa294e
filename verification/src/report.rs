//! The picture section of a package report: which picture track files a
//! scan for black or frozen runs reads (each once, in path order, with the
//! compositions that play it), and the entries the scan's outcomes become.
//!
//! Listing the package, resolving and decoding the essence are the caller's.
use vstd::prelude::*;
use crate::cpl::file_name_of;
use crate::text::{chars_of, join, join_chars, last_piece_chars, push_all, push_str, string_of, string_views, views};
use crate::timeline::{CplInfo, SegmentEntry};

verus! {

/// One entry of a report.
#[derive(Debug, Clone)]
pub struct ReportEntry {
    pub severity: String,
    pub category: String,
    pub message: String,
    pub details: String,
}

pub open spec fn entry_view(e: ReportEntry) -> (Seq<char>, Seq<char>, Seq<char>, Seq<char>) {
    (e.severity@, e.category@, e.message@, e.details@)
}

pub open spec fn entry_views(v: Seq<ReportEntry>) -> Seq<(Seq<char>, Seq<char>, Seq<char>, Seq<char>)> {
    v.map_values(|e: ReportEntry| entry_view(e))
}

pub const PICTURE_CATEGORY: &'static str = "picture";

fn entry(severity: &str, message: &[char], details: &[char]) -> (r: ReportEntry)
    ensures
        entry_view(r) == (severity@, PICTURE_CATEGORY@, message@, details@),
{
    ReportEntry {
        severity: string_of(&chars_of(severity)),
        category: string_of(&chars_of(PICTURE_CATEGORY)),
        message: string_of(message),
        details: string_of(details),
    }
}

/// The entry a report without the picture scan carries, naming the flag that
/// asks for it.
pub fn picture_not_scanned_entry() -> (r: ReportEntry)
    ensures
        entry_view(r) == ("info"@, PICTURE_CATEGORY@, "Picture was not scanned for black or frozen runs"@,
            "Use report --scan-picture to decode every frame"@),
{
    entry(
        "info",
        &chars_of("Picture was not scanned for black or frozen runs"),
        &chars_of("Use report --scan-picture to decode every frame"),
    )
}

/// The entry of a track the scan could not read.
pub open spec fn skipped_view(composition: Seq<char>, track: Seq<char>, reason: Seq<char>) -> (
    Seq<char>,
    Seq<char>,
    Seq<char>,
    Seq<char>,
) {
    ("info"@, PICTURE_CATEGORY@, composition + ": "@ + track + " was not scanned"@, reason)
}

/// The entry of a track the scan could not read, and why.
pub fn scan_skipped_entry(composition: &str, track: &str, reason: &str) -> (r: ReportEntry)
    ensures
        entry_view(r) == skipped_view(composition@, track@, reason@),
{
    let mut m = chars_of(composition);
    push_str(&mut m, ": ");
    push_str(&mut m, track);
    push_str(&mut m, " was not scanned");
    entry("info", &m, &chars_of(reason))
}

/// The rank of a character when paths are compared: the separator before
/// every other character, so paths order component by component.
pub open spec fn rank(c: char, paths: bool) -> int {
    if paths && c == '/' {
        -1
    } else {
        (c as u32) as int
    }
}

/// `a` sorts before `b`: character by character, a prefix first. With
/// `paths`, the separator sorts first, which orders paths component by
/// component as `Path` does; without, this is the order of `str`.
pub open spec fn lex_lt(a: Seq<char>, b: Seq<char>, paths: bool) -> bool
    decreases a.len(),
{
    if a.len() == 0 {
        b.len() > 0
    } else if b.len() == 0 {
        false
    } else if a[0] == b[0] {
        lex_lt(a.drop_first(), b.drop_first(), paths)
    } else {
        rank(a[0], paths) < rank(b[0], paths)
    }
}

proof fn lemma_char_code_injective(x: char, y: char)
    requires
        x != y,
    ensures
        x as u32 != y as u32,
{
    if x as u32 == y as u32 {
        vstd::utf8::char_u32_cast(x, x as u32);
        vstd::utf8::char_u32_cast(y, x as u32);
    }
}

/// The order is strict and total: of two texts, exactly one sorts first
/// unless they are equal.
pub proof fn lemma_lex_total(a: Seq<char>, b: Seq<char>, paths: bool)
    ensures
        !(lex_lt(a, b, paths) && lex_lt(b, a, paths)),
        a != b ==> lex_lt(a, b, paths) || lex_lt(b, a, paths),
        !lex_lt(a, a, paths),
    decreases a.len(),
{
    if a.len() > 0 && b.len() > 0 && a[0] == b[0] {
        lemma_lex_total(a.drop_first(), b.drop_first(), paths);
        if a != b {
            assert(a.drop_first() != b.drop_first()) by {
                if a.drop_first() == b.drop_first() {
                    assert(a =~= seq![a[0]] + a.drop_first());
                    assert(b =~= seq![b[0]] + b.drop_first());
                }
            }
        }
    }
    if a.len() > 0 {
        lemma_lex_total(a.drop_first(), a.drop_first(), paths);
    }
    if a.len() > 0 && b.len() > 0 && a[0] != b[0] {
        assert(rank(a[0], paths) != rank(b[0], paths)) by {
            if paths && (a[0] == '/' || b[0] == '/') {
            } else {
                lemma_char_code_injective(a[0], b[0]);
            }
        }
    }
    if a.len() == 0 && b.len() == 0 {
        assert(a =~= b);
    }
}

/// Compare two texts by `lex_lt`.
pub fn lex_less(a: &[char], b: &[char], paths: bool) -> (r: bool)
    ensures
        r == lex_lt(a@, b@, paths),
{
    proof {
        assert(a@.skip(0) =~= a@);
        assert(b@.skip(0) =~= b@);
    }
    let mut i: usize = 0;
    while i < a.len() && i < b.len()
        invariant
            i <= a.len(),
            i <= b.len(),
            lex_lt(a@, b@, paths) == lex_lt(a@.skip(i as int), b@.skip(i as int), paths),
        decreases a.len() - i,
    {
        proof {
            assert(a@.skip(i as int)[0] == a@[i as int]);
            assert(b@.skip(i as int)[0] == b@[i as int]);
            assert(a@.skip(i as int).drop_first() =~= a@.skip(i + 1));
            assert(b@.skip(i as int).drop_first() =~= b@.skip(i + 1));
        }
        if a[i] != b[i] {
            let ra: i64 = if paths && a[i] == '/' { -1 } else { (a[i] as u32) as i64 };
            let rb: i64 = if paths && b[i] == '/' { -1 } else { (b[i] as u32) as i64 };
            return ra < rb;
        }
        i += 1;
    }
    i == a.len() && i < b.len()
}

/// Neighbours `i` and `i + 1` of `s` are in order.
pub open spec fn adjacent_lt(s: Seq<Seq<char>>, i: int, paths: bool) -> bool {
    lex_lt(s[i], s[i + 1], paths)
}

/// `s` is strictly increasing.
pub open spec fn sorted_by(s: Seq<Seq<char>>, paths: bool) -> bool {
    forall|i: int| 0 <= i < s.len() - 1 ==> #[trigger] adjacent_lt(s, i, paths)
}

proof fn lemma_insert_sorted(s: Seq<Seq<char>>, x: Seq<char>, i: int, paths: bool)
    requires
        sorted_by(s, paths),
        0 <= i <= s.len(),
        i > 0 ==> lex_lt(s[i - 1], x, paths),
        i < s.len() ==> lex_lt(x, s[i], paths),
    ensures
        sorted_by(s.insert(i, x), paths),
{
    let t = s.insert(i, x);
    assert forall|k: int| 0 <= k < t.len() - 1 implies #[trigger] adjacent_lt(t, k, paths) by {
        if k < i - 1 {
            assert(t[k] == s[k] && t[k + 1] == s[k + 1]);
            assert(adjacent_lt(s, k, paths));
        } else if k == i - 1 {
            assert(t[k] == s[i - 1] && t[k + 1] == x);
        } else if k == i {
            assert(t[k] == x && t[k + 1] == s[i]);
        } else {
            assert(t[k] == s[k - 1] && t[k + 1] == s[k]);
            assert(adjacent_lt(s, k - 1, paths));
        }
    }
}

/// Add `x` to the strictly increasing list `v` of distinct texts, in its
/// place; a text already there is not added again.
fn insert_text(v: &mut Vec<String>, x: &[char], paths: bool)
    requires
        sorted_by(string_views(old(v)@), paths),
    ensures
        sorted_by(string_views(final(v)@), paths),
        forall|t: Seq<char>| #[trigger] string_views(final(v)@).contains(t) <==> string_views(
            old(v)@,
        ).contains(t) || t == x@,
{
    let ghost s = string_views(v@);
    let mut i: usize = 0;
    while i < v.len() && lex_less(&chars_of(v[i].as_str()), x, paths)
        invariant
            i <= v.len(),
            s == string_views(v@),
            forall|k: int| 0 <= k < i ==> lex_lt(#[trigger] s[k], x@, paths),
        decreases v.len() - i,
    {
        proof {
            assert(s[i as int] == v@[i as int]@);
        }
        i += 1;
    }
    if i < v.len() && crate::text::eq(&chars_of(v[i].as_str()), x) {
        proof {
            assert(s[i as int] == v@[i as int]@);
            assert forall|t: Seq<char>| #[trigger] s.contains(t) <==> s.contains(t) || t == x@ by {
                if t == x@ {
                    assert(s[i as int] == t);
                }
            }
        }
        return;
    }
    proof {
        if i < v.len() {
            assert(s[i as int] == v@[i as int]@);
            lemma_lex_total(s[i as int], x@, paths);
        }
        if i > 0 {
            assert(lex_lt(s[i - 1], x@, paths));
        }
        lemma_insert_sorted(s, x@, i as int, paths);
    }
    v.insert(i, string_of(x));
    proof {
        assert(string_views(v@) =~= s.insert(i as int, x@));
        let t2 = s.insert(i as int, x@);
        assert forall|t: Seq<char>| #[trigger] t2.contains(t) <==> s.contains(t) || t == x@ by {
            if t2.contains(t) {
                let k = choose|k: int| 0 <= k < t2.len() && t2[k] == t;
                if k < i {
                    assert(s[k] == t);
                } else if k > i {
                    assert(s[k - 1] == t);
                }
            }
            if s.contains(t) {
                let k = choose|k: int| 0 <= k < s.len() && s[k] == t;
                if k < i {
                    assert(t2[k] == t);
                } else {
                    assert(t2[k + 1] == t);
                }
            }
            if t == x@ {
                assert(t2[i as int] == t);
            }
        }
    }
}

/// A picture track file the scan reads: its path and, in order, the
/// compositions that play it.
#[derive(Debug, Clone)]
pub struct ScanTrack {
    pub path: String,
    pub compositions: Vec<String>,
}

pub open spec fn track_view(t: ScanTrack) -> (Seq<char>, Seq<Seq<char>>) {
    (t.path@, string_views(t.compositions@))
}

pub open spec fn track_views(v: Seq<ScanTrack>) -> Seq<(Seq<char>, Seq<Seq<char>>)> {
    v.map_values(|t: ScanTrack| track_view(t))
}

pub open spec fn track_paths(t: Seq<(Seq<char>, Seq<Seq<char>>)>) -> Seq<Seq<char>> {
    t.map_values(|e: (Seq<char>, Seq<Seq<char>>)| e.0)
}

/// The tracks are in path order, each path once, and each lists at least
/// one composition, in order, each once.
pub open spec fn table_ok(t: Seq<(Seq<char>, Seq<Seq<char>>)>) -> bool {
    &&& sorted_by(track_paths(t), true)
    &&& forall|i: int| 0 <= i < t.len() ==> sorted_by(#[trigger] t[i].1, false) && t[i].1.len() > 0
}

/// The track at `p` lists the composition `c`.
pub open spec fn table_has(t: Seq<(Seq<char>, Seq<Seq<char>>)>, p: Seq<char>, c: Seq<char>) -> bool {
    exists|i: int| 0 <= i < t.len() && #[trigger] t[i].0 == p && t[i].1.contains(c)
}

fn insert_ref(table: &mut Vec<ScanTrack>, path: &[char], comp: &[char])
    requires
        table_ok(track_views(old(table)@)),
    ensures
        table_ok(track_views(final(table)@)),
        forall|p: Seq<char>, c: Seq<char>| #[trigger] table_has(track_views(final(table)@), p, c) <==> (
            table_has(track_views(old(table)@), p, c) || (p == path@ && c == comp@)),
{
    let ghost t = track_views(table@);
    let ghost ps = track_paths(t);
    let mut i: usize = 0;
    while i < table.len() && lex_less(&chars_of(table[i].path.as_str()), path, true)
        invariant
            i <= table.len(),
            t == track_views(table@),
            ps == track_paths(t),
            forall|k: int| 0 <= k < i ==> lex_lt(#[trigger] ps[k], path@, true),
        decreases table.len() - i,
    {
        proof {
            assert(ps[i as int] == table@[i as int].path@);
        }
        i += 1;
    }
    if i < table.len() && crate::text::eq(&chars_of(table[i].path.as_str()), path) {
        let mut e = table.remove(i);
        let ghost before_comps = string_views(e.compositions@);
        proof {
            assert(t[i as int] == track_view(e));
            assert(sorted_by(t[i as int].1, false));
            assert(t[i as int].0 == path@);
        }
        insert_text(&mut e.compositions, comp, false);
        let ghost after_comps = string_views(e.compositions@);
        proof {
            assert forall|c: Seq<char>| after_comps.contains(c) <==> before_comps.contains(c) || c == comp@ by {
                assert(string_views(e.compositions@).contains(c) <==> before_comps.contains(c) || c == comp@);
            }
        }
        table.insert(i, e);
        proof {
            let t2 = track_views(table@);
            assert(t2 =~= t.update(i as int, (path@, after_comps)));
            assert(t2[i as int].1 == after_comps);
            assert(t[i as int].1 == before_comps);
            assert(track_paths(t2) =~= ps);
            assert forall|k: int| 0 <= k < t2.len() implies sorted_by(#[trigger] t2[k].1, false) && t2[k].1.len() > 0 by {
                if k != i {
                    assert(t2[k] == t[k]);
                } else {
                    assert(string_views(e.compositions@).contains(comp@));
                }
            }
            assert forall|p: Seq<char>, c: Seq<char>| #[trigger] table_has(t2, p, c) <==> (table_has(t, p, c) || (p
                == path@ && c == comp@)) by {
                if table_has(t2, p, c) {
                    let k = choose|k: int| 0 <= k < t2.len() && #[trigger] t2[k].0 == p && t2[k].1.contains(c);
                    if k != i {
                        assert(t[k] == t2[k]);
                        assert(t[k].0 == p && t[k].1.contains(c));
                    } else if !(c == comp@) {
                        assert(before_comps.contains(c));
                        assert(t[k].0 == p && t[k].1.contains(c));
                    }
                }
                if table_has(t, p, c) {
                    let k = choose|k: int| 0 <= k < t.len() && #[trigger] t[k].0 == p && t[k].1.contains(c);
                    if k != i {
                        assert(t2[k] == t[k]);
                        assert(t2[k].0 == p && t2[k].1.contains(c));
                    } else {
                        assert(after_comps.contains(c));
                        assert(t2[k].0 == p && t2[k].1.contains(c));
                    }
                }
                if p == path@ && c == comp@ {
                    assert(t2[i as int].0 == p && t2[i as int].1.contains(c));
                }
            }
        }
        return;
    }
    let mut comps: Vec<String> = Vec::new();
    comps.push(string_of(comp));
    let ghost cv = string_views(comps@);
    proof {
        assert(cv =~= seq![comp@]);
        assert(sorted_by(cv, false));
        if i < table.len() {
            assert(ps[i as int] == table@[i as int].path@);
            lemma_lex_total(ps[i as int], path@, true);
        }
        if i > 0 {
            assert(lex_lt(ps[i - 1], path@, true));
        }
        lemma_insert_sorted(ps, path@, i as int, true);
    }
    table.insert(i, ScanTrack { path: string_of(path), compositions: comps });
    proof {
        let t2 = track_views(table@);
        let row = (path@, cv);
        assert(t2 =~= t.insert(i as int, row));
        assert(track_paths(t2) =~= ps.insert(i as int, path@));
        assert forall|k: int| 0 <= k < t2.len() implies sorted_by(#[trigger] t2[k].1, false) && t2[k].1.len() > 0 by {
            if k < i {
                assert(t2[k] == t[k]);
            } else if k > i {
                assert(t2[k] == t[k - 1]);
            }
        }
        assert forall|p: Seq<char>, c: Seq<char>| #[trigger] table_has(t2, p, c) <==> (table_has(t, p, c) || (p
            == path@ && c == comp@)) by {
            if table_has(t2, p, c) {
                let k = choose|k: int| 0 <= k < t2.len() && #[trigger] t2[k].0 == p && t2[k].1.contains(c);
                if k < i {
                    assert(t[k] == t2[k]);
                } else if k > i {
                    assert(t[k - 1] == t2[k]);
                } else {
                    assert(cv.contains(c));
                    let q = choose|q: int| 0 <= q < cv.len() && cv[q] == c;
                    assert(q == 0);
                }
            }
            if table_has(t, p, c) {
                let k = choose|k: int| 0 <= k < t.len() && #[trigger] t[k].0 == p && t[k].1.contains(c);
                if k < i {
                    assert(t2[k] == t[k]);
                } else {
                    assert(t2[k + 1] == t[k]);
                }
            }
            if p == path@ && c == comp@ {
                assert(t2[i as int].0 == p);
                assert(cv[0] == c);
            }
        }
    }
}

/// One composition of the package and its timeline.
#[derive(Debug, Clone)]
pub struct ScanCpl {
    pub info: CplInfo,
    pub segments: Vec<SegmentEntry>,
}

/// How a composition is named in the report: its title, or its file where it
/// has none.
pub open spec fn composition_label(c: CplInfo) -> Seq<char> {
    if c.title@.len() == 0 {
        c.file_path@
    } else {
        c.title@
    }
}

/// Why a picture track file with no local path is not scanned.
pub open spec fn no_local_path() -> Seq<char> {
    "the ASSETMAP has no local path for this track file"@
}

/// What a segment gives the scan: nothing without a picture track file; the
/// track file's id where the ASSETMAP maps it to no file (`false`); else its
/// path (`true`); each with the composition's label.
pub open spec fn seg_ref(label: Seq<char>, s: SegmentEntry) -> Option<(bool, Seq<char>, Seq<char>)> {
    if s.video_track_file_id@.len() == 0 {
        None
    } else if s.video_file@.len() == 0 {
        Some((false, label, s.video_track_file_id@))
    } else {
        Some((true, label, s.video_file@))
    }
}

pub open spec fn push_ref(refs: Seq<(bool, Seq<char>, Seq<char>)>, r: Option<(bool, Seq<char>, Seq<char>)>) -> Seq<
    (bool, Seq<char>, Seq<char>),
> {
    match r {
        Some(x) => refs.push(x),
        None => refs,
    }
}

pub open spec fn segment_refs(label: Seq<char>, segs: Seq<SegmentEntry>) -> Seq<(bool, Seq<char>, Seq<char>)>
    decreases segs.len(),
{
    if segs.len() == 0 {
        Seq::empty()
    } else {
        push_ref(segment_refs(label, segs.drop_last()), seg_ref(label, segs.last()))
    }
}

/// Every picture reference of the package, composition by composition, in
/// timeline order.
pub open spec fn scan_refs(cpls: Seq<ScanCpl>) -> Seq<(bool, Seq<char>, Seq<char>)>
    decreases cpls.len(),
{
    if cpls.len() == 0 {
        Seq::empty()
    } else {
        scan_refs(cpls.drop_last()) + segment_refs(composition_label(cpls.last().info), cpls.last().segments@)
    }
}

/// The entries of the references the ASSETMAP maps to no file, in order.
pub open spec fn unmapped_entries(refs: Seq<(bool, Seq<char>, Seq<char>)>) -> Seq<
    (Seq<char>, Seq<char>, Seq<char>, Seq<char>),
>
    decreases refs.len(),
{
    if refs.len() == 0 {
        Seq::empty()
    } else {
        let r = refs.last();
        let rest = unmapped_entries(refs.drop_last());
        if r.0 {
            rest
        } else {
            rest.push(skipped_view(r.1, r.2, no_local_path()))
        }
    }
}

/// The composition `c` plays the track file at `p`.
pub open spec fn refs_map(refs: Seq<(bool, Seq<char>, Seq<char>)>, p: Seq<char>, c: Seq<char>) -> bool {
    exists|k: int| 0 <= k < refs.len() && #[trigger] refs[k] == (true, c, p)
}

/// What the scan reads: the entries of the references it cannot follow, and
/// the track files it reads.
#[derive(Debug, Clone)]
pub struct ScanPlan {
    pub skipped: Vec<ReportEntry>,
    pub tracks: Vec<ScanTrack>,
}

proof fn lemma_push_ref(refs: Seq<(bool, Seq<char>, Seq<char>)>, r: Option<(bool, Seq<char>, Seq<char>)>)
    ensures
        forall|p: Seq<char>, c: Seq<char>| #[trigger] refs_map(push_ref(refs, r), p, c) <==> (refs_map(refs, p, c)
            || r == Some((true, c, p))),
        unmapped_entries(push_ref(refs, r)) == match r {
            Some(x) => if x.0 {
                unmapped_entries(refs)
            } else {
                unmapped_entries(refs).push(skipped_view(x.1, x.2, no_local_path()))
            },
            None => unmapped_entries(refs),
        },
{
    match r {
        Some(x) => {
            let t = refs.push(x);
            assert(t.drop_last() =~= refs);
            assert forall|p: Seq<char>, c: Seq<char>| #[trigger] refs_map(t, p, c) <==> (refs_map(refs, p, c) || r
                == Some((true, c, p))) by {
                if refs_map(t, p, c) {
                    let k = choose|k: int| 0 <= k < t.len() && #[trigger] t[k] == (true, c, p);
                    if k < refs.len() {
                        assert(refs[k] == t[k]);
                    }
                }
                if refs_map(refs, p, c) {
                    let k = choose|k: int| 0 <= k < refs.len() && #[trigger] refs[k] == (true, c, p);
                    assert(t[k] == refs[k]);
                }
                if r == Some((true, c, p)) {
                    assert(t[refs.len() as int] == x);
                }
            }
        },
        None => {},
    }
}

fn add_segment(plan: &mut ScanPlan, label: &[char], seg: &SegmentEntry)
    requires
        table_ok(track_views(old(plan).tracks@)),
    ensures
        table_ok(track_views(final(plan).tracks@)),
        forall|p: Seq<char>, c: Seq<char>| #[trigger] table_has(track_views(final(plan).tracks@), p, c) <==> (
            table_has(track_views(old(plan).tracks@), p, c) || seg_ref(label@, *seg) == Some((true, c, p))),
        entry_views(final(plan).skipped@) == match seg_ref(label@, *seg) {
            Some(x) => if x.0 {
                entry_views(old(plan).skipped@)
            } else {
                entry_views(old(plan).skipped@).push(skipped_view(x.1, x.2, no_local_path()))
            },
            None => entry_views(old(plan).skipped@),
        },
{
    let id = chars_of(seg.video_track_file_id.as_str());
    if id.len() == 0 {
        return;
    }
    let file = chars_of(seg.video_file.as_str());
    if file.len() == 0 {
        let e = scan_skipped_entry(
            string_of(label).as_str(),
            seg.video_track_file_id.as_str(),
            "the ASSETMAP has no local path for this track file",
        );
        let ghost before = plan.skipped@;
        plan.skipped.push(e);
        assert(entry_views(plan.skipped@) =~= entry_views(before).push(entry_view(e)));
        return;
    }
    insert_ref(&mut plan.tracks, &file, label);
}

/// The scan of a package's compositions: a reference the ASSETMAP maps to no
/// file becomes an entry naming it; every other picture track file is read
/// once, in path order, listing the compositions that play it.
pub fn scan_plan(cpls: &Vec<ScanCpl>) -> (r: ScanPlan)
    ensures
        entry_views(r.skipped@) == unmapped_entries(scan_refs(cpls@)),
        table_ok(track_views(r.tracks@)),
        forall|p: Seq<char>, c: Seq<char>| #[trigger] table_has(track_views(r.tracks@), p, c) <==> refs_map(
            scan_refs(cpls@),
            p,
            c,
        ),
{
    let mut plan = ScanPlan { skipped: Vec::new(), tracks: Vec::new() };
    proof {
        assert(entry_views(plan.skipped@) =~= Seq::empty());
        assert(track_views(plan.tracks@) =~= Seq::empty());
        assert(track_paths(track_views(plan.tracks@)) =~= Seq::empty());
    }
    let mut i: usize = 0;
    while i < cpls.len()
        invariant
            i <= cpls.len(),
            entry_views(plan.skipped@) == unmapped_entries(scan_refs(cpls@.take(i as int))),
            table_ok(track_views(plan.tracks@)),
            forall|p: Seq<char>, c: Seq<char>| #[trigger] table_has(track_views(plan.tracks@), p, c) <==> refs_map(
                scan_refs(cpls@.take(i as int)),
                p,
                c,
            ),
        decreases cpls.len() - i,
    {
        let cpl = &cpls[i];
        let label: Vec<char> = if chars_of(cpl.info.title.as_str()).len() == 0 {
            chars_of(cpl.info.file_path.as_str())
        } else {
            chars_of(cpl.info.title.as_str())
        };
        let ghost head = scan_refs(cpls@.take(i as int));
        let segs = &cpl.segments;
        let mut j: usize = 0;
        while j < segs.len()
            invariant
                j <= segs.len(),
                segs == &cpl.segments,
                label@ == composition_label(cpl.info),
                entry_views(plan.skipped@) == unmapped_entries(head + segment_refs(label@, segs@.take(j as int))),
                table_ok(track_views(plan.tracks@)),
                forall|p: Seq<char>, c: Seq<char>| #[trigger] table_has(track_views(plan.tracks@), p, c) <==> refs_map(
                    head + segment_refs(label@, segs@.take(j as int)),
                    p,
                    c,
                ),
            decreases segs.len() - j,
        {
            let ghost before = head + segment_refs(label@, segs@.take(j as int));
            add_segment(&mut plan, &label, &segs[j]);
            proof {
                assert(segs@.take(j + 1).drop_last() =~= segs@.take(j as int));
                assert(segs@.take(j + 1).last() == segs@[j as int]);
                let r = seg_ref(label@, segs@[j as int]);
                assert(head + segment_refs(label@, segs@.take(j + 1)) =~= push_ref(before, r));
                lemma_push_ref(before, r);
            }
            j += 1;
        }
        proof {
            assert(segs@.take(segs.len() as int) =~= segs@);
            assert(cpls@.take(i + 1).drop_last() =~= cpls@.take(i as int));
            assert(cpls@.take(i + 1).last() == *cpl);
        }
        i += 1;
    }
    proof {
        assert(cpls@.take(cpls.len() as int) =~= cpls@);
    }
    plan
}

/// What scanning a track file came to: it could not be read (why), its
/// essence is encrypted, or the runs the scan found, described.
#[derive(Debug, Clone)]
pub enum ScanOutcome {
    Unreadable(String),
    Encrypted,
    Findings(Vec<String>),
}

/// The compositions of a track as one label.
pub open spec fn compositions_label(t: (Seq<char>, Seq<Seq<char>>)) -> Seq<char> {
    join(t.1, ", "@)
}

/// The entries a scanned track's outcome becomes.
pub open spec fn outcome_entries(t: (Seq<char>, Seq<Seq<char>>), outcome: ScanOutcome) -> Seq<
    (Seq<char>, Seq<char>, Seq<char>, Seq<char>),
> {
    let c = compositions_label(t);
    let n = file_name_of(t.0);
    match outcome {
        ScanOutcome::Unreadable(why) => seq![skipped_view(c, n, why@)],
        ScanOutcome::Encrypted => seq![skipped_view(c, n, "the picture essence is encrypted"@)],
        ScanOutcome::Findings(fs) => if fs@.len() == 0 {
            seq![("pass"@, PICTURE_CATEGORY@, c + ": "@ + n + " has no black or frozen runs"@, Seq::empty())]
        } else {
            string_views(fs@).map_values(
                |f: Seq<char>| ("warning"@, PICTURE_CATEGORY@, c + ": "@ + n + ": "@ + f, Seq::<char>::empty()),
            )
        },
    }
}

/// The entries of one scanned track: a skip where it could not be read or is
/// encrypted, a pass where the scan found nothing, else a warning per run.
pub fn track_entries(track: &ScanTrack, outcome: &ScanOutcome) -> (r: Vec<ReportEntry>)
    ensures
        entry_views(r@) == outcome_entries(track_view(*track), *outcome),
{
    let mut parts: Vec<Vec<char>> = Vec::new();
    let mut k: usize = 0;
    while k < track.compositions.len()
        invariant
            k <= track.compositions.len(),
            views(parts@) == string_views(track.compositions@).take(k as int),
        decreases track.compositions.len() - k,
    {
        let ghost before = parts@;
        let piece = chars_of(track.compositions[k].as_str());
        parts.push(piece);
        proof {
            assert(string_views(track.compositions@)[k as int] == track.compositions@[k as int]@);
            assert(views(parts@) =~= views(before).push(piece@));
            assert(string_views(track.compositions@).take(k + 1) =~= string_views(track.compositions@).take(
                k as int,
            ).push(piece@));
        }
        k += 1;
    }
    assert(views(parts@) =~= string_views(track.compositions@));
    let comp = join_chars(&parts, &chars_of(", "));
    let slash = chars_of("/");
    proof {
        reveal_strlit("/");
    }
    let name = last_piece_chars(&chars_of(track.path.as_str()), &slash);
    let mut head = comp.clone();
    push_str(&mut head, ": ");
    push_all(&mut head, &name);
    let ghost c = compositions_label(track_view(*track));
    let ghost n = file_name_of(track.path@);
    let mut out: Vec<ReportEntry> = Vec::new();
    match outcome {
        ScanOutcome::Unreadable(why) => {
            let mut m = head.clone();
            push_str(&mut m, " was not scanned");
            out.push(entry("info", &m, &chars_of(why.as_str())));
            assert(entry_views(out@) =~= seq![skipped_view(c, n, why@)]);
        },
        ScanOutcome::Encrypted => {
            let mut m = head.clone();
            push_str(&mut m, " was not scanned");
            out.push(entry("info", &m, &chars_of("the picture essence is encrypted")));
            assert(entry_views(out@) =~= seq![skipped_view(c, n, "the picture essence is encrypted"@)]);
        },
        ScanOutcome::Findings(fs) => {
            if fs.len() == 0 {
                let mut m = head.clone();
                push_str(&mut m, " has no black or frozen runs");
                out.push(entry("pass", &m, &Vec::new()));
                assert(entry_views(out@) =~= seq![
                    ("pass"@, PICTURE_CATEGORY@, c + ": "@ + n + " has no black or frozen runs"@, Seq::empty()),
                ]);
            } else {
                let ghost want = string_views(fs@).map_values(
                    |f: Seq<char>| ("warning"@, PICTURE_CATEGORY@, c + ": "@ + n + ": "@ + f, Seq::<char>::empty()),
                );
                let mut q: usize = 0;
                while q < fs.len()
                    invariant
                        q <= fs.len(),
                        head@ == c + ": "@ + n,
                        want == string_views(fs@).map_values(
                            |f: Seq<char>| ("warning"@, PICTURE_CATEGORY@, c + ": "@ + n + ": "@ + f, Seq::<char>::empty()),
                        ),
                        entry_views(out@) == want.take(q as int),
                    decreases fs.len() - q,
                {
                    let mut m = head.clone();
                    push_str(&mut m, ": ");
                    push_str(&mut m, fs[q].as_str());
                    let ghost before = out@;
                    let empty: Vec<char> = Vec::new();
                    let e = entry("warning", &m, &empty);
                    out.push(e);
                    proof {
                        assert(empty@ =~= Seq::<char>::empty());
                        assert(entry_views(out@) =~= entry_views(before).push(entry_view(e)));
                        assert(want.take(q + 1) =~= want.take(q as int).push(want[q as int]));
                        assert(want[q as int] == ("warning"@, PICTURE_CATEGORY@, c + ": "@ + n + ": "@ + fs@[q as int]@,
                            Seq::<char>::empty()));
                        assert(m@ =~= c + ": "@ + n + ": "@ + fs@[q as int]@);
                        assert(entry_views(out@) =~= want.take(q + 1));
                    }
                    q += 1;
                }
                assert(want.take(fs.len() as int) =~= want);
            }
        },
    }
    out
}

/// The entries of the picture section: those of the scan, or one saying no
/// picture track was there to scan.
pub fn finish_entries(entries: Vec<ReportEntry>) -> (r: Vec<ReportEntry>)
    ensures
        entries@.len() > 0 ==> r@ == entries@,
        entries@.len() == 0 ==> entry_views(r@) == seq![
            ("info"@, PICTURE_CATEGORY@, "No picture track was available to scan"@, Seq::<char>::empty()),
        ],
{
    if entries.len() > 0 {
        return entries;
    }
    let mut out: Vec<ReportEntry> = Vec::new();
    out.push(entry("info", &chars_of("No picture track was available to scan"), &Vec::new()));
    assert(entry_views(out@) =~= seq![
        ("info"@, PICTURE_CATEGORY@, "No picture track was available to scan"@, Seq::<char>::empty()),
    ]);
    out
}

} // verus!
