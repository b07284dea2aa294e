//! Compare two IMF packages (OV vs supplemental) and report differences.
//!
//! The ASSETMAP and CPL are read by plain tag scanning. An asset list keeps
//! one entry per id (a later ASSETMAP entry for the same id replaces the
//! earlier one), in the order the ids first appear; the caller fills in what
//! only the file system knows (a file's size, its extension and name).
use vstd::prelude::*;
use crate::text::{
    occurs_at, chars_of, decimal, decimal_chars, eq, eq_str, find, find_chars, lemma_find_from_bounds,
    push_all, push_str, slice, string_of, to_lowercase, trim, trim_chars, trim_start_matches,
    trim_start_matches_chars, unicode_lower,
};

verus! {

/// Why a diff could not be made.
#[derive(Debug)]
pub enum DiffError {
    /// The package directory (by its path) does not exist.
    NotFound(String),
    /// Reading a package failed; the text says how.
    Io(String),
}

impl DiffError {
    /// The error's message.
    pub fn message(&self) -> (r: String)
        ensures
            r@ == match self {
                DiffError::NotFound(p) => "IMP directory does not exist: "@ + p@,
                DiffError::Io(e) => "IO error: "@ + e@,
            },
    {
        match self {
            DiffError::NotFound(p) => {
                let mut m = chars_of("IMP directory does not exist: ");
                push_str(&mut m, p.as_str());
                string_of(&m)
            },
            DiffError::Io(e) => {
                let mut m = chars_of("IO error: ");
                push_str(&mut m, e.as_str());
                string_of(&m)
            },
        }
    }
}

#[derive(Debug, Clone, Copy, PartialEq, Eq, Structural)]
pub enum DiffStatus {
    Added,
    Removed,
    Modified,
    Unchanged,
    Replaced,
}

#[derive(Debug, Clone)]
pub struct TrackDiff {
    pub track_id: String,
    pub essence_type: String,
    pub status: DiffStatus,
    pub detail: String,
}

#[derive(Debug, Clone)]
pub struct SegmentDiff {
    pub cpl_id: String,
    pub entry_point: u64,
    pub duration: u64,
    pub status: DiffStatus,
    pub old_track_id: String,
    pub new_track_id: String,
}

#[derive(Debug, Clone)]
pub struct DiffOptions {
    pub imp_a: String,
    pub imp_b: String,
    pub include_hashes: bool,
    pub show_unchanged: bool,
}

#[derive(Debug, Clone)]
pub struct DiffResult {
    pub tracks_added: u32,
    pub tracks_removed: u32,
    pub tracks_modified: u32,
    pub segments_changed: u32,
    pub track_diffs: Vec<TrackDiff>,
    pub segment_diffs: Vec<SegmentDiff>,
    pub cpl_title_changed: bool,
    pub cpl_annotation_changed: bool,
    pub edit_rate_changed: bool,
}

/// One ASSETMAP asset: its id, its type (`mxf`, `xml` or `other`, by file
/// extension), its size in bytes, its path and its file name.
#[derive(Debug, Clone)]
pub struct AssetInfo {
    pub id: String,
    pub asset_type: String,
    pub size: u64,
    pub path: String,
    pub file_name: String,
}

/// What the diff reads from a CPL.
#[derive(Debug, Clone)]
pub struct CplFacts {
    pub id: String,
    pub title: String,
    pub annotation: String,
    pub edit_rate: String,
    pub track_file_ids: Vec<String>,
}

// ---------------------------------------------------------------------------
// Tag scanning
// ---------------------------------------------------------------------------

/// The trimmed text between the first `<tag>` and the next `</tag>`.
pub open spec fn extract_tag_spec(xml: Seq<char>, tag: Seq<char>) -> Option<Seq<char>> {
    let open = "<"@ + tag + ">"@;
    let close = "</"@ + tag + ">"@;
    match find(xml, open) {
        None => None,
        Some(i) => {
            let start = i + open.len();
            match find(xml.skip(start), close) {
                None => None,
                Some(j) => Some(trim(xml.subrange(start, start + j))),
            }
        },
    }
}

/// The trimmed text between the first `<tag>` and the next `</tag>`.
pub fn extract_tag(xml: &[char], tag: &str) -> (r: Option<Vec<char>>)
    ensures
        match (r, extract_tag_spec(xml@, tag@)) {
            (Some(a), Some(b)) => a@ == b,
            (None, None) => true,
            _ => false,
        },
{
    let mut open_tag = chars_of("<");
    push_str(&mut open_tag, tag);
    push_str(&mut open_tag, ">");
    let mut close_tag = chars_of("</");
    push_str(&mut close_tag, tag);
    push_str(&mut close_tag, ">");
    let xml_len = xml.len();
    match find_chars(xml, &open_tag) {
        None => None,
        Some(i) => {
            proof {
                lemma_find_from_bounds(xml@, open_tag@, 0);
                assert(crate::text::find_from(xml@, open_tag@, 0) == Some(i as int));
                assert(occurs_at(xml@, open_tag@, i as int));
            }
            let start = i + open_tag.len();
            let rest = slice(xml, start, xml.len());
            match find_chars(&rest, &close_tag) {
                None => None,
                Some(j) => {
                    proof {
                        lemma_find_from_bounds(rest@, close_tag@, 0);
                    }
                    let inner = slice(xml, start, start + j);
                    Some(trim_chars(&inner))
                },
            }
        },
    }
}

/// The pieces of `s` between the occurrences of `p`, as `str::split(p)`.
pub open spec fn split_pieces(s: Seq<char>, p: Seq<char>) -> Seq<Seq<char>>
    decreases s.len(),
{
    if p.len() == 0 {
        seq![s]
    } else {
        match find(s, p) {
            None => seq![s],
            Some(i) => {
                let rest = s.skip(i + p.len());
                if rest.len() < s.len() {
                    seq![s.take(i)] + split_pieces(rest, p)
                } else {
                    seq![s.take(i)]
                }
            },
        }
    }
}

/// The pieces of `s` between the occurrences of a non-empty `p`.
pub fn split_pieces_chars(s: &[char], p: &[char]) -> (r: Vec<Vec<char>>)
    requires
        p@.len() > 0,
    ensures
        crate::text::views(r@) == split_pieces(s@, p@),
{
    let mut out: Vec<Vec<char>> = Vec::new();
    let mut rest = slice(s, 0, s.len());
    assert(rest@ =~= s@);
    assert(crate::text::views(out@) + split_pieces(rest@, p@) =~= split_pieces(s@, p@));
    loop
        invariant
            p@.len() > 0,
            crate::text::views(out@) + split_pieces(rest@, p@) == split_pieces(s@, p@),
        decreases rest.len(),
    {
        match find_chars(&rest, p) {
            None => {
                let ghost before = crate::text::views(out@);
                let last = slice(&rest, 0, rest.len());
                assert(last@ =~= rest@);
                out.push(last);
                assert(crate::text::views(out@) =~= before.push(rest@));
                assert(crate::text::views(out@) =~= before + split_pieces(rest@, p@));
                return out;
            },
            Some(i) => {
                proof {
                    lemma_find_from_bounds(rest@, p@, 0);
                }
                let ghost before = crate::text::views(out@);
                let head = slice(&rest, 0, i);
                let next = slice(&rest, i + p.len(), rest.len());
                assert(next@ =~= rest@.skip(i + p@.len()));
                out.push(head);
                assert(crate::text::views(out@) =~= before.push(rest@.take(i as int)));
                assert(crate::text::views(out@) + split_pieces(next@, p@) =~= before
                    + split_pieces(rest@, p@));
                rest = next;
            },
        }
    }
}

pub open spec fn urn_trimmed(s: Seq<char>) -> Seq<char> {
    trim_start_matches(s, "urn:uuid:"@)
}

pub open spec fn or_empty(o: Option<Seq<char>>) -> Seq<char> {
    match o {
        Some(s) => s,
        None => Seq::empty(),
    }
}

/// The (id, path) an `<Asset>` piece names, if it is closed and names both.
pub open spec fn asset_block_entry(piece: Seq<char>) -> Option<(Seq<char>, Seq<char>)> {
    match find(piece, "</Asset>"@) {
        None => None,
        Some(end) => {
            let block = piece.take(end);
            let id = urn_trimmed(or_empty(extract_tag_spec(block, "Id"@)));
            let path = or_empty(extract_tag_spec(block, "Path"@));
            if id.len() == 0 || path.len() == 0 {
                None
            } else {
                Some((id, path))
            }
        },
    }
}

pub open spec fn block_entries(pieces: Seq<Seq<char>>) -> Seq<(Seq<char>, Seq<char>)>
    decreases pieces.len(),
{
    if pieces.len() == 0 {
        Seq::empty()
    } else {
        let rest = block_entries(pieces.drop_last());
        match asset_block_entry(pieces.last()) {
            Some(e) => rest.push(e),
            None => rest,
        }
    }
}

/// The (id, path) pairs of an ASSETMAP, ids without leading `urn:uuid:`, in
/// document order.
pub open spec fn assetmap_entries_spec(content: Seq<char>) -> Seq<(Seq<char>, Seq<char>)> {
    block_entries(split_pieces(content, "<Asset>"@).skip(1))
}

pub open spec fn pair_views(v: Seq<(String, String)>) -> Seq<(Seq<char>, Seq<char>)> {
    v.map_values(|p: (String, String)| (p.0@, p.1@))
}

fn or_empty_chars(o: Option<Vec<char>>) -> (r: Vec<char>)
    ensures
        r@ == match o {
            Some(v) => v@,
            None => Seq::empty(),
        },
{
    match o {
        Some(v) => v,
        None => Vec::new(),
    }
}

/// The (id, path) pairs an ASSETMAP lists.
pub fn assetmap_entries(content: &str) -> (r: Vec<(String, String)>)
    ensures
        pair_views(r@) == assetmap_entries_spec(content@),
{
    let cs = chars_of(content);
    let sep = chars_of("<Asset>");
    proof {
        reveal_strlit("<Asset>");
    }
    let pieces = split_pieces_chars(&cs, &sep);
    let ghost pv = crate::text::views(pieces@);
    let close = chars_of("</Asset>");
    let urn = chars_of("urn:uuid:");
    let mut out: Vec<(String, String)> = Vec::new();
    let mut k: usize = 1;
    assert(pv.skip(1).take(0) =~= Seq::<Seq<char>>::empty());
    assert(pair_views(out@) =~= Seq::<(Seq<char>, Seq<char>)>::empty());
    while k < pieces.len()
        invariant
            1 <= k <= pieces.len() || (k == 1 && pieces.len() == 0),
            pv == crate::text::views(pieces@),
            pv == split_pieces(content@, "<Asset>"@),
            close@ == "</Asset>"@,
            urn@ == "urn:uuid:"@,
            pair_views(out@) == block_entries(pv.skip(1).take(k - 1)),
        decreases pieces.len() - k,
    {
        let piece = &pieces[k];
        let ghost pre = pv.skip(1).take(k as int);
        assert(pre.drop_last() =~= pv.skip(1).take(k - 1));
        assert(pre.last() == piece@);
        match find_chars(piece, &close) {
            None => {},
            Some(end) => {
                proof {
                    lemma_find_from_bounds(piece@, close@, 0);
                }
                let block = slice(piece, 0, end);
                let id = trim_start_matches_chars(&or_empty_chars(extract_tag(&block, "Id")), &urn);
                let path = or_empty_chars(extract_tag(&block, "Path"));
                if id.len() > 0 && path.len() > 0 {
                    let ghost before = pair_views(out@);
                    out.push((string_of(&id), string_of(&path)));
                    assert(pair_views(out@) =~= before.push((id@, path@)));
                }
            },
        }
        k += 1;
    }
    proof {
        if pieces.len() > 0 {
            assert(pv.skip(1).take(pieces.len() - 1) =~= pv.skip(1));
        } else {
            assert(pv.skip(1) =~= Seq::<Seq<char>>::empty());
        }
    }
    out
}

/// The kind of asset a file extension (lower-cased) names.
pub open spec fn asset_type_spec(ext: Option<Seq<char>>) -> Seq<char> {
    let l = unicode_lower(or_empty(ext));
    if l == "mxf"@ {
        "mxf"@
    } else if l == "xml"@ {
        "xml"@
    } else {
        "other"@
    }
}

/// The kind of asset a file with extension `ext` is.
pub fn asset_type_for(ext: Option<&str>) -> (r: String)
    ensures
        r@ == asset_type_spec(
            match ext {
                Some(e) => Some(e@),
                None => None,
            },
        ),
{
    let l = match ext {
        Some(e) => to_lowercase(e),
        None => to_lowercase(""),
    };
    proof {
        reveal_strlit("");
        assert(""@ =~= Seq::<char>::empty());
    }
    let lc = chars_of(l.as_str());
    if eq_str(&lc, "mxf") {
        string_of(&chars_of("mxf"))
    } else if eq_str(&lc, "xml") {
        string_of(&chars_of("xml"))
    } else {
        string_of(&chars_of("other"))
    }
}

// ---------------------------------------------------------------------------
// The asset list
// ---------------------------------------------------------------------------

/// The first asset with id `id`.
pub open spec fn find_asset(v: Seq<AssetInfo>, id: Seq<char>, from: int) -> Option<int>
    decreases v.len() - from,
{
    if from < 0 || from >= v.len() {
        None
    } else if v[from].id@ == id {
        Some(from)
    } else {
        find_asset(v, id, from + 1)
    }
}

proof fn lemma_find_asset(v: Seq<AssetInfo>, id: Seq<char>, from: int)
    requires
        0 <= from,
    ensures
        match find_asset(v, id, from) {
            Some(k) => from <= k < v.len() && v[k].id@ == id && forall|j: int|
                from <= j < k ==> #[trigger] v[j].id@ != id,
            None => forall|j: int| from <= j < v.len() ==> #[trigger] v[j].id@ != id,
        },
    decreases v.len() - from,
{
    if from < v.len() {
        lemma_find_asset(v, id, from + 1);
    }
}

/// No two assets share an id.
pub open spec fn unique_ids(v: Seq<AssetInfo>) -> bool {
    forall|i: int, j: int| 0 <= i < j < v.len() ==> #[trigger] v[i].id@ != #[trigger] v[j].id@
}

fn find_asset_exec(v: &Vec<AssetInfo>, id: &[char]) -> (r: Option<usize>)
    ensures
        match r {
            Some(k) => find_asset(v@, id@, 0) == Some(k as int) && k < v.len(),
            None => find_asset(v@, id@, 0) is None,
        },
{
    let mut i: usize = 0;
    while i < v.len()
        invariant
            i <= v.len(),
            find_asset(v@, id@, 0) == find_asset(v@, id@, i as int),
        decreases v.len() - i,
    {
        let vi = chars_of(v[i].id.as_str());
        if eq(&vi, id) {
            return Some(i);
        }
        i += 1;
    }
    None
}

pub open spec fn asset_model(a: AssetInfo) -> (Seq<char>, Seq<char>, u64, Seq<char>, Seq<char>) {
    (a.id@, a.asset_type@, a.size, a.path@, a.file_name@)
}

pub open spec fn asset_models(v: Seq<AssetInfo>) -> Seq<(Seq<char>, Seq<char>, u64, Seq<char>, Seq<char>)> {
    v.map_values(|a: AssetInfo| asset_model(a))
}

/// Add an asset to the list; an asset with the same id is replaced in place.
pub fn insert_asset(assets: &mut Vec<AssetInfo>, a: AssetInfo)
    requires
        unique_ids(old(assets)@),
    ensures
        unique_ids(final(assets)@),
        match find_asset(old(assets)@, a.id@, 0) {
            Some(k) => asset_models(final(assets)@) == asset_models(old(assets)@).update(
                k,
                asset_model(a),
            ),
            None => asset_models(final(assets)@) == asset_models(old(assets)@).push(
                asset_model(a),
            ),
        },
{
    let idc = chars_of(a.id.as_str());
    proof {
        lemma_find_asset(assets@, a.id@, 0);
    }
    match find_asset_exec(assets, &idc) {
        Some(k) => {
            let ghost before = asset_models(assets@);
            assets.set(k, a);
            assert(asset_models(assets@) =~= before.update(k as int, asset_model(a)));
            assert forall|i: int, j: int| 0 <= i < j < assets@.len() implies #[trigger] assets@[i].id@
                != #[trigger] assets@[j].id@ by {
                if i != k && j != k {
                    assert(old(assets)@[i].id@ != old(assets)@[j].id@);
                }
                if i == k {
                    assert(old(assets)@[k as int].id@ == a.id@);
                    assert(old(assets)@[k as int].id@ != old(assets)@[j].id@);
                }
                if j == k {
                    assert(old(assets)@[i].id@ != old(assets)@[k as int].id@);
                }
            }
        },
        None => {
            let ghost before = asset_models(assets@);
            let ghost av = asset_model(a);
            assets.push(a);
            assert(asset_models(assets@) =~= before.push(av));
            assert forall|i: int, j: int| 0 <= i < j < assets@.len() implies #[trigger] assets@[i].id@
                != #[trigger] assets@[j].id@ by {
                if j == assets@.len() - 1 {
                    assert(old(assets)@[i].id@ != a.id@);
                } else {
                    assert(old(assets)@[i].id@ != old(assets)@[j].id@);
                }
            }
        },
    }
}

/// The first asset that is an XML file with `CPL` in its name.
pub open spec fn find_cpl_spec(v: Seq<AssetInfo>, from: int) -> Option<int>
    decreases v.len() - from,
{
    if from < 0 || from >= v.len() {
        None
    } else if v[from].asset_type@ == "xml"@ && crate::text::contains(v[from].file_name@, "CPL"@) {
        Some(from)
    } else {
        find_cpl_spec(v, from + 1)
    }
}

/// The package's CPL among its assets, by index.
pub fn find_cpl(assets: &Vec<AssetInfo>) -> (r: Option<usize>)
    ensures
        match r {
            Some(k) => find_cpl_spec(assets@, 0) == Some(k as int) && k < assets.len(),
            None => find_cpl_spec(assets@, 0) is None,
        },
{
    let mut i: usize = 0;
    while i < assets.len()
        invariant
            i <= assets.len(),
            find_cpl_spec(assets@, 0) == find_cpl_spec(assets@, i as int),
        decreases assets.len() - i,
    {
        let t = chars_of(assets[i].asset_type.as_str());
        let n = chars_of(assets[i].file_name.as_str());
        if eq_str(&t, "xml") && crate::text::contains_str(&n, "CPL") {
            return Some(i);
        }
        i += 1;
    }
    None
}

// ---------------------------------------------------------------------------
// The CPL
// ---------------------------------------------------------------------------

/// The track file ids of `<TrackFileId>` pieces, in order.
pub open spec fn track_ids_of(pieces: Seq<Seq<char>>) -> Seq<Seq<char>>
    decreases pieces.len(),
{
    if pieces.len() == 0 {
        Seq::empty()
    } else {
        let rest = track_ids_of(pieces.drop_last());
        match find(pieces.last(), "</TrackFileId>"@) {
            Some(end) => rest.push(urn_trimmed(trim(pieces.last().take(end)))),
            None => rest,
        }
    }
}

/// What the diff reads from CPL text: its first `Id` (without leading
/// `urn:uuid:`), `ContentTitle`, `Annotation` and `EditRate`, and every
/// `TrackFileId` in order.
pub open spec fn cpl_facts_spec(content: Seq<char>) -> (
    Seq<char>,
    Seq<char>,
    Seq<char>,
    Seq<char>,
    Seq<Seq<char>>,
) {
    (
        urn_trimmed(or_empty(extract_tag_spec(content, "Id"@))),
        or_empty(extract_tag_spec(content, "ContentTitle"@)),
        or_empty(extract_tag_spec(content, "Annotation"@)),
        or_empty(extract_tag_spec(content, "EditRate"@)),
        track_ids_of(split_pieces(content, "<TrackFileId>"@).skip(1)),
    )
}

pub open spec fn cpl_facts_view(c: CplFacts) -> (
    Seq<char>,
    Seq<char>,
    Seq<char>,
    Seq<char>,
    Seq<Seq<char>>,
) {
    (c.id@, c.title@, c.annotation@, c.edit_rate@, crate::text::string_views(c.track_file_ids@))
}

/// The facts of a package without a readable CPL: all empty.
pub fn empty_cpl_facts() -> (r: CplFacts)
    ensures
        cpl_facts_view(r) == cpl_facts_spec(Seq::empty()),
{
    let r = CplFacts {
        id: String::new(),
        title: String::new(),
        annotation: String::new(),
        edit_rate: String::new(),
        track_file_ids: Vec::new(),
    };
    proof {
        reveal_strlit("<");
        reveal_strlit(">");
        reveal_strlit("<Id>");
        reveal_strlit("<ContentTitle>");
        reveal_strlit("<Annotation>");
        reveal_strlit("<EditRate>");
        let e = Seq::<char>::empty();
        assert(find(e, "<Id>"@) is None) by {
            crate::text::lemma_find_from_bounds(e, "<Id>"@, 0);
        }
        reveal_strlit("<TrackFileId>");
        assert(find(e, "<TrackFileId>"@) is None) by {
            crate::text::lemma_find_from_bounds(e, "<TrackFileId>"@, 0);
        }
        assert(find(e, "<ContentTitle>"@) is None) by {
            crate::text::lemma_find_from_bounds(e, "<ContentTitle>"@, 0);
        }
        assert(find(e, "<Annotation>"@) is None) by {
            crate::text::lemma_find_from_bounds(e, "<Annotation>"@, 0);
        }
        assert(find(e, "<EditRate>"@) is None) by {
            crate::text::lemma_find_from_bounds(e, "<EditRate>"@, 0);
        }
        reveal_strlit("urn:uuid:");
        assert(urn_trimmed(e) == e);
        assert(split_pieces(e, "<TrackFileId>"@) == seq![e]);
        assert(split_pieces(e, "<TrackFileId>"@).skip(1) =~= Seq::<Seq<char>>::empty());
        assert(crate::text::string_views(r.track_file_ids@) =~= Seq::<Seq<char>>::empty());
        assert(extract_tag_spec(e, "Id"@) is None);
        assert(extract_tag_spec(e, "ContentTitle"@) is None);
        assert(extract_tag_spec(e, "Annotation"@) is None);
        assert(extract_tag_spec(e, "EditRate"@) is None);
        assert(track_ids_of(Seq::<Seq<char>>::empty()) =~= Seq::<Seq<char>>::empty());
    }
    r
}

/// What the diff reads from a CPL's text.
pub fn cpl_facts(content: &str) -> (r: CplFacts)
    ensures
        cpl_facts_view(r) == cpl_facts_spec(content@),
{
    let cs = chars_of(content);
    let urn = chars_of("urn:uuid:");
    let id = trim_start_matches_chars(&or_empty_chars(extract_tag(&cs, "Id")), &urn);
    let title = or_empty_chars(extract_tag(&cs, "ContentTitle"));
    let annotation = or_empty_chars(extract_tag(&cs, "Annotation"));
    let edit_rate = or_empty_chars(extract_tag(&cs, "EditRate"));
    let sep = chars_of("<TrackFileId>");
    proof {
        reveal_strlit("<TrackFileId>");
    }
    let pieces = split_pieces_chars(&cs, &sep);
    let ghost pv = crate::text::views(pieces@);
    let close = chars_of("</TrackFileId>");
    let mut ids: Vec<String> = Vec::new();
    let mut k: usize = 1;
    assert(pv.skip(1).take(0) =~= Seq::<Seq<char>>::empty());
    assert(crate::text::string_views(ids@) =~= Seq::<Seq<char>>::empty());
    while k < pieces.len()
        invariant
            1 <= k,
            k <= pieces.len() || pieces.len() == 0,
            pv == crate::text::views(pieces@),
            pv == split_pieces(content@, "<TrackFileId>"@),
            close@ == "</TrackFileId>"@,
            urn@ == "urn:uuid:"@,
            crate::text::string_views(ids@) == track_ids_of(pv.skip(1).take(k - 1)),
        decreases pieces.len() - k,
    {
        let piece = &pieces[k];
        let ghost pre = pv.skip(1).take(k as int);
        assert(pre.drop_last() =~= pv.skip(1).take(k - 1));
        assert(pre.last() == piece@);
        match find_chars(piece, &close) {
            None => {},
            Some(end) => {
                proof {
                    lemma_find_from_bounds(piece@, close@, 0);
                }
                let raw = trim_chars(&slice(piece, 0, end));
                let tid = trim_start_matches_chars(&raw, &urn);
                let ghost before = crate::text::string_views(ids@);
                ids.push(string_of(&tid));
                assert(crate::text::string_views(ids@) =~= before.push(tid@));
            },
        }
        k += 1;
    }
    proof {
        if pieces.len() > 0 {
            assert(pv.skip(1).take(pieces.len() - 1) =~= pv.skip(1));
        } else {
            assert(pv.skip(1) =~= Seq::<Seq<char>>::empty());
        }
    }
    CplFacts {
        id: string_of(&id),
        title: string_of(&title),
        annotation: string_of(&annotation),
        edit_rate: string_of(&edit_rate),
        track_file_ids: ids,
    }
}

// ---------------------------------------------------------------------------
// The diff
// ---------------------------------------------------------------------------

pub type TrackDiffModel = (Seq<char>, Seq<char>, DiffStatus, Seq<char>);

pub type SegmentDiffModel = (Seq<char>, u64, u64, DiffStatus, Seq<char>, Seq<char>);

pub open spec fn track_diff_view(t: TrackDiff) -> TrackDiffModel {
    (t.track_id@, t.essence_type@, t.status, t.detail@)
}

pub open spec fn track_diff_views(v: Seq<TrackDiff>) -> Seq<TrackDiffModel> {
    v.map_values(|t: TrackDiff| track_diff_view(t))
}

pub open spec fn segment_diff_view(s: SegmentDiff) -> SegmentDiffModel {
    (s.cpl_id@, s.entry_point, s.duration, s.status, s.old_track_id@, s.new_track_id@)
}

pub open spec fn segment_diff_views(v: Seq<SegmentDiff>) -> Seq<SegmentDiffModel> {
    v.map_values(|s: SegmentDiff| segment_diff_view(s))
}

pub open spec fn modified_detail(id: Seq<char>, a: u64, b: u64) -> Seq<char> {
    "Track "@ + id + " size changed ("@ + decimal(a as nat) + " → "@ + decimal(b as nat) + ")"@
}

/// What an asset of A contributes to the track diffs.
pub open spec fn a_track_diff(a: AssetInfo, b: Seq<AssetInfo>, hashes: bool, unchanged: bool) -> Option<
    TrackDiffModel,
> {
    if a.asset_type@ != "mxf"@ {
        None
    } else {
        match find_asset(b, a.id@, 0) {
            Some(j) => if hashes && a.size != b[j].size {
                Some((a.id@, "video"@, DiffStatus::Modified, modified_detail(a.id@, a.size, b[j].size)))
            } else if unchanged {
                Some((a.id@, "video"@, DiffStatus::Unchanged, Seq::empty()))
            } else {
                None
            },
            None => Some((a.id@, "video"@, DiffStatus::Removed, "Track "@ + a.id@ + " removed in B"@)),
        }
    }
}

/// What an asset of B contributes: a track A does not have.
pub open spec fn b_track_diff(bb: AssetInfo, a: Seq<AssetInfo>) -> Option<TrackDiffModel> {
    if bb.asset_type@ == "mxf"@ && find_asset(a, bb.id@, 0) is None {
        Some((bb.id@, "video"@, DiffStatus::Added, "New track "@ + bb.id@ + " in B"@))
    } else {
        None
    }
}

pub open spec fn opt_push<T>(s: Seq<T>, o: Option<T>) -> Seq<T> {
    match o {
        Some(x) => s.push(x),
        None => s,
    }
}

pub open spec fn a_diffs(a: Seq<AssetInfo>, b: Seq<AssetInfo>, hashes: bool, unchanged: bool) -> Seq<
    TrackDiffModel,
>
    decreases a.len(),
{
    if a.len() == 0 {
        Seq::empty()
    } else {
        opt_push(a_diffs(a.drop_last(), b, hashes, unchanged), a_track_diff(a.last(), b, hashes, unchanged))
    }
}

pub open spec fn b_diffs(b: Seq<AssetInfo>, a: Seq<AssetInfo>) -> Seq<TrackDiffModel>
    decreases b.len(),
{
    if b.len() == 0 {
        Seq::empty()
    } else {
        opt_push(b_diffs(b.drop_last(), a), b_track_diff(b.last(), a))
    }
}

/// The track diffs: A's tracks removed, modified (or unchanged, where asked
/// for), in A's order, then B's new tracks in B's order.
pub open spec fn track_diffs_spec(a: Seq<AssetInfo>, b: Seq<AssetInfo>, hashes: bool, unchanged: bool) -> Seq<
    TrackDiffModel,
> {
    a_diffs(a, b, hashes, unchanged) + b_diffs(b, a)
}

pub open spec fn count_diff(v: Seq<TrackDiffModel>, st: DiffStatus) -> nat
    decreases v.len(),
{
    if v.len() == 0 {
        0
    } else {
        count_diff(v.drop_last(), st) + if v.last().2 == st {
            1nat
        } else {
            0nat
        }
    }
}

/// Each id once, in order of first appearance.
pub open spec fn distinct(s: Seq<Seq<char>>) -> Seq<Seq<char>>
    decreases s.len(),
{
    if s.len() == 0 {
        Seq::empty()
    } else {
        let d = distinct(s.drop_last());
        if d.contains(s.last()) {
            d
        } else {
            d.push(s.last())
        }
    }
}

pub open spec fn seg_removed(ids: Seq<Seq<char>>, other: Seq<Seq<char>>, cpl_id: Seq<char>) -> Seq<
    SegmentDiffModel,
>
    decreases ids.len(),
{
    if ids.len() == 0 {
        Seq::empty()
    } else {
        let rest = seg_removed(ids.drop_last(), other, cpl_id);
        if other.contains(ids.last()) {
            rest
        } else {
            rest.push((cpl_id, 0u64, 0u64, DiffStatus::Removed, ids.last(), Seq::empty()))
        }
    }
}

pub open spec fn seg_added(ids: Seq<Seq<char>>, other: Seq<Seq<char>>, cpl_id: Seq<char>) -> Seq<
    SegmentDiffModel,
>
    decreases ids.len(),
{
    if ids.len() == 0 {
        Seq::empty()
    } else {
        let rest = seg_added(ids.drop_last(), other, cpl_id);
        if other.contains(ids.last()) {
            rest
        } else {
            rest.push((cpl_id, 0u64, 0u64, DiffStatus::Added, Seq::empty(), ids.last()))
        }
    }
}

/// The segment diffs: the track files only A's CPL references, then those
/// only B's does, each once.
pub open spec fn segment_diffs_spec(a: CplFacts, b: CplFacts) -> Seq<SegmentDiffModel> {
    let ta = crate::text::string_views(a.track_file_ids@);
    let tb = crate::text::string_views(b.track_file_ids@);
    seg_removed(distinct(ta), tb, a.id@) + seg_added(distinct(tb), ta, b.id@)
}

/// The diff of two packages' assets and CPL facts.
pub open spec fn diff_is(
    r: DiffResult,
    a: Seq<AssetInfo>,
    b: Seq<AssetInfo>,
    ca: CplFacts,
    cb: CplFacts,
    hashes: bool,
    unchanged: bool,
) -> bool {
    let td = track_diffs_spec(a, b, hashes, unchanged);
    let sd = segment_diffs_spec(ca, cb);
    &&& track_diff_views(r.track_diffs@) == td
    &&& segment_diff_views(r.segment_diffs@) == sd
    &&& r.tracks_added == count_diff(td, DiffStatus::Added)
    &&& r.tracks_removed == count_diff(td, DiffStatus::Removed)
    &&& r.tracks_modified == count_diff(td, DiffStatus::Modified)
    &&& r.segments_changed == sd.len()
    &&& r.cpl_title_changed == (ca.title@ != cb.title@)
    &&& r.cpl_annotation_changed == (ca.annotation@ != cb.annotation@)
    &&& r.edit_rate_changed == (ca.edit_rate@ != cb.edit_rate@)
}

proof fn lemma_count_diff_bound(v: Seq<TrackDiffModel>, st: DiffStatus)
    ensures
        count_diff(v, st) <= v.len(),
    decreases v.len(),
{
    if v.len() > 0 {
        lemma_count_diff_bound(v.drop_last(), st);
    }
}

proof fn lemma_count_diff_push(v: Seq<TrackDiffModel>, x: TrackDiffModel, st: DiffStatus)
    ensures
        count_diff(v.push(x), st) == count_diff(v, st) + if x.2 == st {
            1nat
        } else {
            0nat
        },
{
    assert(v.push(x).drop_last() =~= v);
}

proof fn lemma_a_diffs_len(a: Seq<AssetInfo>, b: Seq<AssetInfo>, h: bool, u: bool)
    ensures
        a_diffs(a, b, h, u).len() <= a.len(),
    decreases a.len(),
{
    if a.len() > 0 {
        lemma_a_diffs_len(a.drop_last(), b, h, u);
    }
}

proof fn lemma_b_diffs_len(b: Seq<AssetInfo>, a: Seq<AssetInfo>)
    ensures
        b_diffs(b, a).len() <= b.len(),
    decreases b.len(),
{
    if b.len() > 0 {
        lemma_b_diffs_len(b.drop_last(), a);
    }
}

proof fn lemma_distinct_len(s: Seq<Seq<char>>)
    ensures
        distinct(s).len() <= s.len(),
    decreases s.len(),
{
    if s.len() > 0 {
        lemma_distinct_len(s.drop_last());
    }
}

proof fn lemma_seg_removed_len(ids: Seq<Seq<char>>, o: Seq<Seq<char>>, c: Seq<char>)
    ensures
        seg_removed(ids, o, c).len() <= ids.len(),
    decreases ids.len(),
{
    if ids.len() > 0 {
        lemma_seg_removed_len(ids.drop_last(), o, c);
    }
}

proof fn lemma_seg_added_len(ids: Seq<Seq<char>>, o: Seq<Seq<char>>, c: Seq<char>)
    ensures
        seg_added(ids, o, c).len() <= ids.len(),
    decreases ids.len(),
{
    if ids.len() > 0 {
        lemma_seg_added_len(ids.drop_last(), o, c);
    }
}

fn copy_str(s: &String) -> (r: String)
    ensures
        r@ == s@,
{
    string_of(&chars_of(s.as_str()))
}

fn a_track_diff_exec(a: &AssetInfo, b: &Vec<AssetInfo>, hashes: bool, unchanged: bool) -> (r: Option<
    TrackDiff,
>)
    ensures
        match (r, a_track_diff(*a, b@, hashes, unchanged)) {
            (Some(x), Some(y)) => track_diff_view(x) == y,
            (None, None) => true,
            _ => false,
        },
{
    let t = chars_of(a.asset_type.as_str());
    if !eq_str(&t, "mxf") {
        return None;
    }
    let idc = chars_of(a.id.as_str());
    match find_asset_exec(b, &idc) {
        Some(j) => {
            if hashes && a.size != b[j].size {
                let mut m = chars_of("Track ");
                push_all(&mut m, &idc);
                push_str(&mut m, " size changed (");
                push_all(&mut m, &decimal_chars(a.size));
                push_str(&mut m, " → ");
                push_all(&mut m, &decimal_chars(b[j].size));
                push_str(&mut m, ")");
                Some(
                    TrackDiff {
                        track_id: copy_str(&a.id),
                        essence_type: string_of(&chars_of("video")),
                        status: DiffStatus::Modified,
                        detail: string_of(&m),
                    },
                )
            } else if unchanged {
                Some(
                    TrackDiff {
                        track_id: copy_str(&a.id),
                        essence_type: string_of(&chars_of("video")),
                        status: DiffStatus::Unchanged,
                        detail: String::new(),
                    },
                )
            } else {
                None
            }
        },
        None => {
            let mut m = chars_of("Track ");
            push_all(&mut m, &idc);
            push_str(&mut m, " removed in B");
            Some(
                TrackDiff {
                    track_id: copy_str(&a.id),
                    essence_type: string_of(&chars_of("video")),
                    status: DiffStatus::Removed,
                    detail: string_of(&m),
                },
            )
        },
    }
}

fn b_track_diff_exec(bb: &AssetInfo, a: &Vec<AssetInfo>) -> (r: Option<TrackDiff>)
    ensures
        match (r, b_track_diff(*bb, a@)) {
            (Some(x), Some(y)) => track_diff_view(x) == y,
            (None, None) => true,
            _ => false,
        },
{
    let t = chars_of(bb.asset_type.as_str());
    let idc = chars_of(bb.id.as_str());
    if eq_str(&t, "mxf") && find_asset_exec(a, &idc).is_none() {
        let mut m = chars_of("New track ");
        push_all(&mut m, &idc);
        push_str(&mut m, " in B");
        Some(
            TrackDiff {
                track_id: copy_str(&bb.id),
                essence_type: string_of(&chars_of("video")),
                status: DiffStatus::Added,
                detail: string_of(&m),
            },
        )
    } else {
        None
    }
}

fn contains_id(v: &Vec<String>, id: &[char]) -> (r: bool)
    ensures
        r == crate::text::string_views(v@).contains(id@),
{
    let mut i: usize = 0;
    while i < v.len()
        invariant
            i <= v.len(),
            forall|k: int| 0 <= k < i ==> v@[k]@ != id@,
        decreases v.len() - i,
    {
        let c = chars_of(v[i].as_str());
        if eq(&c, id) {
            assert(crate::text::string_views(v@)[i as int] == id@);
            return true;
        }
        i += 1;
    }
    proof {
        if crate::text::string_views(v@).contains(id@) {
            let k = choose|k: int|
                0 <= k < crate::text::string_views(v@).len() && crate::text::string_views(v@)[k]
                    == id@;
            assert(v@[k]@ == id@);
        }
    }
    false
}

fn distinct_ids(v: &Vec<String>) -> (r: Vec<String>)
    ensures
        crate::text::string_views(r@) == distinct(crate::text::string_views(v@)),
{
    let mut out: Vec<String> = Vec::new();
    let mut i: usize = 0;
    assert(crate::text::string_views(out@) =~= Seq::<Seq<char>>::empty());
    while i < v.len()
        invariant
            i <= v.len(),
            crate::text::string_views(out@) == distinct(crate::text::string_views(v@).take(i as int)),
        decreases v.len() - i,
    {
        let c = chars_of(v[i].as_str());
        let ghost pre = crate::text::string_views(v@).take(i + 1);
        assert(pre.drop_last() =~= crate::text::string_views(v@).take(i as int));
        assert(pre.last() == v@[i as int]@);
        if !contains_id(&out, &c) {
            let ghost before = crate::text::string_views(out@);
            out.push(string_of(&c));
            assert(crate::text::string_views(out@) =~= before.push(c@));
        }
        i += 1;
    }
    assert(crate::text::string_views(v@).take(v.len() as int) =~= crate::text::string_views(v@));
    out
}

fn push_segment_diffs(
    out: &mut Vec<SegmentDiff>,
    ids: &Vec<String>,
    other: &Vec<String>,
    cpl_id: &String,
    removed: bool,
)
    ensures
        segment_diff_views(final(out)@) == segment_diff_views(old(out)@) + if removed {
            seg_removed(
                crate::text::string_views(ids@),
                crate::text::string_views(other@),
                cpl_id@,
            )
        } else {
            seg_added(crate::text::string_views(ids@), crate::text::string_views(other@), cpl_id@)
        },
{
    let ghost start = segment_diff_views(out@);
    let ghost iv = crate::text::string_views(ids@);
    let ghost ov = crate::text::string_views(other@);
    let mut i: usize = 0;
    assert(iv.take(0) =~= Seq::<Seq<char>>::empty());
    assert(start + seg_removed(iv.take(0), ov, cpl_id@) =~= start);
    assert(start + seg_added(iv.take(0), ov, cpl_id@) =~= start);
    while i < ids.len()
        invariant
            i <= ids.len(),
            iv == crate::text::string_views(ids@),
            ov == crate::text::string_views(other@),
            segment_diff_views(out@) == start + if removed {
                seg_removed(iv.take(i as int), ov, cpl_id@)
            } else {
                seg_added(iv.take(i as int), ov, cpl_id@)
            },
        decreases ids.len() - i,
    {
        let c = chars_of(ids[i].as_str());
        let ghost pre = iv.take(i + 1);
        assert(pre.drop_last() =~= iv.take(i as int));
        assert(pre.last() == ids@[i as int]@);
        if !contains_id(other, &c) {
            let ghost before = segment_diff_views(out@);
            let d = if removed {
                SegmentDiff {
                    cpl_id: copy_str(cpl_id),
                    entry_point: 0,
                    duration: 0,
                    status: DiffStatus::Removed,
                    old_track_id: string_of(&c),
                    new_track_id: String::new(),
                }
            } else {
                SegmentDiff {
                    cpl_id: copy_str(cpl_id),
                    entry_point: 0,
                    duration: 0,
                    status: DiffStatus::Added,
                    old_track_id: String::new(),
                    new_track_id: string_of(&c),
                }
            };
            let ghost dv = segment_diff_view(d);
            out.push(d);
            assert(segment_diff_views(out@) =~= before.push(dv));
        }
        i += 1;
    }
    assert(iv.take(ids.len() as int) =~= iv);
}

/// The diff of two packages, given each one's assets and CPL facts.
pub fn diff_assets(
    a: &Vec<AssetInfo>,
    b: &Vec<AssetInfo>,
    ca: &CplFacts,
    cb: &CplFacts,
    include_hashes: bool,
    show_unchanged: bool,
) -> (r: DiffResult)
    requires
        a.len() + b.len() <= u32::MAX,
        ca.track_file_ids.len() + cb.track_file_ids.len() <= u32::MAX,
    ensures
        diff_is(r, a@, b@, *ca, *cb, include_hashes, show_unchanged),
{
    let mut diffs: Vec<TrackDiff> = Vec::new();
    let mut added: u32 = 0;
    let mut removed: u32 = 0;
    let mut modified: u32 = 0;
    let mut i: usize = 0;
    assert(track_diff_views(diffs@) =~= Seq::<TrackDiffModel>::empty());
    assert(a@.take(0) =~= Seq::<AssetInfo>::empty());
    while i < a.len()
        invariant
            i <= a.len(),
            a.len() + b.len() <= u32::MAX,
            track_diff_views(diffs@) == a_diffs(a@.take(i as int), b@, include_hashes, show_unchanged),
            added == count_diff(track_diff_views(diffs@), DiffStatus::Added),
            removed == count_diff(track_diff_views(diffs@), DiffStatus::Removed),
            modified == count_diff(track_diff_views(diffs@), DiffStatus::Modified),
        decreases a.len() - i,
    {
        let ghost pre = a@.take(i + 1);
        assert(pre.drop_last() =~= a@.take(i as int));
        proof {
            lemma_a_diffs_len(a@.take(i as int), b@, include_hashes, show_unchanged);
            lemma_count_diff_bound(track_diff_views(diffs@), DiffStatus::Added);
            lemma_count_diff_bound(track_diff_views(diffs@), DiffStatus::Removed);
            lemma_count_diff_bound(track_diff_views(diffs@), DiffStatus::Modified);
        }
        match a_track_diff_exec(&a[i], b, include_hashes, show_unchanged) {
            Some(d) => {
                let ghost before = track_diff_views(diffs@);
                let ghost dv = track_diff_view(d);
                proof {
                    lemma_count_diff_push(before, dv, DiffStatus::Added);
                    lemma_count_diff_push(before, dv, DiffStatus::Removed);
                    lemma_count_diff_push(before, dv, DiffStatus::Modified);
                }
                if d.status == DiffStatus::Removed {
                    removed += 1;
                } else if d.status == DiffStatus::Modified {
                    modified += 1;
                }
                diffs.push(d);
                assert(track_diff_views(diffs@) =~= before.push(dv));
            },
            None => {},
        }
        i += 1;
    }
    assert(a@.take(a.len() as int) =~= a@);
    let ghost ad = track_diff_views(diffs@);
    let mut j: usize = 0;
    assert(b@.take(0) =~= Seq::<AssetInfo>::empty());
    assert(ad + b_diffs(b@.take(0), a@) =~= ad);
    while j < b.len()
        invariant
            j <= b.len(),
            a.len() + b.len() <= u32::MAX,
            ad == a_diffs(a@, b@, include_hashes, show_unchanged),
            track_diff_views(diffs@) == ad + b_diffs(b@.take(j as int), a@),
            added == count_diff(track_diff_views(diffs@), DiffStatus::Added),
            removed == count_diff(track_diff_views(diffs@), DiffStatus::Removed),
            modified == count_diff(track_diff_views(diffs@), DiffStatus::Modified),
        decreases b.len() - j,
    {
        let ghost pre = b@.take(j + 1);
        assert(pre.drop_last() =~= b@.take(j as int));
        proof {
            lemma_a_diffs_len(a@, b@, include_hashes, show_unchanged);
            lemma_b_diffs_len(b@.take(j as int), a@);
            lemma_count_diff_bound(track_diff_views(diffs@), DiffStatus::Added);
        }
        match b_track_diff_exec(&b[j], a) {
            Some(d) => {
                let ghost before = track_diff_views(diffs@);
                let ghost dv = track_diff_view(d);
                proof {
                    lemma_count_diff_push(before, dv, DiffStatus::Added);
                    lemma_count_diff_push(before, dv, DiffStatus::Removed);
                    lemma_count_diff_push(before, dv, DiffStatus::Modified);
                }
                added += 1;
                diffs.push(d);
                assert(track_diff_views(diffs@) =~= before.push(dv));
                assert(ad + b_diffs(b@.take(j + 1), a@) =~= (ad + b_diffs(b@.take(j as int), a@)).push(dv));
            },
            None => {},
        }
        j += 1;
    }
    assert(b@.take(b.len() as int) =~= b@);
    let da = distinct_ids(&ca.track_file_ids);
    let db = distinct_ids(&cb.track_file_ids);
    let mut segs: Vec<SegmentDiff> = Vec::new();
    assert(segment_diff_views(segs@) =~= Seq::<SegmentDiffModel>::empty());
    push_segment_diffs(&mut segs, &da, &cb.track_file_ids, &ca.id, true);
    push_segment_diffs(&mut segs, &db, &ca.track_file_ids, &cb.id, false);
    proof {
        let ta = crate::text::string_views(ca.track_file_ids@);
        let tb = crate::text::string_views(cb.track_file_ids@);
        lemma_distinct_len(ta);
        lemma_distinct_len(tb);
        lemma_seg_removed_len(distinct(ta), tb, ca.id@);
        lemma_seg_added_len(distinct(tb), ta, cb.id@);
        assert(segment_diff_views(segs@) =~= segment_diffs_spec(*ca, *cb));
    }
    let changed = segs.len() as u32;
    let ta = chars_of(ca.title.as_str());
    let tb = chars_of(cb.title.as_str());
    let na = chars_of(ca.annotation.as_str());
    let nb = chars_of(cb.annotation.as_str());
    let ea = chars_of(ca.edit_rate.as_str());
    let eb = chars_of(cb.edit_rate.as_str());
    DiffResult {
        tracks_added: added,
        tracks_removed: removed,
        tracks_modified: modified,
        segments_changed: changed,
        track_diffs: diffs,
        segment_diffs: segs,
        cpl_title_changed: !eq(&ta, &tb),
        cpl_annotation_changed: !eq(&na, &nb),
        edit_rate_changed: !eq(&ea, &eb),
    }
}

/// What was read of one package: its assets and its CPL's facts.
pub struct PackageFacts {
    pub assets: Vec<AssetInfo>,
    pub cpl: CplFacts,
}

/// Compare two IMF packages. `a` and `b` are what was read of each, `None`
/// where the package directory does not exist.
pub fn diff_packages(opts: &DiffOptions, a: Option<PackageFacts>, b: Option<PackageFacts>) -> (r:
    Result<DiffResult, DiffError>)
    requires
        a matches Some(pa) && b matches Some(pb) ==> pa.assets.len() + pb.assets.len() <= u32::MAX
            && pa.cpl.track_file_ids.len() + pb.cpl.track_file_ids.len() <= u32::MAX,
    ensures
        a is None ==> (r matches Err(DiffError::NotFound(p)) && p@ == opts.imp_a@),
        a is Some && b is None ==> (r matches Err(DiffError::NotFound(p)) && p@ == opts.imp_b@),
        a matches Some(pa) && b matches Some(pb) ==> (r matches Ok(d) && diff_is(
            d,
            pa.assets@,
            pb.assets@,
            pa.cpl,
            pb.cpl,
            opts.include_hashes,
            opts.show_unchanged,
        )),
{
    match (a, b) {
        (None, _) => Err(DiffError::NotFound(copy_str(&opts.imp_a))),
        (Some(_), None) => Err(DiffError::NotFound(copy_str(&opts.imp_b))),
        (Some(pa), Some(pb)) => Ok(
            diff_assets(
                &pa.assets,
                &pb.assets,
                &pa.cpl,
                &pb.cpl,
                opts.include_hashes,
                opts.show_unchanged,
            ),
        ),
    }
}


// ---------------------------------------------------------------------------
// A package diffed against itself
// ---------------------------------------------------------------------------

proof fn lemma_a_diffs_found(p: Seq<AssetInfo>, a: Seq<AssetInfo>, hashes: bool)
    requires
        forall|k: int|
            0 <= k < p.len() ==> (find_asset(a, (#[trigger] p[k]).id@, 0) matches Some(j)
                && a[j].size == p[k].size),
    ensures
        a_diffs(p, a, hashes, false) == Seq::<TrackDiffModel>::empty(),
    decreases p.len(),
{
    if p.len() > 0 {
        let q = p.drop_last();
        assert forall|k: int| 0 <= k < q.len() implies (find_asset(a, (#[trigger] q[k]).id@, 0) matches Some(j)
            && a[j].size == q[k].size) by {
            assert(q[k] == p[k]);
        }
        lemma_a_diffs_found(q, a, hashes);
        assert(p.last() == p[p.len() - 1]);
    }
}

proof fn lemma_b_diffs_found(p: Seq<AssetInfo>, a: Seq<AssetInfo>)
    requires
        forall|k: int| 0 <= k < p.len() ==> find_asset(a, (#[trigger] p[k]).id@, 0) is Some,
    ensures
        b_diffs(p, a) == Seq::<TrackDiffModel>::empty(),
    decreases p.len(),
{
    if p.len() > 0 {
        let q = p.drop_last();
        assert forall|k: int| 0 <= k < q.len() implies find_asset(a, (#[trigger] q[k]).id@, 0) is Some by {
            assert(q[k] == p[k]);
        }
        lemma_b_diffs_found(q, a);
        assert(p.last() == p[p.len() - 1]);
    }
}

proof fn lemma_distinct_within(s: Seq<Seq<char>>)
    ensures
        forall|k: int| 0 <= k < distinct(s).len() ==> s.contains(#[trigger] distinct(s)[k]),
    decreases s.len(),
{
    if s.len() > 0 {
        let t = s.drop_last();
        lemma_distinct_within(t);
        assert forall|k: int| 0 <= k < distinct(s).len() implies s.contains(#[trigger] distinct(s)[k]) by {
            if k < distinct(t).len() {
                assert(distinct(s)[k] == distinct(t)[k]);
                let w = choose|i: int| 0 <= i < t.len() && t[i] == distinct(t)[k];
                assert(s[w] == t[w]);
            } else {
                assert(distinct(s)[k] == s.last());
                assert(s[s.len() - 1] == s.last());
            }
        }
    }
}

proof fn lemma_seg_removed_none(ids: Seq<Seq<char>>, o: Seq<Seq<char>>, c: Seq<char>)
    requires
        forall|k: int| 0 <= k < ids.len() ==> o.contains(#[trigger] ids[k]),
    ensures
        seg_removed(ids, o, c) == Seq::<SegmentDiffModel>::empty(),
    decreases ids.len(),
{
    if ids.len() > 0 {
        let t = ids.drop_last();
        assert forall|k: int| 0 <= k < t.len() implies o.contains(#[trigger] t[k]) by {
            assert(t[k] == ids[k]);
        }
        lemma_seg_removed_none(t, o, c);
        assert(ids.last() == ids[ids.len() - 1]);
    }
}

proof fn lemma_seg_added_none(ids: Seq<Seq<char>>, o: Seq<Seq<char>>, c: Seq<char>)
    requires
        forall|k: int| 0 <= k < ids.len() ==> o.contains(#[trigger] ids[k]),
    ensures
        seg_added(ids, o, c) == Seq::<SegmentDiffModel>::empty(),
    decreases ids.len(),
{
    if ids.len() > 0 {
        let t = ids.drop_last();
        assert forall|k: int| 0 <= k < t.len() implies o.contains(#[trigger] t[k]) by {
            assert(t[k] == ids[k]);
        }
        lemma_seg_added_none(t, o, c);
        assert(ids.last() == ids[ids.len() - 1]);
    }
}

/// A package diffed against itself has no differences: no track is added,
/// removed or modified (sizes compared or not), and no segment changed.
pub proof fn law_self_diff_is_empty(a: Seq<AssetInfo>, ca: CplFacts, hashes: bool)
    requires
        unique_ids(a),
    ensures
        track_diffs_spec(a, a, hashes, false) == Seq::<TrackDiffModel>::empty(),
        segment_diffs_spec(ca, ca) == Seq::<SegmentDiffModel>::empty(),
{
    assert forall|k: int| 0 <= k < a.len() implies (find_asset(a, (#[trigger] a[k]).id@, 0) matches Some(j)
        && a[j].size == a[k].size) by {
        lemma_find_asset(a, a[k].id@, 0);
        match find_asset(a, a[k].id@, 0) {
            Some(j) => {
                if j != k {
                    if j < k {
                        assert(a[j].id@ != a[k].id@);
                    } else {
                        assert(a[k].id@ != a[j].id@);
                    }
                }
            },
            None => {
                assert(a[k].id@ != a[k].id@);
            },
        }
    }
    lemma_a_diffs_found(a, a, hashes);
    lemma_b_diffs_found(a, a);
    assert(track_diffs_spec(a, a, hashes, false) =~= Seq::<TrackDiffModel>::empty());
    let ta = crate::text::string_views(ca.track_file_ids@);
    lemma_distinct_within(ta);
    lemma_seg_removed_none(distinct(ta), ta, ca.id@);
    lemma_seg_added_none(distinct(ta), ta, ca.id@);
    assert(segment_diffs_spec(ca, ca) =~= Seq::<SegmentDiffModel>::empty());
}


// ---------------------------------------------------------------------------
// A diff read both ways
// ---------------------------------------------------------------------------

/// The MXF assets of `a` that `b` does not have.
pub open spec fn missing_count(a: Seq<AssetInfo>, b: Seq<AssetInfo>) -> nat
    decreases a.len(),
{
    if a.len() == 0 {
        0
    } else {
        missing_count(a.drop_last(), b) + if a.last().asset_type@ == "mxf"@ && find_asset(
            b,
            a.last().id@,
            0,
        ) is None {
            1nat
        } else {
            0nat
        }
    }
}

/// An MXF asset whose size differs from that of the asset with its id in `b`.
pub open spec fn resized(x: AssetInfo, b: Seq<AssetInfo>) -> bool {
    &&& x.asset_type@ == "mxf"@
    &&& find_asset(b, x.id@, 0) matches Some(j) && x.size != b[j].size
}

/// The assets of `a` resized in `b`.
pub open spec fn resized_count(a: Seq<AssetInfo>, b: Seq<AssetInfo>) -> nat
    decreases a.len(),
{
    if a.len() == 0 {
        0
    } else {
        resized_count(a.drop_last(), b) + if resized(a.last(), b) {
            1nat
        } else {
            0nat
        }
    }
}

/// The ids of the assets of `a` resized in `b`.
pub open spec fn resized_ids(a: Seq<AssetInfo>, b: Seq<AssetInfo>) -> Set<Seq<char>> {
    Set::new(
        |id: Seq<char>|
            exists|k: int| 0 <= k < a.len() && a[k].id@ == id && #[trigger] resized(a[k], b),
    )
}

/// Assets that two packages share by id are MXF in both or in neither.
pub open spec fn kinds_agree(a: Seq<AssetInfo>, b: Seq<AssetInfo>) -> bool {
    forall|i: int, j: int|
        0 <= i < a.len() && 0 <= j < b.len() && #[trigger] a[i].id@ == #[trigger] b[j].id@ ==> (
        a[i].asset_type@ == "mxf"@ <==> b[j].asset_type@ == "mxf"@)
}

proof fn lemma_count_diff_concat(s: Seq<TrackDiffModel>, t: Seq<TrackDiffModel>, st: DiffStatus)
    ensures
        count_diff(s + t, st) == count_diff(s, st) + count_diff(t, st),
    decreases t.len(),
{
    if t.len() == 0 {
        assert(s + t =~= s);
    } else {
        lemma_count_diff_concat(s, t.drop_last(), st);
        assert((s + t).drop_last() =~= s + t.drop_last());
    }
}

proof fn lemma_count_opt_push(v: Seq<TrackDiffModel>, o: Option<TrackDiffModel>, st: DiffStatus)
    ensures
        count_diff(opt_push(v, o), st) == count_diff(v, st) + match o {
            Some(x) => if x.2 == st {
                1nat
            } else {
                0nat
            },
            None => 0nat,
        },
{
    if let Some(x) = o {
        lemma_count_diff_push(v, x, st);
    }
}

/// What A's side of the diff counts.
proof fn lemma_a_diffs_counts(a: Seq<AssetInfo>, b: Seq<AssetInfo>, h: bool, u: bool)
    ensures
        count_diff(a_diffs(a, b, h, u), DiffStatus::Removed) == missing_count(a, b),
        count_diff(a_diffs(a, b, h, u), DiffStatus::Modified) == if h {
            resized_count(a, b)
        } else {
            0
        },
        count_diff(a_diffs(a, b, h, u), DiffStatus::Added) == 0,
    decreases a.len(),
{
    if a.len() > 0 {
        lemma_a_diffs_counts(a.drop_last(), b, h, u);
        let rest = a_diffs(a.drop_last(), b, h, u);
        let o = a_track_diff(a.last(), b, h, u);
        lemma_count_opt_push(rest, o, DiffStatus::Removed);
        lemma_count_opt_push(rest, o, DiffStatus::Modified);
        lemma_count_opt_push(rest, o, DiffStatus::Added);
    }
}

/// What B's side of the diff counts.
proof fn lemma_b_diffs_counts(b: Seq<AssetInfo>, a: Seq<AssetInfo>)
    ensures
        count_diff(b_diffs(b, a), DiffStatus::Added) == missing_count(b, a),
        count_diff(b_diffs(b, a), DiffStatus::Removed) == 0,
        count_diff(b_diffs(b, a), DiffStatus::Modified) == 0,
    decreases b.len(),
{
    if b.len() > 0 {
        lemma_b_diffs_counts(b.drop_last(), a);
        let rest = b_diffs(b.drop_last(), a);
        let o = b_track_diff(b.last(), a);
        lemma_count_opt_push(rest, o, DiffStatus::Removed);
        lemma_count_opt_push(rest, o, DiffStatus::Modified);
        lemma_count_opt_push(rest, o, DiffStatus::Added);
    }
}

/// With ids unique, the resized assets are counted by their ids.
proof fn lemma_resized_count_ids(a: Seq<AssetInfo>, b: Seq<AssetInfo>)
    requires
        unique_ids(a),
    ensures
        resized_ids(a, b).finite(),
        resized_ids(a, b).len() == resized_count(a, b),
    decreases a.len(),
{
    if a.len() == 0 {
        assert(resized_ids(a, b) =~= Set::<Seq<char>>::empty());
    } else {
        let p = a.drop_last();
        let x = a.last();
        assert(unique_ids(p)) by {
            assert forall|i: int, j: int| 0 <= i < j < p.len() implies #[trigger] p[i].id@
                != #[trigger] p[j].id@ by {
                assert(p[i] == a[i] && p[j] == a[j]);
            }
        }
        lemma_resized_count_ids(p, b);
        assert(!resized_ids(p, b).contains(x.id@)) by {
            if resized_ids(p, b).contains(x.id@) {
                let k = choose|k: int|
                    0 <= k < p.len() && p[k].id@ == x.id@ && #[trigger] resized(p[k], b);
                assert(a[k] == p[k]);
                assert(a[k].id@ != a[a.len() - 1].id@);
            }
        }
        let next = if resized(x, b) {
            resized_ids(p, b).insert(x.id@)
        } else {
            resized_ids(p, b)
        };
        assert(resized_ids(a, b) =~= next) by {
            assert forall|id: Seq<char>| resized_ids(a, b).contains(id) implies next.contains(id) by {
                let k = choose|k: int| 0 <= k < a.len() && a[k].id@ == id && #[trigger] resized(a[k], b);
                if k < p.len() {
                    assert(p[k] == a[k]);
                } else {
                    assert(a[k] == x);
                }
            }
            assert forall|id: Seq<char>| next.contains(id) implies resized_ids(a, b).contains(id) by {
                if resized(x, b) && id == x.id@ {
                    assert(resized(a[a.len() - 1], b));
                } else {
                    let k = choose|k: int|
                        0 <= k < p.len() && p[k].id@ == id && #[trigger] resized(p[k], b);
                    assert(a[k] == p[k]);
                }
            }
        }
    }
}

/// An id resized from A to B is resized from B to A.
proof fn lemma_resized_ids_flip(a: Seq<AssetInfo>, b: Seq<AssetInfo>)
    requires
        unique_ids(a),
        kinds_agree(a, b),
    ensures
        resized_ids(a, b).subset_of(resized_ids(b, a)),
{
    assert forall|id: Seq<char>| resized_ids(a, b).contains(id) implies resized_ids(b, a).contains(
        id,
    ) by {
        let k = choose|k: int| 0 <= k < a.len() && a[k].id@ == id && #[trigger] resized(a[k], b);
        lemma_find_asset(b, id, 0);
        let j = find_asset(b, id, 0)->0;
        assert(b[j].id@ == a[k].id@);
        lemma_find_asset(a, id, 0);
        match find_asset(a, id, 0) {
            Some(i) => {
                if i != k {
                    if i < k {
                        assert(a[i].id@ != a[k].id@);
                    } else {
                        assert(a[k].id@ != a[i].id@);
                    }
                }
                assert(resized(b[j], a));
            },
            None => {
                assert(a[k].id@ != id);
            },
        }
    }
}

proof fn lemma_kinds_agree_flip(a: Seq<AssetInfo>, b: Seq<AssetInfo>)
    requires
        kinds_agree(a, b),
    ensures
        kinds_agree(b, a),
{
    assert forall|i: int, j: int|
        0 <= i < b.len() && 0 <= j < a.len() && #[trigger] b[i].id@ == #[trigger] a[j].id@ implies (
        b[i].asset_type@ == "mxf"@ <==> a[j].asset_type@ == "mxf"@) by {
        assert(a[j].id@ == b[i].id@);
    }
}

proof fn lemma_seg_sides_len(ids: Seq<Seq<char>>, o: Seq<Seq<char>>, c: Seq<char>, d: Seq<char>)
    ensures
        seg_removed(ids, o, c).len() == seg_added(ids, o, d).len(),
    decreases ids.len(),
{
    if ids.len() > 0 {
        lemma_seg_sides_len(ids.drop_last(), o, c, d);
    }
}

/// Diffing B against A mirrors diffing A against B: the tracks one adds the
/// other removes, as many tracks are modified and as many segments changed,
/// and the CPL's title, annotation and edit rate differ alike. Each package
/// lists an id once, and an asset the two share is MXF in both or in neither.
pub proof fn law_diff_read_both_ways(
    a: Seq<AssetInfo>,
    b: Seq<AssetInfo>,
    ca: CplFacts,
    cb: CplFacts,
    hashes: bool,
    unchanged: bool,
)
    requires
        unique_ids(a),
        unique_ids(b),
        kinds_agree(a, b),
    ensures
        count_diff(track_diffs_spec(a, b, hashes, unchanged), DiffStatus::Added) == count_diff(
            track_diffs_spec(b, a, hashes, unchanged),
            DiffStatus::Removed,
        ),
        count_diff(track_diffs_spec(a, b, hashes, unchanged), DiffStatus::Removed) == count_diff(
            track_diffs_spec(b, a, hashes, unchanged),
            DiffStatus::Added,
        ),
        count_diff(track_diffs_spec(a, b, hashes, unchanged), DiffStatus::Modified) == count_diff(
            track_diffs_spec(b, a, hashes, unchanged),
            DiffStatus::Modified,
        ),
        segment_diffs_spec(ca, cb).len() == segment_diffs_spec(cb, ca).len(),
        (ca.title@ != cb.title@) == (cb.title@ != ca.title@),
        (ca.annotation@ != cb.annotation@) == (cb.annotation@ != ca.annotation@),
        (ca.edit_rate@ != cb.edit_rate@) == (cb.edit_rate@ != ca.edit_rate@),
{
    let ab = a_diffs(a, b, hashes, unchanged);
    let ba = a_diffs(b, a, hashes, unchanged);
    lemma_a_diffs_counts(a, b, hashes, unchanged);
    lemma_a_diffs_counts(b, a, hashes, unchanged);
    lemma_b_diffs_counts(b, a);
    lemma_b_diffs_counts(a, b);
    lemma_count_diff_concat(ab, b_diffs(b, a), DiffStatus::Added);
    lemma_count_diff_concat(ab, b_diffs(b, a), DiffStatus::Removed);
    lemma_count_diff_concat(ab, b_diffs(b, a), DiffStatus::Modified);
    lemma_count_diff_concat(ba, b_diffs(a, b), DiffStatus::Added);
    lemma_count_diff_concat(ba, b_diffs(a, b), DiffStatus::Removed);
    lemma_count_diff_concat(ba, b_diffs(a, b), DiffStatus::Modified);
    lemma_kinds_agree_flip(a, b);
    lemma_resized_ids_flip(a, b);
    lemma_resized_ids_flip(b, a);
    assert(resized_ids(a, b) =~= resized_ids(b, a));
    lemma_resized_count_ids(a, b);
    lemma_resized_count_ids(b, a);
    let ta = crate::text::string_views(ca.track_file_ids@);
    let tb = crate::text::string_views(cb.track_file_ids@);
    lemma_seg_sides_len(distinct(ta), tb, ca.id@, ca.id@);
    lemma_seg_sides_len(distinct(tb), ta, cb.id@, cb.id@);
}

} // verus!
