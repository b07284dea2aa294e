//! MCA labels of a sound track file: the layouts `mca --layout` names, and
//! the text edits that keep a package's CPL and PKL describing a track file
//! whose labels were rewritten.
//!
//! Reading and rewrapping the MXF, hashing it and writing the documents are
//! the caller's.
use vstd::prelude::*;
use crate::text::{
    ascii_lower, chars_of, contains, contains_chars, decimal, decimal_chars, eq, find, find_chars,
    lemma_find_from_bounds, occurs_at, push_all, push_str, slice, starts_with, starts_with_str,
    string_of, to_ascii_lower,
};

verus! {

/// A soundfield layout: its name, how many channels the track file carries,
/// and the labels an AS-02 sound wrap takes for it.
#[derive(Debug, Clone, Copy, PartialEq, Eq)]
pub struct Layout {
    pub name: &'static str,
    pub channels: u32,
    pub labels: &'static str,
}

/// The layouts by name, in the order they are offered. The stereo group is
/// spelled `ST`, and one soundfield group is taken per track file, so an
/// accessibility track is a track file of its own.
pub open spec fn layouts() -> Seq<(Seq<char>, u32, Seq<char>)> {
    seq![
        ("mono"@, 1u32, "DNS(NSC001)"@),
        ("10"@, 1u32, "DNS(NSC001)"@),
        ("stereo"@, 2u32, "ST(L,R)"@),
        ("20"@, 2u32, "ST(L,R)"@),
        ("51"@, 6u32, "51(L,R,C,LFE,Ls,Rs)"@),
        ("71"@, 8u32, "71(L,R,C,LFE,Lss,Rss,Lrs,Rrs)"@),
    ]
}

/// The first layout whose name is `name`, ASCII case ignored.
pub open spec fn layout_named(name: Seq<char>, from: int) -> Option<int>
    decreases layouts().len() - from,
{
    if from < 0 || from >= layouts().len() {
        None
    } else if ascii_lower(layouts()[from].0) == ascii_lower(name) {
        Some(from)
    } else {
        layout_named(name, from + 1)
    }
}

pub open spec fn layout_view(l: Layout) -> (Seq<char>, u32, Seq<char>) {
    (l.name@, l.channels, l.labels@)
}

fn layout_at(i: usize) -> (r: Layout)
    requires
        i < 6,
    ensures
        layout_view(r) == layouts()[i as int],
{
    if i == 0 {
        Layout { name: "mono", channels: 1, labels: "DNS(NSC001)" }
    } else if i == 1 {
        Layout { name: "10", channels: 1, labels: "DNS(NSC001)" }
    } else if i == 2 {
        Layout { name: "stereo", channels: 2, labels: "ST(L,R)" }
    } else if i == 3 {
        Layout { name: "20", channels: 2, labels: "ST(L,R)" }
    } else if i == 4 {
        Layout { name: "51", channels: 6, labels: "51(L,R,C,LFE,Ls,Rs)" }
    } else {
        Layout { name: "71", channels: 8, labels: "71(L,R,C,LFE,Lss,Rss,Lrs,Rrs)" }
    }
}

/// The layout `name` names, in any ASCII case.
pub fn layout(name: &str) -> (r: Option<Layout>)
    ensures
        match layout_named(name@, 0) {
            Some(k) => r matches Some(l) && layout_view(l) == layouts()[k],
            None => r is None,
        },
{
    let wanted = to_ascii_lower(&chars_of(name));
    let mut i: usize = 0;
    while i < 6
        invariant
            i <= 6,
            wanted@ == ascii_lower(name@),
            layout_named(name@, 0) == layout_named(name@, i as int),
        decreases 6 - i,
    {
        let l = layout_at(i);
        if eq(&to_ascii_lower(&chars_of(l.name)), &wanted) {
            return Some(l);
        }
        i += 1;
    }
    None
}

/// Every layout name, comma separated, in the order they are offered.
pub fn layout_names() -> (r: String)
    ensures
        r@ == "mono, 10, stereo, 20, 51, 71"@,
{
    string_of(&chars_of("mono, 10, stereo, 20, 51, 71"))
}

pub open spec fn channel_count_refusal(mxf: Seq<char>, channels: u32, layout: (Seq<char>, u32, Seq<char>)) -> Seq<
    char,
> {
    mxf + " carries "@ + decimal(channels as nat) + " channels and --layout "@ + layout.0
        + " names "@ + decimal(layout.1 as nat)
}

/// The labels of a layout fit a track file only with its channel count.
pub fn check_layout_channels(mxf: &str, channels: u32, layout: Layout) -> (r: Result<(), String>)
    ensures
        channels == layout.channels ==> r is Ok,
        channels != layout.channels ==> (r matches Err(e) && e@ == channel_count_refusal(
            mxf@,
            channels,
            layout_view(layout),
        )),
{
    if channels == layout.channels {
        return Ok(());
    }
    let mut m = chars_of(mxf);
    push_str(&mut m, " carries ");
    push_all(&mut m, &decimal_chars(channels as u64));
    push_str(&mut m, " channels and --layout ");
    push_str(&mut m, layout.name);
    push_str(&mut m, " names ");
    push_all(&mut m, &decimal_chars(layout.channels as u64));
    Err(string_of(&m))
}

// ---------------------------------------------------------------------------
// Package text
// ---------------------------------------------------------------------------

/// The text between the first `open` and the next `close` after it.
pub open spec fn between_spec(text: Seq<char>, open: Seq<char>, close: Seq<char>) -> Option<Seq<char>> {
    match find(text, open) {
        None => None,
        Some(s) => {
            let rest = text.skip(s + open.len());
            match find(rest, close) {
                None => None,
                Some(e) => Some(rest.take(e)),
            }
        },
    }
}

proof fn lemma_found(s: Seq<char>, p: Seq<char>)
    ensures
        find(s, p) matches Some(i) ==> 0 <= i && i + p.len() <= s.len() && s.subrange(i, i + p.len())
            == p,
{
    lemma_find_from_bounds(s, p, 0);
}

pub fn between(text: &[char], open: &str, close: &str) -> (r: Option<Vec<char>>)
    ensures
        match between_spec(text@, open@, close@) {
            Some(t) => r matches Some(v) && v@ == t,
            None => r is None,
        },
{
    let n = text.len();
    let o = chars_of(open);
    let c = chars_of(close);
    let s = match find_chars(text, &o) {
        None => return None,
        Some(s) => s,
    };
    proof {
        lemma_found(text@, o@);
    }
    let rest = slice(text, s + o.len(), text.len());
    assert(rest@ =~= text@.skip(s + o@.len()));
    match find_chars(&rest, &c) {
        None => None,
        Some(e) => {
            proof {
                lemma_found(rest@, c@);
            }
            let v = slice(&rest, 0, e);
            assert(v@ =~= rest@.take(e as int));
            Some(v)
        },
    }
}

/// The resources of a CPL from `rest` on: the essence descriptor id the first
/// resource naming `track_file_id` carries as its `SourceEncoding`.
pub open spec fn encoding_scan(rest: Seq<char>, id: Seq<char>) -> Option<Seq<char>>
    decreases rest.len(),
{
    match find(rest, "<Resource "@) {
        None => None,
        Some(start) => match find(rest.skip(start), "</Resource>"@) {
            None => None,
            Some(at) => {
                let end = start + at + 11;
                if 0 < end <= rest.len() {
                    let resource = rest.subrange(start, end);
                    if contains(resource, id) {
                        between_spec(resource, "<SourceEncoding>urn:uuid:"@, "</SourceEncoding>"@)
                    } else {
                        encoding_scan(rest.skip(end), id)
                    }
                } else {
                    None
                }
            },
        },
    }
}

/// The id of the essence descriptor the resource for `track_file_id` names.
pub fn source_encoding_of(cpl: &str, track_file_id: &str) -> (r: Option<String>)
    ensures
        match encoding_scan(cpl@, track_file_id@) {
            Some(t) => r matches Some(v) && v@ == t,
            None => r is None,
        },
{
    let id = chars_of(track_file_id);
    let open = chars_of("<Resource ");
    let close = chars_of("</Resource>");
    proof {
        reveal_strlit("</Resource>");
    }
    let mut rest = chars_of(cpl);
    loop
        invariant
            encoding_scan(rest@, id@) == encoding_scan(cpl@, track_file_id@),
            id@ == track_file_id@,
            open@ == "<Resource "@,
            close@ == "</Resource>"@,
            close@.len() == 11,
        decreases rest@.len(),
    {
        let start = match find_chars(&rest, &open) {
            None => return None,
            Some(s) => s,
        };
        proof {
            lemma_found(rest@, open@);
        }
        let from_start = slice(&rest, start, rest.len());
        assert(from_start@ =~= rest@.skip(start as int));
        let at = match find_chars(&from_start, &close) {
            None => return None,
            Some(a) => a,
        };
        proof {
            lemma_found(from_start@, close@);
        }
        let end = start + at + 11;
        let resource = slice(&rest, start, end);
        if contains_chars(&resource, &id) {
            return match between(&resource, "<SourceEncoding>urn:uuid:", "</SourceEncoding>") {
                Some(v) => Some(string_of(&v)),
                None => None,
            };
        }
        let next = slice(&rest, end, rest.len());
        assert(next@ =~= rest@.skip(end as int));
        rest = next;
    }
}

/// The CPL with the body of essence descriptor `descriptor_id` swapped for
/// `body`, its own `Id` kept; searching the descriptors from `searched` on.
pub open spec fn descriptor_scan(cpl: Seq<char>, id: Seq<char>, body: Seq<char>, searched: int) -> Option<
    Seq<char>,
>
    decreases cpl.len() - searched,
{
    if searched < 0 || searched > cpl.len() {
        None
    } else {
        match find(cpl.skip(searched), "<EssenceDescriptor>"@) {
            None => None,
            Some(at) => {
                let start = at + searched;
                match find(cpl.skip(start), "</EssenceDescriptor>"@) {
                    None => None,
                    Some(e) => {
                        let end = e + start;
                        let block = cpl.subrange(start, end);
                        if contains(block, id) {
                            match find(block, "</Id>"@) {
                                None => None,
                                Some(k) => {
                                    let after_id = start + k + 5;
                                    Some(
                                        cpl.take(after_id) + "\n"@ + body + "      "@ + cpl.skip(
                                            end,
                                        ),
                                    )
                                },
                            }
                        } else if searched < end + 20 <= cpl.len() {
                            descriptor_scan(cpl, id, body, end + 20)
                        } else {
                            None
                        }
                    },
                }
            },
        }
    }
}

/// Swap the body of the named essence descriptor, keeping its own `Id`; none
/// where the CPL has no such descriptor.
pub fn replace_descriptor_body(cpl: &str, descriptor_id: &str, body: &str) -> (r: Option<String>)
    ensures
        match descriptor_scan(cpl@, descriptor_id@, body@, 0) {
            Some(t) => r matches Some(v) && v@ == t,
            None => r is None,
        },
{
    let text = chars_of(cpl);
    let id = chars_of(descriptor_id);
    let open = chars_of("<EssenceDescriptor>");
    let close = chars_of("</EssenceDescriptor>");
    let id_end = chars_of("</Id>");
    proof {
        reveal_strlit("</EssenceDescriptor>");
        reveal_strlit("</Id>");
    }
    let mut searched: usize = 0;
    loop
        invariant
            searched <= text@.len(),
            text@ == cpl@,
            id@ == descriptor_id@,
            open@ == "<EssenceDescriptor>"@,
            close@ == "</EssenceDescriptor>"@,
            close@.len() == 20,
            id_end@ == "</Id>"@,
            id_end@.len() == 5,
            descriptor_scan(cpl@, descriptor_id@, body@, searched as int) == descriptor_scan(
                cpl@,
                descriptor_id@,
                body@,
                0,
            ),
        decreases text@.len() - searched,
    {
        let tail = slice(&text, searched, text.len());
        assert(tail@ =~= text@.skip(searched as int));
        let at = match find_chars(&tail, &open) {
            None => return None,
            Some(a) => a,
        };
        proof {
            lemma_found(tail@, open@);
        }
        let start = at + searched;
        let from_start = slice(&text, start, text.len());
        assert(from_start@ =~= text@.skip(start as int));
        let e = match find_chars(&from_start, &close) {
            None => return None,
            Some(e) => e,
        };
        proof {
            lemma_found(from_start@, close@);
        }
        let end = e + start;
        let block = slice(&text, start, end);
        if contains_chars(&block, &id) {
            let k = match find_chars(&block, &id_end) {
                None => return None,
                Some(k) => k,
            };
            proof {
                lemma_found(block@, id_end@);
            }
            let after_id = start + k + 5;
            let mut out = slice(&text, 0, after_id);
            push_str(&mut out, "\n");
            push_str(&mut out, body);
            push_str(&mut out, "      ");
            push_all(&mut out, &slice(&text, end, text.len()));
            proof {
                assert(text@.subrange(end as int, text@.len() as int) =~= text@.skip(end as int));
                assert(text@.subrange(0, after_id as int) =~= text@.take(after_id as int));
            }
            return Some(string_of(&out));
        }
        searched = end + 20;
    }
}

/// `xml` with the text of its first `<element>` set to `value`, where the
/// element opens before it closes; else `xml` as it is.
pub open spec fn replace_element_spec(xml: Seq<char>, element: Seq<char>, value: Seq<char>) -> Seq<char> {
    let open = "<"@ + element + ">"@;
    let close = "</"@ + element + ">"@;
    match (find(xml, open), find(xml, close)) {
        (Some(start), Some(end)) => if start < end {
            xml.take(start) + open + value + xml.skip(end)
        } else {
            xml
        },
        _ => xml,
    }
}

pub fn replace_element(xml: &[char], element: &str, value: &str) -> (r: Vec<char>)
    ensures
        r@ == replace_element_spec(xml@, element@, value@),
{
    let mut open = chars_of("<");
    push_str(&mut open, element);
    push_str(&mut open, ">");
    let mut close = chars_of("</");
    push_str(&mut close, element);
    push_str(&mut close, ">");
    match (find_chars(xml, &open), find_chars(xml, &close)) {
        (Some(start), Some(end)) => {
            proof {
                lemma_found(xml@, open@);
                lemma_found(xml@, close@);
            }
            if start < end {
                let mut out = slice(xml, 0, start);
                push_all(&mut out, &open);
                push_str(&mut out, value);
                push_all(&mut out, &slice(xml, end, xml.len()));
                proof {
                    assert(xml@.subrange(0, start as int) =~= xml@.take(start as int));
                    assert(xml@.subrange(end as int, xml@.len() as int) =~= xml@.skip(end as int));
                }
                out
            } else {
                slice(xml, 0, xml.len())
            }
        },
        _ => slice(xml, 0, xml.len()),
    }
}

/// The packing list from `rest` on with the `Hash` and `Size` of every asset
/// block naming `asset_id` set, and whether any was.
pub open spec fn patch_scan(rest: Seq<char>, id: Seq<char>, hash: Seq<char>, size: Seq<char>) -> (
    Seq<char>,
    bool,
)
    decreases rest.len(),
{
    match find(rest, "<Asset>"@) {
        None => (rest, false),
        Some(start) => {
            let end = match find(rest.skip(start), "</Asset>"@) {
                Some(at) => start + at + 8,
                None => rest.len() as int,
            };
            if 0 <= start < end <= rest.len() {
                let block = rest.subrange(start, end);
                let hit = contains(block, id);
                let (tail, patched) = patch_scan(rest.skip(end), id, hash, size);
                (
                    rest.take(start) + (if hit {
                        replace_element_spec(
                            replace_element_spec(block, "Hash"@, hash),
                            "Size"@,
                            size,
                        )
                    } else {
                        block
                    }) + tail,
                    hit || patched,
                )
            } else {
                (rest, false)
            }
        },
    }
}

/// The packing list with the asset `asset_id`'s hash and size set to the
/// rewritten file's, or refused where it lists no such asset.
pub open spec fn patched_pkl_spec(pkl: Seq<char>, id: Seq<char>, hash: Seq<char>, size: u64) -> Result<
    Seq<char>,
    Seq<char>,
> {
    let (out, patched) = patch_scan(pkl, id, hash, decimal(size as nat));
    if patched {
        Ok(out)
    } else {
        Err("the packing list lists no asset "@ + id)
    }
}

fn patch_rest(rest: &[char], id: &[char], hash: &str, size: &str) -> (r: (Vec<char>, bool))
    ensures
        (r.0@, r.1) == patch_scan(rest@, id@, hash@, size@),
    decreases rest@.len(),
{
    let open = chars_of("<Asset>");
    let close = chars_of("</Asset>");
    proof {
        reveal_strlit("<Asset>");
        reveal_strlit("</Asset>");
    }
    let start = match find_chars(rest, &open) {
        None => return (slice(rest, 0, rest.len()), false),
        Some(s) => s,
    };
    proof {
        lemma_found(rest@, open@);
    }
    let from_start = slice(rest, start, rest.len());
    assert(from_start@ =~= rest@.skip(start as int));
    let end = match find_chars(&from_start, &close) {
        Some(at) => {
            proof {
                lemma_found(from_start@, close@);
            }
            start + at + 8
        },
        None => rest.len(),
    };
    let block = slice(rest, start, end);
    let hit = contains_chars(&block, id);
    let after = slice(rest, end, rest.len());
    assert(after@ =~= rest@.skip(end as int));
    let (tail, patched) = patch_rest(&after, id, hash, size);
    let mut out = slice(rest, 0, start);
    if hit {
        let with_hash = replace_element(&block, "Hash", hash);
        push_all(&mut out, &replace_element(&with_hash, "Size", size));
    } else {
        push_all(&mut out, &block);
    }
    push_all(&mut out, &tail);
    assert(rest@.subrange(0, start as int) =~= rest@.take(start as int));
    (out, hit || patched)
}

/// Set the hash and size a packing list records for asset `asset_id` (in
/// every asset block that names it), as after the file was rewritten.
pub fn patch_pkl_asset(pkl: &str, asset_id: &str, hash: &str, size: u64) -> (r: Result<String, String>)
    ensures
        match patched_pkl_spec(pkl@, asset_id@, hash@, size) {
            Ok(t) => r matches Ok(v) && v@ == t,
            Err(m) => r matches Err(e) && e@ == m,
        },
{
    let size_text = string_of(&decimal_chars(size));
    let (out, patched) = patch_rest(&chars_of(pkl), &chars_of(asset_id), hash, size_text.as_str());
    if patched {
        Ok(string_of(&out))
    } else {
        let mut m = chars_of("the packing list lists no asset ");
        push_str(&mut m, asset_id);
        Err(string_of(&m))
    }
}

/// The soundfield group properties a track file's existing MCA label
/// sub-descriptor carries, each where it is set.
#[derive(Debug, Clone, Default)]
pub struct LabelFields {
    pub title: Option<String>,
    pub title_version: Option<String>,
    pub audio_content_kind: Option<String>,
    pub audio_element_kind: Option<String>,
}

/// The soundfield group properties an AS-02 MCA wrap writes.
#[derive(Debug, Clone)]
pub struct SoundfieldGroup {
    pub title: String,
    pub title_version: String,
    pub audio_content_kind: String,
    pub audio_element_kind: String,
}

pub const MCA_TITLE_VERSION: &'static str = "Original Version";

pub const MCA_AUDIO_CONTENT_KIND: &'static str = "PRM";

pub const MCA_AUDIO_ELEMENT_KIND: &'static str = "FCMP";

/// A property the existing labels carry, where they carry a non-empty one,
/// else the fallback.
pub open spec fn carried_spec(value: Option<Seq<char>>, fallback: Seq<char>) -> Seq<char> {
    match value {
        Some(v) => if v.len() > 0 {
            v
        } else {
            fallback
        },
        None => fallback,
    }
}

pub open spec fn field_view(o: Option<String>) -> Option<Seq<char>> {
    match o {
        Some(s) => Some(s@),
        None => None,
    }
}

fn carried(value: &Option<String>, fallback: &str) -> (r: String)
    ensures
        r@ == carried_spec(field_view(*value), fallback@),
{
    match value {
        Some(v) => {
            let c = chars_of(v.as_str());
            if c.len() > 0 {
                string_of(&c)
            } else {
                string_of(&chars_of(fallback))
            }
        },
        None => string_of(&chars_of(fallback)),
    }
}

/// What a rewrap keeps of a track file's soundfield group: each property the
/// existing labels carry, the rest from the defaults, and for the title the
/// composition's title (`title_fallback`).
pub fn soundfield_group(existing: Option<&LabelFields>, title_fallback: &str) -> (r: SoundfieldGroup)
    ensures
        match existing {
            Some(l) => {
                &&& r.title@ == carried_spec(field_view(l.title), title_fallback@)
                &&& r.title_version@ == carried_spec(field_view(l.title_version), MCA_TITLE_VERSION@)
                &&& r.audio_content_kind@ == carried_spec(
                    field_view(l.audio_content_kind),
                    MCA_AUDIO_CONTENT_KIND@,
                )
                &&& r.audio_element_kind@ == carried_spec(
                    field_view(l.audio_element_kind),
                    MCA_AUDIO_ELEMENT_KIND@,
                )
            },
            None => {
                &&& r.title@ == title_fallback@
                &&& r.title_version@ == MCA_TITLE_VERSION@
                &&& r.audio_content_kind@ == MCA_AUDIO_CONTENT_KIND@
                &&& r.audio_element_kind@ == MCA_AUDIO_ELEMENT_KIND@
            },
        },
{
    match existing {
        Some(l) => SoundfieldGroup {
            title: carried(&l.title, title_fallback),
            title_version: carried(&l.title_version, MCA_TITLE_VERSION),
            audio_content_kind: carried(&l.audio_content_kind, MCA_AUDIO_CONTENT_KIND),
            audio_element_kind: carried(&l.audio_element_kind, MCA_AUDIO_ELEMENT_KIND),
        },
        None => SoundfieldGroup {
            title: string_of(&chars_of(title_fallback)),
            title_version: string_of(&chars_of(MCA_TITLE_VERSION)),
            audio_content_kind: string_of(&chars_of(MCA_AUDIO_CONTENT_KIND)),
            audio_element_kind: string_of(&chars_of(MCA_AUDIO_ELEMENT_KIND)),
        },
    }
}

/// The first non-empty title among the package's CPL titles, else the
/// fallback.
pub open spec fn first_title(titles: Seq<Seq<char>>, fallback: Seq<char>) -> Seq<char>
    decreases titles.len(),
{
    if titles.len() == 0 {
        fallback
    } else if titles[0].len() > 0 {
        titles[0]
    } else {
        first_title(titles.drop_first(), fallback)
    }
}

/// The title a sound track file's soundfield group takes: the first non-empty
/// title of its package's CPLs, or `fallback` where none has one.
pub fn composition_title(cpl_titles: &Vec<String>, fallback: &str) -> (r: String)
    ensures
        r@ == first_title(crate::text::string_views(cpl_titles@), fallback@),
{
    let ghost ts = crate::text::string_views(cpl_titles@);
    assert(ts.skip(0) =~= ts);
    let mut i: usize = 0;
    while i < cpl_titles.len()
        invariant
            i <= cpl_titles.len(),
            ts == crate::text::string_views(cpl_titles@),
            first_title(ts, fallback@) == first_title(ts.skip(i as int), fallback@),
        decreases cpl_titles.len() - i,
    {
        let t = chars_of(cpl_titles[i].as_str());
        proof {
            assert(ts.skip(i as int)[0] == ts[i as int]);
            assert(ts.skip(i as int).drop_first() =~= ts.skip(i + 1));
        }
        if t.len() > 0 {
            return string_of(&t);
        }
        i += 1;
    }
    assert(ts.skip(cpl_titles.len() as int).len() == 0);
    string_of(&chars_of(fallback))
}

/// The id a CPL file's stem names: what follows `CPL_`.
pub open spec fn cpl_id_spec(stem: Seq<char>) -> Option<Seq<char>> {
    if starts_with(stem, "CPL_"@) {
        Some(stem.skip(4))
    } else {
        None
    }
}

/// The id a CPL file's stem (its name without the extension) names.
pub fn cpl_id(stem: &str) -> (r: Option<String>)
    ensures
        match cpl_id_spec(stem@) {
            Some(id) => r matches Some(s) && s@ == id,
            None => r is None,
        },
{
    let c = chars_of(stem);
    if starts_with_str(&c, "CPL_") {
        proof {
            reveal_strlit("CPL_");
        }
        Some(string_of(&slice(&c, 4, c.len())))
    } else {
        None
    }
}


/// How many times `c` occurs in `s`.
pub open spec fn count_char(s: Seq<char>, c: char) -> nat
    decreases s.len(),
{
    if s.len() == 0 {
        0
    } else {
        count_char(s.drop_last(), c) + if s.last() == c {
            1nat
        } else {
            0nat
        }
    }
}

/// Every layout lists one label per channel of the track file (its labels
/// separated by commas), and every surround layout opens its channel list
/// in SMPTE order, left, right, centre, then LFE, each surround pair left
/// before right: 5.1 is `51(L,R,C,LFE,Ls,Rs)`.
pub proof fn law_layout_labels_in_smpte_order(i: int)
    requires
        0 <= i < layouts().len(),
    ensures
        count_char(layouts()[i].2, ',') + 1 == layouts()[i].1,
        layouts()[i].1 > 2 ==> starts_with(layouts()[i].2, layouts()[i].0 + "(L,R,C,LFE,"@),
        layouts()[i].1 == 6 ==> layouts()[i].2 == layouts()[i].0 + "(L,R,C,LFE,Ls,Rs)"@,
        layouts()[i].1 == 8 ==> layouts()[i].2 == layouts()[i].0
            + "(L,R,C,LFE,Lss,Rss,Lrs,Rrs)"@,
        layouts()[i].1 == 2 ==> layouts()[i].2 == "ST(L,R)"@,
{
    reveal_strlit("mono");
    reveal_strlit("10");
    reveal_strlit("stereo");
    reveal_strlit("20");
    reveal_strlit("51");
    reveal_strlit("71");
    reveal_strlit("DNS(NSC001)");
    reveal_strlit("ST(L,R)");
    reveal_strlit("51(L,R,C,LFE,Ls,Rs)");
    reveal_strlit("71(L,R,C,LFE,Lss,Rss,Lrs,Rrs)");
    reveal_strlit("(L,R,C,LFE,");
    reveal_strlit("(L,R,C,LFE,Ls,Rs)");
    reveal_strlit("(L,R,C,LFE,Lss,Rss,Lrs,Rrs)");
    reveal_with_fuel(count_char, 32);
    let l = layouts()[i];
    if l.1 > 2 {
        assert(l.2.take((l.0 + "(L,R,C,LFE,"@).len() as int) =~= l.0 + "(L,R,C,LFE,"@);
    }
    if l.1 == 6 {
        assert(l.2 =~= l.0 + "(L,R,C,LFE,Ls,Rs)"@);
    }
    if l.1 == 8 {
        assert(l.2 =~= l.0 + "(L,R,C,LFE,Lss,Rss,Lrs,Rrs)"@);
    }
}

} // verus!
