//! Styled cues (from ASS, FCPXML, MKS sources) written as IMSC-flavoured
//! TTML, keeping per-run styling and one `<region>` per distinct placement.
//!
//! A run's text arrives escaped for XML, and a cue's vertical position
//! arrives spelled as its percentage to one decimal.
use vstd::prelude::*;
use crate::subtitle_convert::{format_ttml_time, ttml_time};
use crate::text::{chars_of, decimal, decimal_chars, eq, join, join_chars, push_all, push_str, string_of, views};

verus! {

/// Horizontal alignment of a cue.
#[derive(Debug, Clone, Copy, PartialEq, Eq, Structural)]
pub enum HAlign {
    Left,
    Center,
    Right,
}

/// Vertical alignment of a cue.
#[derive(Debug, Clone, Copy, PartialEq, Eq, Structural)]
pub enum VAlign {
    Top,
    Middle,
    Bottom,
}

/// A run of text with one styling; `text` is escaped for XML and may hold
/// line breaks; `color` is red, green, blue, alpha.
#[derive(Debug, Clone)]
pub struct StyledRun {
    pub text: String,
    pub italic: bool,
    pub bold: bool,
    pub underline: bool,
    pub color: Option<(u8, u8, u8, u8)>,
}

/// A cue with styled runs and its placement; `vposition` is the vertical
/// position in percent, spelled to one decimal.
#[derive(Debug, Clone)]
pub struct StyledCue {
    pub start_ms: u64,
    pub end_ms: u64,
    pub runs: Vec<StyledRun>,
    pub align: Option<HAlign>,
    pub valign: Option<VAlign>,
    pub vposition: Option<String>,
}

/// The region attributes of a cue's placement: an explicit vertical position
/// is a band anchored there; otherwise the vertical alignment picks the
/// display alignment of a full-frame region.
pub open spec fn region_attrs_spec(c: StyledCue) -> Seq<char> {
    let text_align = match c.align {
        Some(HAlign::Left) => "start"@,
        Some(HAlign::Right) => "end"@,
        _ => "center"@,
    };
    match c.vposition {
        Some(vp) => "tts:origin=\"10% "@ + vp@ + "%\" tts:extent=\"80% 15%\" tts:textAlign=\""@
            + text_align + "\" tts:displayAlign=\"before\""@,
        None => {
            let display_align = match c.valign {
                Some(VAlign::Top) => "before"@,
                Some(VAlign::Middle) => "center"@,
                _ => "after"@,
            };
            "tts:origin=\"10% 10%\" tts:extent=\"80% 80%\" tts:textAlign=\""@ + text_align
                + "\" tts:displayAlign=\""@ + display_align + "\""@
        },
    }
}

pub fn region_attrs(c: &StyledCue) -> (r: Vec<char>)
    ensures
        r@ == region_attrs_spec(*c),
{
    let text_align = match c.align {
        Some(HAlign::Left) => "start",
        Some(HAlign::Right) => "end",
        _ => "center",
    };
    match &c.vposition {
        Some(vp) => {
            let mut m = chars_of("tts:origin=\"10% ");
            push_str(&mut m, vp.as_str());
            push_str(&mut m, "%\" tts:extent=\"80% 15%\" tts:textAlign=\"");
            push_str(&mut m, text_align);
            push_str(&mut m, "\" tts:displayAlign=\"before\"");
            m
        },
        None => {
            let display_align = match c.valign {
                Some(VAlign::Top) => "before",
                Some(VAlign::Middle) => "center",
                _ => "after",
            };
            let mut m = chars_of("tts:origin=\"10% 10%\" tts:extent=\"80% 80%\" tts:textAlign=\"");
            push_str(&mut m, text_align);
            push_str(&mut m, "\" tts:displayAlign=\"");
            push_str(&mut m, display_align);
            push_str(&mut m, "\"");
            m
        },
    }
}

/// `s` with each line break written as `<br/>`.
pub open spec fn with_breaks(s: Seq<char>) -> Seq<char>
    decreases s.len(),
{
    if s.len() == 0 {
        Seq::empty()
    } else {
        with_breaks(s.drop_last()) + if s.last() == '\n' {
            "<br/>"@
        } else {
            seq![s.last()]
        }
    }
}

/// An upper-case hex digit.
pub open spec fn hex_digit_char(d: nat) -> char {
    if d < 10 {
        ((d + 48) as u32) as char
    } else {
        ((d + 55) as u32) as char
    }
}

/// A byte as two upper-case hex digits, as `{:02X}`.
pub open spec fn hex2(b: u8) -> Seq<char> {
    seq![hex_digit_char((b / 16) as nat), hex_digit_char((b % 16) as nat)]
}

/// The style attributes of a run, in the order italic, bold, underline,
/// colour.
pub open spec fn run_styles(r: StyledRun) -> Seq<Seq<char>> {
    let a = if r.italic {
        seq!["tts:fontStyle=\"italic\""@]
    } else {
        Seq::empty()
    };
    let b = if r.bold {
        seq!["tts:fontWeight=\"bold\""@]
    } else {
        Seq::empty()
    };
    let u = if r.underline {
        seq!["tts:textDecoration=\"underline\""@]
    } else {
        Seq::empty()
    };
    let c = match r.color {
        Some((red, green, blue, alpha)) => seq![
            "tts:color=\"#"@ + hex2(red) + hex2(green) + hex2(blue) + hex2(alpha) + "\""@,
        ],
        None => Seq::empty(),
    };
    a + b + u + c
}

/// A run as TTML: its text, in a `<span>` carrying its styles where it has
/// any.
pub open spec fn run_spec(r: StyledRun) -> Seq<char> {
    let text = with_breaks(r.text@);
    let styles = run_styles(r);
    if styles.len() == 0 {
        text
    } else {
        "<span "@ + join(styles, " "@) + ">"@ + text + "</span>"@
    }
}

pub open spec fn runs_spec(runs: Seq<StyledRun>) -> Seq<char>
    decreases runs.len(),
{
    if runs.len() == 0 {
        Seq::empty()
    } else {
        runs_spec(runs.drop_last()) + run_spec(runs.last())
    }
}

fn hex_digit(d: u8) -> (c: char)
    requires
        d < 16,
    ensures
        c == hex_digit_char(d as nat),
{
    if d < 10 {
        (d + 48) as char
    } else {
        (d + 55) as char
    }
}

fn push_hex2(out: &mut Vec<char>, b: u8)
    ensures
        final(out)@ == old(out)@ + hex2(b),
{
    out.push(hex_digit(b / 16));
    out.push(hex_digit(b % 16));
}

fn breaks_of(s: &str) -> (r: Vec<char>)
    ensures
        r@ == with_breaks(s@),
{
    let cs = chars_of(s);
    let mut out: Vec<char> = Vec::new();
    let mut i: usize = 0;
    while i < cs.len()
        invariant
            i <= cs.len(),
            cs@ == s@,
            out@ == with_breaks(cs@.take(i as int)),
        decreases cs.len() - i,
    {
        if cs[i] == '\n' {
            push_str(&mut out, "<br/>");
        } else {
            out.push(cs[i]);
        }
        proof {
            assert(cs@.take(i + 1).drop_last() == cs@.take(i as int));
            assert(cs@.take(i + 1).last() == cs@[i as int]);
        }
        i += 1;
    }
    assert(cs@.take(cs.len() as int) == cs@);
    out
}

fn render_run(r: &StyledRun) -> (out: Vec<char>)
    ensures
        out@ == run_spec(*r),
{
    let text = breaks_of(r.text.as_str());
    let mut styles: Vec<Vec<char>> = Vec::new();
    let ghost want = run_styles(*r);
    if r.italic {
        styles.push(chars_of("tts:fontStyle=\"italic\""));
    }
    if r.bold {
        styles.push(chars_of("tts:fontWeight=\"bold\""));
    }
    if r.underline {
        styles.push(chars_of("tts:textDecoration=\"underline\""));
    }
    match r.color {
        Some((red, green, blue, alpha)) => {
            let mut c = chars_of("tts:color=\"#");
            push_hex2(&mut c, red);
            push_hex2(&mut c, green);
            push_hex2(&mut c, blue);
            push_hex2(&mut c, alpha);
            push_str(&mut c, "\"");
            styles.push(c);
        },
        None => {},
    }
    assert(views(styles@) =~= want);
    if styles.len() == 0 {
        text
    } else {
        let mut out = chars_of("<span ");
        push_all(&mut out, &join_chars(&styles, &chars_of(" ")));
        push_str(&mut out, ">");
        push_all(&mut out, &text);
        push_str(&mut out, "</span>");
        out
    }
}

/// A cue's runs as TTML.
pub fn render_runs(runs: &Vec<StyledRun>) -> (r: Vec<char>)
    ensures
        r@ == runs_spec(runs@),
{
    let mut out: Vec<char> = Vec::new();
    let mut i: usize = 0;
    while i < runs.len()
        invariant
            i <= runs.len(),
            out@ == runs_spec(runs@.take(i as int)),
        decreases runs.len() - i,
    {
        push_all(&mut out, &render_run(&runs[i]));
        proof {
            assert(runs@.take(i + 1).drop_last() =~= runs@.take(i as int));
            assert(runs@.take(i + 1).last() == runs@[i as int]);
        }
        i += 1;
    }
    assert(runs@.take(runs.len() as int) =~= runs@);
    out
}

/// The distinct placements of the first `n` cues, in first-seen order.
pub open spec fn regions_of(cues: Seq<StyledCue>, n: int) -> Seq<Seq<char>>
    decreases n,
{
    if n <= 0 {
        Seq::empty()
    } else {
        let rs = regions_of(cues, n - 1);
        let a = region_attrs_spec(cues[n - 1]);
        if rs.contains(a) {
            rs
        } else {
            rs.push(a)
        }
    }
}

/// The first place `x` holds in `s`.
pub open spec fn first_index(s: Seq<Seq<char>>, x: Seq<char>, from: int) -> int
    decreases s.len() - from,
{
    if from < 0 || from >= s.len() {
        s.len() as int
    } else if s[from] == x {
        from
    } else {
        first_index(s, x, from + 1)
    }
}

pub open spec fn region_lines(regions: Seq<Seq<char>>) -> Seq<char>
    decreases regions.len(),
{
    if regions.len() == 0 {
        Seq::empty()
    } else {
        region_lines(regions.drop_last()) + "      <region xml:id=\"r"@ + decimal(
            (regions.len() - 1) as nat,
        ) + "\" "@ + regions.last() + "/>\n"@
    }
}

/// The `<p>` lines of the first `n` cues, each naming its placement's region.
pub open spec fn styled_cue_lines(cues: Seq<StyledCue>, regions: Seq<Seq<char>>, n: int) -> Seq<char>
    decreases n,
{
    if n <= 0 {
        Seq::empty()
    } else {
        let c = cues[n - 1];
        styled_cue_lines(cues, regions, n - 1) + cue_line(
            c,
            first_index(regions, region_attrs_spec(c), 0) as nat,
        )
    }
}

/// The `<p>` line of one cue placed in the region numbered `region`.
pub open spec fn cue_line(c: StyledCue, region: nat) -> Seq<char> {
    "      <p begin=\""@ + ttml_time(c.start_ms as nat) + "\" end=\""@ + ttml_time(c.end_ms as nat)
        + "\" region=\"r"@ + decimal(region) + "\">"@ + runs_spec(c.runs@) + "</p>\n"@
}

fn push_cue_line(out: &mut Vec<char>, cue: &StyledCue, region: usize)
    ensures
        final(out)@ == old(out)@ + cue_line(*cue, region as nat),
{
    let ghost o0 = old(out)@;
    push_str(out, "      <p begin=\"");
    push_str(out, format_ttml_time(cue.start_ms).as_str());
    push_str(out, "\" end=\"");
    push_str(out, format_ttml_time(cue.end_ms).as_str());
    push_str(out, "\" region=\"r");
    push_all(out, &decimal_chars(region as u64));
    push_str(out, "\">");
    push_all(out, &render_runs(&cue.runs));
    push_str(out, "</p>\n");
    assert(out@ =~= o0 + cue_line(*cue, region as nat));
}

pub open spec fn styled_head() -> Seq<char> {
    "<?xml version=\"1.0\" encoding=\"UTF-8\"?>\n<tt xmlns=\"http://www.w3.org/ns/ttml\" xmlns:tts=\"http://www.w3.org/ns/ttml#styling\" xmlns:ttp=\"http://www.w3.org/ns/ttml#parameter\">\n  <head>\n    <layout>\n"@
}

pub open spec fn styled_middle() -> Seq<char> {
    "    </layout>\n  </head>\n  <body>\n    <div>\n"@
}

pub open spec fn styled_tail() -> Seq<char> {
    "    </div>\n  </body>\n</tt>\n"@
}

/// The styled TTML document of `cues`.
pub open spec fn styled_document_spec(cues: Seq<StyledCue>) -> Seq<char> {
    let regions = regions_of(cues, cues.len() as int);
    styled_head() + region_lines(regions) + styled_middle() + styled_cue_lines(
        cues,
        regions,
        cues.len() as int,
    ) + styled_tail()
}

/// A styled document holds one region per distinct placement: no two
/// regions are alike, each cue's placement is among them, and each region is
/// the placement of some cue.
pub proof fn law_one_region_per_placement(cues: Seq<StyledCue>)
    ensures
        regions_of(cues, cues.len() as int).no_duplicates(),
        forall|k: int| 0 <= k < cues.len() ==> regions_of(cues, cues.len() as int).contains(
            #[trigger] region_attrs_spec(cues[k]),
        ),
        forall|r: int| #![trigger regions_of(cues, cues.len() as int)[r]]
            0 <= r < regions_of(cues, cues.len() as int).len() ==> exists|k: int|
            0 <= k < cues.len() && #[trigger] region_attrs_spec(cues[k]) == regions_of(
                cues,
                cues.len() as int,
            )[r],
{
    lemma_regions_distinct(cues, cues.len() as int);
    assert forall|k: int| 0 <= k < cues.len() implies regions_of(cues, cues.len() as int).contains(
        #[trigger] region_attrs_spec(cues[k]),
    ) by {
        lemma_regions_hold(cues, cues.len() as int, k);
    }
}

proof fn lemma_regions_distinct(cues: Seq<StyledCue>, n: int)
    requires
        0 <= n <= cues.len(),
    ensures
        regions_of(cues, n).no_duplicates(),
        forall|r: int| #![trigger regions_of(cues, n)[r]] 0 <= r < regions_of(cues, n).len() ==> exists|k: int|
            0 <= k < n && #[trigger] region_attrs_spec(cues[k]) == regions_of(cues, n)[r],
    decreases n,
{
    if n > 0 {
        lemma_regions_distinct(cues, n - 1);
        let rs = regions_of(cues, n - 1);
        let a = region_attrs_spec(cues[n - 1]);
        if !rs.contains(a) {
            let t = rs.push(a);
            assert(t == regions_of(cues, n));
            assert forall|i: int, j: int| 0 <= i < t.len() && 0 <= j < t.len() && i != j implies t[i]
                != t[j] by {
                if i < rs.len() && j < rs.len() {
                    assert(t[i] == rs[i] && t[j] == rs[j]);
                } else if i < rs.len() {
                    assert(t[i] == rs[i]);
                } else {
                    assert(t[j] == rs[j]);
                }
            }
            assert forall|r: int| #![trigger t[r]] 0 <= r < t.len() implies exists|k: int|
                0 <= k < n && #[trigger] region_attrs_spec(cues[k]) == t[r] by {
                if r < rs.len() {
                    assert(t[r] == rs[r]);
                    let k = choose|k: int| 0 <= k < n - 1 && #[trigger] region_attrs_spec(cues[k]) == rs[r];
                    assert(region_attrs_spec(cues[k]) == t[r]);
                } else {
                    assert(region_attrs_spec(cues[n - 1]) == t[r]);
                }
            }
        } else {
            assert forall|r: int| #![trigger rs[r]] 0 <= r < rs.len() implies exists|k: int|
                0 <= k < n && #[trigger] region_attrs_spec(cues[k]) == rs[r] by {
                let k = choose|k: int| 0 <= k < n - 1 && #[trigger] region_attrs_spec(cues[k]) == rs[r];
                assert(region_attrs_spec(cues[k]) == rs[r]);
            }
        }
    }
}

proof fn lemma_first_index(s: Seq<Seq<char>>, x: Seq<char>, from: int)
    requires
        0 <= from <= s.len(),
    ensures
        from <= first_index(s, x, from) <= s.len(),
        first_index(s, x, from) < s.len() ==> s[first_index(s, x, from)] == x,
        (exists|k: int| from <= k < s.len() && s[k] == x) ==> first_index(s, x, from) < s.len(),
    decreases s.len() - from,
{
    if from < s.len() && s[from] != x {
        lemma_first_index(s, x, from + 1);
    }
}

proof fn lemma_first_index_push(s: Seq<Seq<char>>, y: Seq<char>, x: Seq<char>)
    requires
        s.contains(x),
    ensures
        first_index(s.push(y), x, 0) == first_index(s, x, 0),
{
    lemma_first_index_from(s, y, x, 0);
}

proof fn lemma_first_index_from(s: Seq<Seq<char>>, y: Seq<char>, x: Seq<char>, from: int)
    requires
        0 <= from <= s.len(),
        exists|k: int| from <= k < s.len() && s[k] == x,
    ensures
        first_index(s.push(y), x, from) == first_index(s, x, from),
    decreases s.len() - from,
{
    if s[from] != x {
        let k = choose|k: int| from <= k < s.len() && s[k] == x;
        assert(k != from);
        lemma_first_index_from(s, y, x, from + 1);
    }
}

proof fn lemma_regions_hold(cues: Seq<StyledCue>, n: int, k: int)
    requires
        0 <= k < n <= cues.len(),
    ensures
        regions_of(cues, n).contains(region_attrs_spec(cues[k])),
    decreases n,
{
    let rs = regions_of(cues, n - 1);
    if k < n - 1 {
        lemma_regions_hold(cues, n - 1, k);
        let w = choose|w: int| 0 <= w < rs.len() && rs[w] == region_attrs_spec(cues[k]);
        if !rs.contains(region_attrs_spec(cues[n - 1])) {
            assert(rs.push(region_attrs_spec(cues[n - 1]))[w] == rs[w]);
        }
    } else {
        if !rs.contains(region_attrs_spec(cues[n - 1])) {
            assert(rs.push(region_attrs_spec(cues[n - 1]))[rs.len() as int] == region_attrs_spec(
                cues[n - 1],
            ));
        }
    }
}

proof fn lemma_regions_grow(cues: Seq<StyledCue>, n: int, m: int)
    requires
        0 <= n <= m <= cues.len(),
    ensures
        regions_of(cues, n).len() <= regions_of(cues, m).len(),
        forall|k: int| 0 <= k < regions_of(cues, n).len() ==> #[trigger] regions_of(cues, m)[k]
            == regions_of(cues, n)[k],
    decreases m - n,
{
    if n < m {
        lemma_regions_grow(cues, n, m - 1);
    }
}

/// Write styled cues as IMSC-flavoured TTML.
pub fn styled_ttml_document(cues: &Vec<StyledCue>) -> (r: String)
    ensures
        r@ == styled_document_spec(cues@),
{
    let mut regions: Vec<Vec<char>> = Vec::new();
    let mut cue_region: Vec<usize> = Vec::new();
    let mut i: usize = 0;
    while i < cues.len()
        invariant
            i <= cues@.len(),
            views(regions@) == regions_of(cues@, i as int),
            cue_region@.len() == i,
            forall|k: int| 0 <= k < i ==> #[trigger] cue_region@[k] == first_index(
                regions_of(cues@, i as int),
                region_attrs_spec(cues@[k]),
                0,
            ),
            forall|k: int| 0 <= k < i ==> #[trigger] cue_region@[k] < regions_of(cues@, i as int).len(),
        decreases cues.len() - i,
    {
        let a = region_attrs(&cues[i]);
        let ghost before = views(regions@);
        let mut j: usize = 0;
        let mut found: Option<usize> = None;
        while j < regions.len()
            invariant
                j <= regions@.len(),
                before == views(regions@),
                a@ == region_attrs_spec(cues@[i as int]),
                found is None ==> forall|q: int| 0 <= q < j ==> #[trigger] before[q] != a@,
                found matches Some(f) ==> f < before.len() && before[f as int] == a@ && forall|q: int|
                    0 <= q < f ==> #[trigger] before[q] != a@,
            decreases regions.len() - j,
        {
            if found.is_none() && eq(&regions[j], &a) {
                found = Some(j);
            }
            j += 1;
        }
        proof {
            lemma_first_index(before, a@, 0);
        }
        let idx = match found {
            Some(f) => {
                proof {
                    assert(before.contains(a@));
                    assert(regions_of(cues@, i + 1) == before);
                    lemma_first_index_unique(before, a@, f as int);
                }
                f
            },
            None => {
                let n = regions.len();
                proof {
                    assert(!before.contains(a@));
                }
                regions.push(a);
                proof {
                    assert(views(regions@) =~= before.push(a@));
                    assert forall|k: int| 0 <= k < i implies #[trigger] cue_region@[k] == first_index(
                        views(regions@),
                        region_attrs_spec(cues@[k]),
                        0,
                    ) by {
                        lemma_regions_hold(cues@, i as int, k);
                        lemma_first_index_push(before, a@, region_attrs_spec(cues@[k]));
                    }
                    lemma_first_index_unique(views(regions@), a@, n as int);
                }
                n
            },
        };
        cue_region.push(idx);
        i += 1;
    }
    let mut out = chars_of(
        "<?xml version=\"1.0\" encoding=\"UTF-8\"?>\n<tt xmlns=\"http://www.w3.org/ns/ttml\" xmlns:tts=\"http://www.w3.org/ns/ttml#styling\" xmlns:ttp=\"http://www.w3.org/ns/ttml#parameter\">\n  <head>\n    <layout>\n",
    );
    let ghost rv = views(regions@);
    let mut k: usize = 0;
    while k < regions.len()
        invariant
            k <= regions@.len(),
            rv == views(regions@),
            out@ == styled_head() + region_lines(rv.take(k as int)),
        decreases regions.len() - k,
    {
        let ghost o0 = out@;
        push_str(&mut out, "      <region xml:id=\"r");
        push_all(&mut out, &decimal_chars(k as u64));
        push_str(&mut out, "\" ");
        push_all(&mut out, &regions[k]);
        push_str(&mut out, "/>\n");
        proof {
            assert(rv.take(k + 1).drop_last() =~= rv.take(k as int));
            assert(rv.take(k + 1).last() == rv[k as int]);
            assert(rv[k as int] == regions@[k as int]@);
        }
        k += 1;
    }
    assert(rv.take(regions.len() as int) =~= rv);
    push_str(&mut out, "    </layout>\n  </head>\n  <body>\n    <div>\n");
    let ghost head = out@;
    let mut c: usize = 0;
    while c < cues.len()
        invariant
            c <= cues@.len(),
            cue_region@.len() == cues@.len(),
            rv == regions_of(cues@, cues@.len() as int),
            forall|q: int| 0 <= q < cues@.len() ==> #[trigger] cue_region@[q] == first_index(
                rv,
                region_attrs_spec(cues@[q]),
                0,
            ),
            out@ == head + styled_cue_lines(cues@, rv, c as int),
        decreases cues.len() - c,
    {
        push_cue_line(&mut out, &cues[c], cue_region[c]);
        proof {
            assert(cue_region@[c as int] == first_index(rv, region_attrs_spec(cues@[c as int]), 0));
        }
        c += 1;
    }
    push_str(&mut out, "    </div>\n  </body>\n</tt>\n");
    string_of(&out)
}

proof fn lemma_first_index_unique(s: Seq<Seq<char>>, x: Seq<char>, f: int)
    requires
        0 <= f < s.len(),
        s[f] == x,
        forall|q: int| 0 <= q < f ==> #[trigger] s[q] != x,
    ensures
        first_index(s, x, 0) == f,
{
    lemma_first_index_at(s, x, 0, f);
}

proof fn lemma_first_index_at(s: Seq<Seq<char>>, x: Seq<char>, from: int, f: int)
    requires
        0 <= from <= f < s.len(),
        s[f] == x,
        forall|q: int| from <= q < f ==> #[trigger] s[q] != x,
    ensures
        first_index(s, x, from) == f,
    decreases f - from,
{
    if from < f {
        lemma_first_index_at(s, x, from + 1, f);
    }
}

} // verus!
