//! Subtitle conversion to IMSC/TTML: the formats, the plan a conversion
//! follows and the plain TTML document the text-only path writes.
use vstd::prelude::*;
use crate::text::{
    all_ascii, ascii_lower, chars_of, decimal, eq_str, is_ascii_upper, lower_char, lowercase_chars,
    padded_decimal, push_all, push_str, string_of, unicode_lower, zero_pad,
};

verus! {

/// One timed caption: its 1-based index, its span in milliseconds and its text.
#[derive(Debug, Clone, PartialEq, Eq)]
pub struct SrtCue {
    pub index: u32,
    pub start_ms: u64,
    pub end_ms: u64,
    pub text: String,
}

/// Subtitle format.
#[derive(Debug, Clone, Copy, PartialEq, Eq, Structural)]
pub enum SubtitleFormat {
    Srt,
    Vtt,
    Stl,
    Scc,
    Ttml,
    ImscTtml,
    Ass,
    Fcpxml,
    Mks,
}

pub open spec fn extension_spec(f: SubtitleFormat) -> Seq<char> {
    match f {
        SubtitleFormat::Srt => "srt"@,
        SubtitleFormat::Vtt => "vtt"@,
        SubtitleFormat::Stl => "stl"@,
        SubtitleFormat::Scc => "scc"@,
        SubtitleFormat::Ttml | SubtitleFormat::ImscTtml => "ttml"@,
        SubtitleFormat::Ass => "ass"@,
        SubtitleFormat::Fcpxml => "fcpxml"@,
        SubtitleFormat::Mks => "mks"@,
    }
}

/// The format a lower-cased file extension names.
pub open spec fn format_named(l: Seq<char>) -> Option<SubtitleFormat> {
    if l == "srt"@ {
        Some(SubtitleFormat::Srt)
    } else if l == "vtt"@ || l == "webvtt"@ {
        Some(SubtitleFormat::Vtt)
    } else if l == "stl"@ {
        Some(SubtitleFormat::Stl)
    } else if l == "scc"@ {
        Some(SubtitleFormat::Scc)
    } else if l == "ttml"@ || l == "xml"@ {
        Some(SubtitleFormat::Ttml)
    } else if l == "ass"@ || l == "ssa"@ {
        Some(SubtitleFormat::Ass)
    } else if l == "fcpxml"@ {
        Some(SubtitleFormat::Fcpxml)
    } else if l == "mks"@ || l == "mkv"@ {
        Some(SubtitleFormat::Mks)
    } else {
        None
    }
}

impl SubtitleFormat {
    pub fn extension(&self) -> (r: &str)
        ensures
            r@ == extension_spec(*self),
    {
        match self {
            SubtitleFormat::Srt => "srt",
            SubtitleFormat::Vtt => "vtt",
            SubtitleFormat::Stl => "stl",
            SubtitleFormat::Scc => "scc",
            SubtitleFormat::Ttml | SubtitleFormat::ImscTtml => "ttml",
            SubtitleFormat::Ass => "ass",
            SubtitleFormat::Fcpxml => "fcpxml",
            SubtitleFormat::Mks => "mks",
        }
    }

    /// The format a file extension names, case-insensitively.
    pub fn from_extension(ext: &str) -> (r: Option<Self>)
        ensures
            r == format_named(unicode_lower(ext@)),
            all_ascii(ext@) ==> r == format_named(ascii_lower(ext@)),
    {
        let l = lowercase_chars(ext);
        if eq_str(&l, "srt") {
            Some(SubtitleFormat::Srt)
        } else if eq_str(&l, "vtt") || eq_str(&l, "webvtt") {
            Some(SubtitleFormat::Vtt)
        } else if eq_str(&l, "stl") {
            Some(SubtitleFormat::Stl)
        } else if eq_str(&l, "scc") {
            Some(SubtitleFormat::Scc)
        } else if eq_str(&l, "ttml") || eq_str(&l, "xml") {
            Some(SubtitleFormat::Ttml)
        } else if eq_str(&l, "ass") || eq_str(&l, "ssa") {
            Some(SubtitleFormat::Ass)
        } else if eq_str(&l, "fcpxml") {
            Some(SubtitleFormat::Fcpxml)
        } else if eq_str(&l, "mks") || eq_str(&l, "mkv") {
            Some(SubtitleFormat::Mks)
        } else {
            None
        }
    }
}

/// A format's extension reads back as that format (IMSC TTML as TTML, whose
/// extension it shares), and the case of an extension does not matter: an
/// ASCII extension names what its lower-cased spelling names.
pub proof fn law_extension_reads_back(f: SubtitleFormat, ext: Seq<char>)
    ensures
        all_ascii(extension_spec(f)),
        format_named(ascii_lower(extension_spec(f))) == Some(
            if f == SubtitleFormat::ImscTtml {
                SubtitleFormat::Ttml
            } else {
                f
            },
        ),
        all_ascii(ext) ==> all_ascii(ascii_lower(ext)),
        format_named(ascii_lower(ascii_lower(ext))) == format_named(ascii_lower(ext)),
{
    let e = extension_spec(f);
    reveal_strlit("srt");
    reveal_strlit("vtt");
    reveal_strlit("stl");
    reveal_strlit("scc");
    reveal_strlit("ttml");
    reveal_strlit("ass");
    reveal_strlit("fcpxml");
    reveal_strlit("mks");
    reveal_strlit("webvtt");
    reveal_strlit("xml");
    reveal_strlit("ssa");
    reveal_strlit("mkv");
    assert forall|i: int| 0 <= i < e.len() implies !is_ascii_upper(#[trigger] e[i]) && (e[i] as u32) < 128 by {}
    assert(ascii_lower(e) =~= e);
    assert(ascii_lower(ascii_lower(ext)) =~= ascii_lower(ext)) by {
        assert forall|i: int| 0 <= i < ext.len() implies lower_char(lower_char(#[trigger] ext[i])) == lower_char(ext[i]) by {
            let c = ext[i];
            if is_ascii_upper(c) {
                assert(((c as u32) + 32) as char as u32 == (c as u32) + 32);
            }
        }
    }
    if all_ascii(ext) {
        assert forall|i: int| 0 <= i < ascii_lower(ext).len() implies (#[trigger] ascii_lower(ext)[i] as u32) < 128 by {
            let c = ext[i];
            assert((c as u32) < 128);
            if is_ascii_upper(c) {
                assert(((c as u32) + 32) as char as u32 == (c as u32) + 32);
            }
        }
    }
    assert("srt"@[0] == 's' && "srt"@[1] == 'r' && "srt"@.len() == 3);
    assert("vtt"@[0] == 'v' && "vtt"@[1] == 't' && "vtt"@.len() == 3);
    assert("stl"@[0] == 's' && "stl"@[1] == 't' && "stl"@.len() == 3);
    assert("scc"@[0] == 's' && "scc"@[1] == 'c' && "scc"@.len() == 3);
    assert("ttml"@[0] == 't' && "ttml"@[1] == 't' && "ttml"@.len() == 4);
    assert("ass"@[0] == 'a' && "ass"@[1] == 's' && "ass"@.len() == 3);
    assert("fcpxml"@[0] == 'f' && "fcpxml"@[1] == 'c' && "fcpxml"@.len() == 6);
    assert("mks"@[0] == 'm' && "mks"@[1] == 'k' && "mks"@.len() == 3);
    assert("webvtt"@[0] == 'w' && "webvtt"@[1] == 'e' && "webvtt"@.len() == 6);
    assert("xml"@[0] == 'x' && "xml"@[1] == 'm' && "xml"@.len() == 3);
    assert("ssa"@[0] == 's' && "ssa"@[1] == 's' && "ssa"@.len() == 3);
    assert("mkv"@[0] == 'm' && "mkv"@[1] == 'k' && "mkv"@.len() == 3);
}

/// `HH:MM:SS.mmm` for a time in milliseconds (hours may run past two digits).
pub open spec fn ttml_time(ms: nat) -> Seq<char> {
    zero_pad(decimal(ms / 3600000), 2) + ":"@ + zero_pad(decimal((ms % 3600000) / 60000), 2)
        + ":"@ + zero_pad(decimal((ms % 60000) / 1000), 2) + "."@ + zero_pad(
        decimal(ms % 1000),
        3,
    )
}

/// The TTML clock time of `ms` milliseconds.
pub fn format_ttml_time(ms: u64) -> (r: String)
    ensures
        r@ == ttml_time(ms as nat),
{
    let mut out = padded_decimal(ms / 3_600_000, 2);
    push_str(&mut out, ":");
    push_all(&mut out, &padded_decimal((ms % 3_600_000) / 60_000, 2));
    push_str(&mut out, ":");
    push_all(&mut out, &padded_decimal((ms % 60_000) / 1000, 2));
    push_str(&mut out, ".");
    push_all(&mut out, &padded_decimal(ms % 1000, 3));
    string_of(&out)
}

/// One character escaped for XML text: `&`, `<` and `>` become entities.
pub open spec fn escape_char(c: char) -> Seq<char> {
    if c == '&' {
        "&amp;"@
    } else if c == '<' {
        "&lt;"@
    } else if c == '>' {
        "&gt;"@
    } else {
        seq![c]
    }
}

/// `s` escaped for XML text.
pub open spec fn escape_text(s: Seq<char>) -> Seq<char>
    decreases s.len(),
{
    if s.len() == 0 {
        Seq::empty()
    } else {
        escape_text(s.drop_last()) + escape_char(s.last())
    }
}

/// Escaped text holds no markup: no `<` or `>` is left in it.
pub proof fn law_escaped_text_holds_no_markup(s: Seq<char>)
    ensures
        forall|k: int| 0 <= k < escape_text(s).len() ==> #[trigger] escape_text(s)[k] != '<'
            && escape_text(s)[k] != '>',
    decreases s.len(),
{
    reveal_strlit("&amp;");
    reveal_strlit("&lt;");
    reveal_strlit("&gt;");
    if s.len() > 0 {
        let t = s.drop_last();
        law_escaped_text_holds_no_markup(t);
        let e = escape_char(s.last());
        assert(forall|k: int| 0 <= k < e.len() ==> e[k] != '<' && e[k] != '>');
        assert forall|k: int| 0 <= k < escape_text(s).len() implies #[trigger] escape_text(s)[k] != '<'
            && escape_text(s)[k] != '>' by {
            if k < escape_text(t).len() {
                assert(escape_text(s)[k] == escape_text(t)[k]);
            } else {
                assert(escape_text(s)[k] == e[k - escape_text(t).len()]);
            }
        }
    }
}

/// `s` escaped for XML text.
pub fn escape(s: &str) -> (r: Vec<char>)
    ensures
        r@ == escape_text(s@),
{
    let cs = chars_of(s);
    let mut out: Vec<char> = Vec::new();
    let mut i: usize = 0;
    while i < cs.len()
        invariant
            i <= cs.len(),
            cs@ == s@,
            out@ == escape_text(cs@.take(i as int)),
        decreases cs.len() - i,
    {
        let c = cs[i];
        if c == '&' {
            push_str(&mut out, "&amp;");
        } else if c == '<' {
            push_str(&mut out, "&lt;");
        } else if c == '>' {
            push_str(&mut out, "&gt;");
        } else {
            out.push(c);
        }
        proof {
            assert(cs@.take(i + 1).drop_last() == cs@.take(i as int));
            assert(cs@.take(i + 1).last() == c);
        }
        i += 1;
    }
    assert(cs@.take(cs.len() as int) == cs@);
    out
}

pub open spec fn ttml_head() -> Seq<char> {
    "<?xml version=\"1.0\" encoding=\"UTF-8\"?>\n<tt xmlns=\"http://www.w3.org/ns/ttml\" xmlns:ttp=\"http://www.w3.org/ns/ttml#parameter\">\n  <body>\n    <div>\n"@
}

pub open spec fn ttml_tail() -> Seq<char> {
    "    </div>\n  </body>\n</tt>\n"@
}

/// One `<p>` line of the plain TTML document.
pub open spec fn ttml_cue_line(c: SrtCue) -> Seq<char> {
    "      <p begin=\""@ + ttml_time(c.start_ms as nat) + "\" end=\""@ + ttml_time(
        c.end_ms as nat,
    ) + "\">"@ + escape_text(c.text@) + "</p>\n"@
}

pub open spec fn ttml_cue_lines(cues: Seq<SrtCue>) -> Seq<char>
    decreases cues.len(),
{
    if cues.len() == 0 {
        Seq::empty()
    } else {
        ttml_cue_lines(cues.drop_last()) + ttml_cue_line(cues.last())
    }
}

/// The plain TTML document for `cues`: text only, one `<p>` per cue.
pub open spec fn ttml_document_spec(cues: Seq<SrtCue>) -> Seq<char> {
    ttml_head() + ttml_cue_lines(cues) + ttml_tail()
}

fn cue_line(cue: &SrtCue) -> (r: Vec<char>)
    ensures
        r@ == ttml_cue_line(*cue),
{
    let mut out = chars_of("      <p begin=\"");
    push_str(&mut out, format_ttml_time(cue.start_ms).as_str());
    push_str(&mut out, "\" end=\"");
    push_str(&mut out, format_ttml_time(cue.end_ms).as_str());
    push_str(&mut out, "\">");
    push_all(&mut out, &escape(cue.text.as_str()));
    push_str(&mut out, "</p>\n");
    out
}

/// The plain TTML (IMF timed text) document for `cues`.
pub fn ttml_document(cues: &Vec<SrtCue>) -> (r: String)
    ensures
        r@ == ttml_document_spec(cues@),
{
    let mut out = chars_of(
        "<?xml version=\"1.0\" encoding=\"UTF-8\"?>\n<tt xmlns=\"http://www.w3.org/ns/ttml\" xmlns:ttp=\"http://www.w3.org/ns/ttml#parameter\">\n  <body>\n    <div>\n",
    );
    let mut i: usize = 0;
    while i < cues.len()
        invariant
            i <= cues.len(),
            out@ == ttml_head() + ttml_cue_lines(cues@.take(i as int)),
        decreases cues.len() - i,
    {
        let ghost before = out@;
        push_all(&mut out, &cue_line(&cues[i]));
        proof {
            assert(cues@.take(i + 1).drop_last() == cues@.take(i as int));
            assert(out@ =~= before + ttml_cue_line(cues@[i as int]));
        }
        i += 1;
    }
    assert(cues@.take(cues.len() as int) == cues@);
    push_str(&mut out, "    </div>\n  </body>\n</tt>\n");
    string_of(&out)
}

/// What a conversion does with its source.
#[derive(Debug, Clone, Copy, PartialEq, Eq, Structural)]
pub enum ConversionPlan {
    /// Authored TTML to a TTML target: copied byte for byte.
    CopyAuthored,
    /// ASS, FCPXML or MKS: styled cues, kept styled for a TTML target and
    /// flattened to text otherwise.
    Styled { source: SubtitleFormat, keep_styling: bool },
    /// Every other source: plain cues written as text-only TTML.
    Plain { source: SubtitleFormat },
}

pub open spec fn is_ttml_target(t: SubtitleFormat) -> bool {
    t is Ttml || t is ImscTtml
}

/// The plan for a source of the lower-cased extension `l` and a target.
pub open spec fn plan_for(source: SubtitleFormat, target: SubtitleFormat) -> ConversionPlan {
    if source is Ttml && is_ttml_target(target) {
        ConversionPlan::CopyAuthored
    } else if source is Ass || source is Fcpxml || source is Mks {
        ConversionPlan::Styled { source, keep_styling: is_ttml_target(target) }
    } else {
        ConversionPlan::Plain { source }
    }
}

/// Decide how a subtitle file with extension `ext` becomes `target`: the
/// source format is read off the extension, and an unknown one is refused.
pub fn conversion_plan(ext: &str, target: SubtitleFormat) -> (r: Result<ConversionPlan, String>)
    ensures
        match format_named(unicode_lower(ext@)) {
            None => r matches Err(e) && e@ == "Unknown subtitle format: "@ + ext@,
            Some(source) => r == Ok::<ConversionPlan, String>(plan_for(source, target)),
        },
{
    let source = match SubtitleFormat::from_extension(ext) {
        Some(s) => s,
        None => {
            let mut msg = chars_of("Unknown subtitle format: ");
            push_str(&mut msg, ext);
            return Err(string_of(&msg));
        },
    };
    let ttml_target = match target {
        SubtitleFormat::Ttml | SubtitleFormat::ImscTtml => true,
        _ => false,
    };
    match source {
        SubtitleFormat::Ttml if ttml_target => Ok(ConversionPlan::CopyAuthored),
        SubtitleFormat::Ass | SubtitleFormat::Fcpxml | SubtitleFormat::Mks => Ok(
            ConversionPlan::Styled { source, keep_styling: ttml_target },
        ),
        _ => Ok(ConversionPlan::Plain { source }),
    }
}

} // verus!
