//! What `inspect` reports of an IMP, read from its first CPL.
use vstd::prelude::*;
use crate::imp_diff::{extract_tag, extract_tag_spec};
use crate::text::{
    chars_of, lines, lines_chars, parse_u64, parse_unsigned, starts_with, starts_with_str,
    string_of, trim, trim_chars, views,
};

verus! {

/// IMP metadata info.
#[derive(Debug, Clone, Default)]
pub struct ImpInfo {
    pub title: String,
    pub annotation: String,
    pub issuer: String,
    pub cpl_count: usize,
    pub edit_rate: String,
    pub duration_frames: u64,
}

/// The trimmed text between the first `<tag>` and the next `</tag>`, if not
/// empty.
pub open spec fn xml_text_spec(content: Seq<char>, tag: Seq<char>) -> Option<Seq<char>> {
    match extract_tag_spec(content, tag) {
        Some(v) => if v.len() > 0 {
            Some(v)
        } else {
            None
        },
        None => None,
    }
}

/// The trimmed text between the first `<tag>` and the next `</tag>`, if not
/// empty.
pub fn extract_xml_text(content: &str, tag: &str) -> (r: Option<String>)
    ensures
        match (r, xml_text_spec(content@, tag@)) {
            (Some(a), Some(b)) => a@ == b,
            (None, None) => true,
            _ => false,
        },
{
    let cs = chars_of(content);
    extract_chars(&cs, tag)
}

fn extract_chars(cs: &[char], tag: &str) -> (r: Option<String>)
    ensures
        match (r, xml_text_spec(cs@, tag@)) {
            (Some(a), Some(b)) => a@ == b,
            (None, None) => true,
            _ => false,
        },
{
    match extract_tag(cs, tag) {
        Some(v) => if v.len() > 0 {
            Some(string_of(&v))
        } else {
            None
        },
        None => None,
    }
}

/// The frames a CPL line adds: the value of an `<IntrinsicDuration>` line,
/// nothing where it does not read as a number.
pub open spec fn line_duration(line: Seq<char>) -> nat {
    let t = trim(line);
    if starts_with(t, "<IntrinsicDuration>"@) {
        match xml_text_spec(t, "IntrinsicDuration"@) {
            Some(v) => match parse_unsigned(v, u64::MAX as nat) {
                Some(n) => n,
                None => 0,
            },
            None => 0,
        }
    } else {
        0
    }
}

pub open spec fn lines_duration(ls: Seq<Seq<char>>) -> nat
    decreases ls.len(),
{
    if ls.len() == 0 {
        0
    } else {
        lines_duration(ls.drop_last()) + line_duration(ls.last())
    }
}

/// The sum of a CPL's intrinsic durations, line by line.
pub open spec fn intrinsic_total_spec(content: Seq<char>) -> nat {
    lines_duration(lines(content))
}

fn line_duration_exec(line: &[char]) -> (r: u64)
    ensures
        r == line_duration(line@),
{
    let t = trim_chars(line);
    if !starts_with_str(&t, "<IntrinsicDuration>") {
        return 0;
    }
    match extract_chars(&t, "IntrinsicDuration") {
        Some(v) => match parse_u64(&chars_of(v.as_str())) {
            Some(n) => n,
            None => 0,
        },
        None => 0,
    }
}

/// The sum of a CPL's intrinsic durations, where it fits in `u64`.
pub fn intrinsic_total(content: &str) -> (r: Option<u64>)
    ensures
        match r {
            Some(t) => t == intrinsic_total_spec(content@),
            None => intrinsic_total_spec(content@) > u64::MAX,
        },
{
    let cs = chars_of(content);
    let ls = lines_chars(&cs);
    let ghost lv = views(ls@);
    let mut total: u64 = 0;
    let mut i: usize = 0;
    while i < ls.len()
        invariant
            i <= ls.len(),
            lv == views(ls@),
            lv == lines(content@),
            total == lines_duration(lv.take(i as int)),
        decreases ls.len() - i,
    {
        assert(lv.take(i + 1).drop_last() =~= lv.take(i as int));
        assert(lv[i as int] == ls@[i as int]@);
        let d = line_duration_exec(&ls[i]);
        match total.checked_add(d) {
            Some(t) => total = t,
            None => {
                proof {
                    lemma_lines_duration_prefix(lv, i + 1);
                }
                return None;
            },
        }
        i += 1;
    }
    assert(lv.take(ls.len() as int) =~= lv);
    Some(total)
}

/// A prefix of the lines adds no more than all of them.
pub proof fn lemma_lines_duration_prefix(ls: Seq<Seq<char>>, n: int)
    requires
        0 <= n <= ls.len(),
    ensures
        lines_duration(ls.take(n)) <= lines_duration(ls),
    decreases ls.len() - n,
{
    if n < ls.len() {
        lemma_lines_duration_prefix(ls, n + 1);
        assert(ls.take(n + 1).drop_last() =~= ls.take(n));
    } else {
        assert(ls.take(n) =~= ls);
    }
}

pub open spec fn or_empty(o: Option<Seq<char>>) -> Seq<char> {
    match o {
        Some(s) => s,
        None => Seq::empty(),
    }
}

/// What `inspect` reports: the number of CPLs, and from the first CPL's text
/// (where it could be read) its title, annotation, issuer, edit rate and the
/// sum of its intrinsic durations. None where that sum does not fit in `u64`.
pub fn imp_info(cpl_count: usize, first_cpl: Option<&str>) -> (r: Option<ImpInfo>)
    ensures
        match first_cpl {
            None => r matches Some(i) && i.cpl_count == cpl_count && i.title@.len() == 0
                && i.annotation@.len() == 0 && i.issuer@.len() == 0 && i.edit_rate@.len() == 0
                && i.duration_frames == 0,
            Some(c) => if intrinsic_total_spec(c@) > u64::MAX {
                r is None
            } else {
                r matches Some(i) && i.cpl_count == cpl_count && i.title@ == or_empty(
                    xml_text_spec(c@, "ContentTitle"@),
                ) && i.annotation@ == or_empty(xml_text_spec(c@, "AnnotationText"@)) && i.issuer@
                    == or_empty(xml_text_spec(c@, "Issuer"@)) && i.edit_rate@ == or_empty(
                    xml_text_spec(c@, "EditRate"@),
                ) && i.duration_frames == intrinsic_total_spec(c@)
            },
        },
{
    match first_cpl {
        None => Some(
            ImpInfo {
                title: String::new(),
                annotation: String::new(),
                issuer: String::new(),
                cpl_count,
                edit_rate: String::new(),
                duration_frames: 0,
            },
        ),
        Some(c) => {
            let total = match intrinsic_total(c) {
                Some(t) => t,
                None => return None,
            };
            let pick = |o: Option<String>| -> (s: String)
                ensures
                    s@ == match o {
                        Some(v) => v@,
                        None => Seq::empty(),
                    },
                {
                    match o {
                        Some(v) => v,
                        None => String::new(),
                    }
                };
            Some(
                ImpInfo {
                    title: pick(extract_xml_text(c, "ContentTitle")),
                    annotation: pick(extract_xml_text(c, "AnnotationText")),
                    issuer: pick(extract_xml_text(c, "Issuer")),
                    cpl_count,
                    edit_rate: pick(extract_xml_text(c, "EditRate")),
                    duration_frames: total,
                },
            )
        },
    }
}

} // verus!
