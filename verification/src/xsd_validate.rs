//! XSD validation of IMP XML files (CPL, PKL, AssetMap, OPL) with xmllint:
//! which schema a document needs, the schema files that serve, and what
//! xmllint's answer means.
use vstd::prelude::*;
use crate::text::{
    chars_of, contains, contains_str, ends_with, ends_with_chars, lines, lines_chars, push_str,
    string_of, string_views, trim, trim_chars, unicode_lower, to_lowercase, views,
};

verus! {

/// Result of XSD validation for a single file.
#[derive(Debug, Clone)]
pub struct XsdValidationResult {
    pub file: String,
    pub valid: bool,
    pub errors: Vec<String>,
}

/// Which kind of IMP document the text is, by what it mentions: `cpl`, `pkl`,
/// `assetmap` or `opl`.
pub open spec fn document_type_spec(content: Seq<char>) -> Option<Seq<char>> {
    if contains(content, "CompositionPlaylist"@) || contains(content, "2067-3"@) {
        Some("cpl"@)
    } else if contains(content, "PackingList"@) || contains(content, "2067-2"@) {
        Some("pkl"@)
    } else if contains(content, "AssetMap"@) {
        Some("assetmap"@)
    } else if contains(content, "OutputProfileList"@) || contains(content, "2067-9"@) {
        Some("opl"@)
    } else {
        None
    }
}

/// Which kind of IMP document `content` is.
pub fn document_type(content: &str) -> (r: Option<&'static str>)
    ensures
        match (r, document_type_spec(content@)) {
            (Some(a), Some(b)) => a@ == b,
            (None, None) => true,
            _ => false,
        },
{
    let c = chars_of(content);
    if contains_str(&c, "CompositionPlaylist") || contains_str(&c, "2067-3") {
        Some("cpl")
    } else if contains_str(&c, "PackingList") || contains_str(&c, "2067-2") {
        Some("pkl")
    } else if contains_str(&c, "AssetMap") {
        Some("assetmap")
    } else if contains_str(&c, "OutputProfileList") || contains_str(&c, "2067-9") {
        Some("opl")
    } else {
        None
    }
}

/// The schema file names tried first for a document type, in order.
pub open spec fn schema_candidates_spec(doc_type: Seq<char>) -> Seq<Seq<char>> {
    if doc_type == "cpl"@ {
        seq!["st2067-3-2020-CPL.xsd"@, "st2067-3-CPL.xsd"@, "imf-cpl.xsd"@]
    } else if doc_type == "pkl"@ {
        seq!["st2067-2-2020-PKL.xsd"@, "st2067-2-PKL.xsd"@, "imf-pkl.xsd"@]
    } else if doc_type == "assetmap"@ {
        seq!["st0429-9-2007-AM.xsd"@, "st429-9-AM.xsd"@, "imf-assetmap.xsd"@]
    } else if doc_type == "opl"@ {
        seq!["st2067-9-OPL.xsd"@]
    } else {
        Seq::empty()
    }
}

fn owned(s: &str) -> (r: String)
    ensures
        r@ == s@,
{
    string_of(&chars_of(s))
}

/// The schema file names tried first for a document type, in order.
pub fn schema_candidates(doc_type: &str) -> (r: Vec<String>)
    ensures
        string_views(r@) == schema_candidates_spec(doc_type@),
{
    let d = chars_of(doc_type);
    let mut v: Vec<String> = Vec::new();
    if crate::text::eq_str(&d, "cpl") {
        v.push(owned("st2067-3-2020-CPL.xsd"));
        v.push(owned("st2067-3-CPL.xsd"));
        v.push(owned("imf-cpl.xsd"));
    } else if crate::text::eq_str(&d, "pkl") {
        v.push(owned("st2067-2-2020-PKL.xsd"));
        v.push(owned("st2067-2-PKL.xsd"));
        v.push(owned("imf-pkl.xsd"));
    } else if crate::text::eq_str(&d, "assetmap") {
        v.push(owned("st0429-9-2007-AM.xsd"));
        v.push(owned("st429-9-AM.xsd"));
        v.push(owned("imf-assetmap.xsd"));
    } else if crate::text::eq_str(&d, "opl") {
        v.push(owned("st2067-9-OPL.xsd"));
    }
    assert(string_views(v@) =~= schema_candidates_spec(doc_type@));
    v
}

/// Whether a file met while searching the schema directory serves a document
/// type: its name, lower-cased, mentions the type, and it ends in `.xsd`.
pub fn schema_name_matches(name: &str, doc_type: &str) -> (r: bool)
    ensures
        r == (contains(unicode_lower(name@), doc_type@) && ends_with(name@, ".xsd"@)),
{
    let l = chars_of(to_lowercase(name).as_str());
    let n = chars_of(name);
    let x = chars_of(".xsd");
    contains_str(&l, doc_type) && ends_with_chars(&n, &x)
}

/// The lines of xmllint's report that are errors: not blank, and not the
/// "validates" line.
pub open spec fn error_lines(ls: Seq<Seq<char>>) -> Seq<Seq<char>>
    decreases ls.len(),
{
    if ls.len() == 0 {
        Seq::empty()
    } else {
        let l = ls.last();
        if trim(l).len() > 0 && !contains(l, "validates"@) {
            error_lines(ls.drop_last()).push(l)
        } else {
            error_lines(ls.drop_last())
        }
    }
}

/// What an xmllint run on `file` means: valid where it exited with success,
/// else invalid with the error lines of what it printed on stderr.
pub fn xmllint_result(file: &str, success: bool, stderr: &str) -> (r: XsdValidationResult)
    ensures
        r.file@ == file@,
        r.valid == success,
        string_views(r.errors@) == if success {
            Seq::empty()
        } else {
            error_lines(lines(stderr@))
        },
{
    let mut errors: Vec<String> = Vec::new();
    assert(string_views(errors@) =~= Seq::<Seq<char>>::empty());
    if !success {
        let ls = lines_chars(&chars_of(stderr));
        let ghost lv = views(ls@);
        let mut i: usize = 0;
        while i < ls.len()
            invariant
                i <= ls.len(),
                lv == views(ls@),
                lv == lines(stderr@),
                string_views(errors@) == error_lines(lv.take(i as int)),
            decreases ls.len() - i,
        {
            assert(lv.take(i + 1).drop_last() =~= lv.take(i as int));
            assert(lv[i as int] == ls@[i as int]@);
            let l = &ls[i];
            if trim_chars(l).len() > 0 && !contains_str(l, "validates") {
                let ghost before = string_views(errors@);
                errors.push(string_of(l));
                assert(string_views(errors@) =~= before.push(l@));
            }
            i += 1;
        }
        assert(lv.take(ls.len() as int) =~= lv);
    }
    XsdValidationResult { file: owned(file), valid: success, errors }
}

/// The result for a file xmllint could not be run on.
pub fn xmllint_failure(file: &str, reason: &str) -> (r: XsdValidationResult)
    ensures
        r.file@ == file@,
        !r.valid,
        string_views(r.errors@) == seq!["Failed to run xmllint: "@ + reason@],
{
    let mut m = chars_of("Failed to run xmllint: ");
    push_str(&mut m, reason);
    let mut errors: Vec<String> = Vec::new();
    errors.push(string_of(&m));
    assert(string_views(errors@) =~= seq!["Failed to run xmllint: "@ + reason@]);
    XsdValidationResult { file: owned(file), valid: false, errors }
}

} // verus!
