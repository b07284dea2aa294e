//! IMP validation: the structural verifier's notes merged with the
//! IMF-specific checks into one result.
use vstd::prelude::*;
use crate::text::{chars_of, contains, contains_str, push_str, string_of, string_views};

verus! {

/// IMP validation result.
#[derive(Debug, Clone, Default)]
pub struct ValidationResult {
    pub valid: bool,
    pub errors: Vec<String>,
    pub warnings: Vec<String>,
    /// What the checks measured rather than judged, such as the picture bitrate
    /// the deeper pass reads off the essence. The QC report lists these.
    pub infos: Vec<String>,
}

/// How much a verifier note weighs.
#[derive(Debug, Clone, Copy, PartialEq, Eq, Structural)]
pub enum Severity {
    Error,
    Warning,
    Info,
}

/// One finding of the structural verifier.
#[derive(Debug, Clone)]
pub struct Note {
    pub severity: Severity,
    pub message: String,
}

/// The messages of the notes of one severity, in order.
pub open spec fn messages_of(notes: Seq<Note>, s: Severity) -> Seq<Seq<char>>
    decreases notes.len(),
{
    if notes.len() == 0 {
        Seq::empty()
    } else {
        let rest = messages_of(notes.drop_last(), s);
        if notes.last().severity == s {
            rest.push(notes.last().message@)
        } else {
            rest
        }
    }
}

pub open spec fn any_mentions(v: Seq<Seq<char>>, p: Seq<char>) -> bool {
    exists|i: int| 0 <= i < v.len() && contains(#[trigger] v[i], p)
}

pub open spec fn no_cpl_error() -> Seq<char> {
    "No Composition Playlist (CPL) found"@
}

pub open spec fn no_mxf_warning() -> Seq<char> {
    "No MXF essence files found"@
}

/// The result of validating a directory: a path that is not a directory is
/// refused alone; otherwise the verifier's notes by severity, then the
/// refusal of a package with no CPL (unless a verifier error already names
/// the CPL), then the warning of a package with no MXF file.
pub open spec fn validation_is(
    r: ValidationResult,
    dir: Seq<char>,
    is_dir: bool,
    notes: Seq<Note>,
    cpl_count: nat,
    mxf_count: nat,
) -> bool {
    if !is_dir {
        &&& !r.valid
        &&& string_views(r.errors@) == seq!["Not a directory: "@ + dir]
        &&& r.warnings@.len() == 0
        &&& r.infos@.len() == 0
    } else {
        let errs = messages_of(notes, Severity::Error);
        let no_cpl = cpl_count == 0 && !any_mentions(errs, "CPL"@);
        &&& string_views(r.errors@) == (if no_cpl {
            errs.push(no_cpl_error())
        } else {
            errs
        })
        &&& string_views(r.warnings@) == (if mxf_count == 0 {
            messages_of(notes, Severity::Warning).push(no_mxf_warning())
        } else {
            messages_of(notes, Severity::Warning)
        })
        &&& string_views(r.infos@) == messages_of(notes, Severity::Info)
        &&& r.valid == (errs.len() == 0 && !no_cpl)
    }
}

fn copy_string(s: &String) -> (r: String)
    ensures
        r@ == s@,
{
    string_of(&chars_of(s.as_str()))
}

/// Validate an IMP directory from what was found of it: whether `dir` is a
/// directory, the structural verifier's notes, how many CPLs it lists and how
/// many MXF files it holds.
pub fn validate_imp(dir: &str, is_dir: bool, notes: &Vec<Note>, cpl_count: usize, mxf_count: usize) -> (r:
    ValidationResult)
    ensures
        validation_is(r, dir@, is_dir, notes@, cpl_count as nat, mxf_count as nat),
        r.valid <==> r.errors@.len() == 0,
{
    if !is_dir {
        let mut m = chars_of("Not a directory: ");
        push_str(&mut m, dir);
        let mut errors: Vec<String> = Vec::new();
        errors.push(string_of(&m));
        assert(string_views(errors@) =~= seq!["Not a directory: "@ + dir@]);
        return ValidationResult { valid: false, errors, warnings: Vec::new(), infos: Vec::new() };
    }
    let mut errors: Vec<String> = Vec::new();
    let mut warnings: Vec<String> = Vec::new();
    let mut infos: Vec<String> = Vec::new();
    let mut mentions_cpl = false;
    let mut i: usize = 0;
    assert(notes@.take(0) =~= Seq::<Note>::empty());
    assert(string_views(errors@) =~= Seq::<Seq<char>>::empty());
    assert(string_views(warnings@) =~= Seq::<Seq<char>>::empty());
    assert(string_views(infos@) =~= Seq::<Seq<char>>::empty());
    while i < notes.len()
        invariant
            i <= notes.len(),
            string_views(errors@) == messages_of(notes@.take(i as int), Severity::Error),
            string_views(warnings@) == messages_of(notes@.take(i as int), Severity::Warning),
            string_views(infos@) == messages_of(notes@.take(i as int), Severity::Info),
            mentions_cpl == any_mentions(string_views(errors@), "CPL"@),
        decreases notes.len() - i,
    {
        let ghost pre = notes@.take(i + 1);
        assert(pre.drop_last() =~= notes@.take(i as int));
        let n = &notes[i];
        let msg = copy_string(&n.message);
        match n.severity {
            Severity::Error => {
                let ghost before = string_views(errors@);
                let mc = chars_of(msg.as_str());
                let c = contains_str(&mc, "CPL");
                errors.push(msg);
                assert(string_views(errors@) =~= before.push(n.message@));
                proof {
                    let now = string_views(errors@);
                    if mentions_cpl {
                        let k = choose|k: int| 0 <= k < before.len() && contains(#[trigger] before[k], "CPL"@);
                        assert(now[k] == before[k]);
                    }
                    if c {
                        assert(contains(now[now.len() - 1], "CPL"@));
                    }
                    if any_mentions(now, "CPL"@) {
                        let k = choose|k: int| 0 <= k < now.len() && contains(#[trigger] now[k], "CPL"@);
                        if k < before.len() {
                            assert(before[k] == now[k]);
                        }
                    }
                }
                mentions_cpl = mentions_cpl || c;
            },
            Severity::Warning => {
                let ghost before = string_views(warnings@);
                warnings.push(msg);
                assert(string_views(warnings@) =~= before.push(n.message@));
            },
            Severity::Info => {
                let ghost before = string_views(infos@);
                infos.push(msg);
                assert(string_views(infos@) =~= before.push(n.message@));
            },
        }
        i += 1;
    }
    assert(notes@.take(notes.len() as int) =~= notes@);
    let mut valid = errors.len() == 0;
    if cpl_count == 0 && !mentions_cpl {
        valid = false;
        let ghost before = string_views(errors@);
        errors.push(string_of(&chars_of("No Composition Playlist (CPL) found")));
        assert(string_views(errors@) =~= before.push(no_cpl_error()));
    }
    if mxf_count == 0 {
        let ghost before = string_views(warnings@);
        warnings.push(string_of(&chars_of("No MXF essence files found")));
        assert(string_views(warnings@) =~= before.push(no_mxf_warning()));
    }
    ValidationResult { valid, errors, warnings, infos }
}

} // verus!
