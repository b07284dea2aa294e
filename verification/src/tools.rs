//! The external tools the pipeline runs (`doctor`): which are known, what a
//! probe of one found, the summary counts and the human report.
//!
//! Finding a tool on `PATH` and running it for its version are process work
//! and happen outside the library; what the library decides from what they
//! returned is here.
use vstd::prelude::*;
use crate::text::{chars_of, decimal, decimal_chars, push_all, push_str, string_of};

verus! {

/// Tool availability status.
#[derive(Debug, Clone, Copy, PartialEq, Eq, Structural)]
pub enum ToolStatus {
    Available,
    Missing,
    VersionMismatch,
}

/// Information about a single external tool. `path` is where it was found.
#[derive(Debug, Clone)]
pub struct ToolInfo {
    pub name: String,
    pub path: Option<String>,
    pub version: Option<String>,
    pub status: ToolStatus,
    pub purpose: String,
    pub required: bool,
}

/// Result of checking all tools.
#[derive(Debug, Clone)]
pub struct ToolCheckResult {
    pub tools: Vec<ToolInfo>,
    pub available: usize,
    pub missing: usize,
    pub required_missing: usize,
}

/// How many tools are known.
pub const TOOL_COUNT: usize = 9;

/// The known tools, in report order: name, purpose, whether the core
/// features need it, and the argument that makes it print its version.
pub open spec fn tool_defs() -> Seq<(Seq<char>, Seq<char>, bool, Seq<char>)> {
    seq![
        ("ffmpeg"@, "Transcoding, burn-in, loudness, LUT, ACES fallback, audio description, slate"@, true, "-version"@),
        ("ffprobe"@, "Media probing, codec detection, duration/resolution extraction"@, true, "-version"@),
        ("grk_compress"@, "JPEG 2000 encoding (Grok codec)"@, true, "--version"@),
        ("dovi_tool"@, "Dolby Vision RPU injection/extraction"@, false, "--version"@),
        ("ctlrender"@, "ACES CTL transforms (IDT/RRT/ODT)"@, false, "--version"@),
        ("xmllint"@, "XSD schema validation of IMP XML files"@, false, "--version"@),
        ("wkhtmltopdf"@, "PDF report generation"@, false, "--version"@),
        ("weasyprint"@, "PDF report generation (alternative)"@, false, "--version"@),
        ("ascp"@, "Aspera FASP high-speed transfer"@, false, "--version"@),
    ]
}

/// The `i`-th known tool: name, purpose, required, version argument.
pub fn tool_def(i: usize) -> (r: (&'static str, &'static str, bool, &'static str))
    requires
        i < TOOL_COUNT,
    ensures
        (r.0@, r.1@, r.2, r.3@) == tool_defs()[i as int],
{
    if i == 0 {
        ("ffmpeg", "Transcoding, burn-in, loudness, LUT, ACES fallback, audio description, slate", true, "-version")
    } else if i == 1 {
        ("ffprobe", "Media probing, codec detection, duration/resolution extraction", true, "-version")
    } else if i == 2 {
        ("grk_compress", "JPEG 2000 encoding (Grok codec)", true, "--version")
    } else if i == 3 {
        ("dovi_tool", "Dolby Vision RPU injection/extraction", false, "--version")
    } else if i == 4 {
        ("ctlrender", "ACES CTL transforms (IDT/RRT/ODT)", false, "--version")
    } else if i == 5 {
        ("xmllint", "XSD schema validation of IMP XML files", false, "--version")
    } else if i == 6 {
        ("wkhtmltopdf", "PDF report generation", false, "--version")
    } else if i == 7 {
        ("weasyprint", "PDF report generation (alternative)", false, "--version")
    } else {
        ("ascp", "Aspera FASP high-speed transfer", false, "--version")
    }
}

// ---------------------------------------------------------------------------
// Version text
// ---------------------------------------------------------------------------

/// What regex_lite finds for `pattern` in `text`: the text of capture group 1
/// of the leftmost match, if the pattern compiles, matches, and group 1 took
/// part in the match.
pub uninterp spec fn regex_group_one(pattern: Seq<char>, text: Seq<char>) -> Option<Seq<char>>;

/// Capture group 1 of the first match of `pattern` in `text`.
///
/// Calls `regex_lite::Regex::new`, `Regex::captures` and `Captures::get(1)`;
/// the result is named, not restated.
#[verifier::external_body]
fn regex_first_group(pattern: &str, text: &str) -> (r: Option<String>)
    ensures
        match r {
            Some(s) => regex_group_one(pattern@, text@) == Some(s@),
            None => regex_group_one(pattern@, text@) is None,
        },
{
    match regex_lite::Regex::new(pattern) {
        Ok(re) => match re.captures(text) {
            Some(caps) => caps.get(1).map(|m| m.as_str().to_string()),
            None => None,
        },
        Err(_) => None,
    }
}

pub open spec fn opt_view(o: Option<String>) -> Option<Seq<char>> {
    match o {
        Some(s) => Some(s@),
        None => None,
    }
}

/// The version a tool printed: the first of the three patterns that finds one.
pub open spec fn version_in(text: Seq<char>) -> Option<Seq<char>> {
    match regex_group_one("(\\d+\\.\\d+\\.\\d+)"@, text) {
        Some(v) => Some(v),
        None => match regex_group_one("(\\d+\\.\\d+)"@, text) {
            Some(v) => Some(v),
            None => regex_group_one("version\\s+(\\d+[\\d.]+)"@, text),
        },
    }
}

/// The version a tool printed, found by the common version patterns in turn.
pub fn version_from_output(text: &str) -> (r: Option<String>)
    ensures
        opt_view(r) == version_in(text@),
{
    let a = regex_first_group("(\\d+\\.\\d+\\.\\d+)", text);
    if a.is_some() {
        return a;
    }
    let b = regex_first_group("(\\d+\\.\\d+)", text);
    if b.is_some() {
        return b;
    }
    regex_first_group("version\\s+(\\d+[\\d.]+)", text)
}

/// What a probe of the `i`-th tool found: where it is on `PATH`, if anywhere,
/// and what it printed (stdout then stderr) when asked for its version, if it
/// could be run.
pub fn probe_tool(i: usize, path: Option<String>, output: Option<String>) -> (r: ToolInfo)
    requires
        i < TOOL_COUNT,
    ensures
        r.name@ == tool_defs()[i as int].0,
        r.purpose@ == tool_defs()[i as int].1,
        r.required == tool_defs()[i as int].2,
        r.path == path,
        r.status == (if path is Some {
            ToolStatus::Available
        } else {
            ToolStatus::Missing
        }),
        opt_view(r.version) == (match (path, output) {
            (Some(_), Some(t)) => version_in(t@),
            _ => None,
        }),
{
    let def = tool_def(i);
    let (status, version) = if path.is_some() {
        match output {
            Some(t) => (ToolStatus::Available, version_from_output(t.as_str())),
            None => (ToolStatus::Available, None),
        }
    } else {
        (ToolStatus::Missing, None)
    };
    ToolInfo {
        name: string_of(&chars_of(def.0)),
        path,
        version,
        status,
        purpose: string_of(&chars_of(def.1)),
        required: def.2,
    }
}

// ---------------------------------------------------------------------------
// Summary
// ---------------------------------------------------------------------------

/// How many of `ts` have status `st` (and are required, where `required_only`).
pub open spec fn count_status(ts: Seq<ToolInfo>, st: ToolStatus, required_only: bool) -> nat
    decreases ts.len(),
{
    if ts.len() == 0 {
        0
    } else {
        let t = ts.last();
        count_status(ts.drop_last(), st, required_only) + if t.status == st && (!required_only
            || t.required) {
            1nat
        } else {
            0nat
        }
    }
}

pub proof fn lemma_count_bound(ts: Seq<ToolInfo>, st: ToolStatus, required_only: bool)
    ensures
        count_status(ts, st, required_only) <= ts.len(),
    decreases ts.len(),
{
    if ts.len() > 0 {
        lemma_count_bound(ts.drop_last(), st, required_only);
    }
}

/// Over probed tools (each found or not), every tool is counted once, as
/// available or as missing, and the required missing ones are among the
/// missing ones.
pub proof fn law_probed_tools_counted_once(ts: Seq<ToolInfo>)
    requires
        forall|k: int| 0 <= k < ts.len() ==> (#[trigger] ts[k]).status != ToolStatus::VersionMismatch,
    ensures
        count_status(ts, ToolStatus::Available, false) + count_status(ts, ToolStatus::Missing, false)
            == ts.len(),
        count_status(ts, ToolStatus::Missing, true) <= count_status(ts, ToolStatus::Missing, false),
    decreases ts.len(),
{
    if ts.len() > 0 {
        let t = ts.drop_last();
        assert forall|k: int| 0 <= k < t.len() implies (#[trigger] t[k]).status
            != ToolStatus::VersionMismatch by {
            assert(t[k] == ts[k]);
        }
        law_probed_tools_counted_once(t);
        assert(ts.last() == ts[ts.len() - 1]);
    }
}

/// The summary of the probed tools: the tools as given, and how many are
/// available, missing, and missing though required.
pub fn check_all_tools(tools: Vec<ToolInfo>) -> (r: ToolCheckResult)
    ensures
        r.tools@ == tools@,
        r.available == count_status(tools@, ToolStatus::Available, false),
        r.missing == count_status(tools@, ToolStatus::Missing, false),
        r.required_missing == count_status(tools@, ToolStatus::Missing, true),
{
    let mut available: usize = 0;
    let mut missing: usize = 0;
    let mut required_missing: usize = 0;
    let mut i: usize = 0;
    while i < tools.len()
        invariant
            i <= tools.len(),
            available == count_status(tools@.take(i as int), ToolStatus::Available, false),
            missing == count_status(tools@.take(i as int), ToolStatus::Missing, false),
            required_missing == count_status(tools@.take(i as int), ToolStatus::Missing, true),
        decreases tools.len() - i,
    {
        proof {
            let pre = tools@.take(i as int + 1);
            assert(pre.drop_last() =~= tools@.take(i as int));
            lemma_count_bound(tools@.take(i as int), ToolStatus::Available, false);
            lemma_count_bound(tools@.take(i as int), ToolStatus::Missing, false);
            lemma_count_bound(tools@.take(i as int), ToolStatus::Missing, true);
        }
        let t = &tools[i];
        if t.status == ToolStatus::Available {
            available += 1;
        }
        if t.status == ToolStatus::Missing {
            missing += 1;
            if t.required {
                required_missing += 1;
            }
        }
        i += 1;
    }
    assert(tools@.take(tools.len() as int) =~= tools@);
    ToolCheckResult { tools, available, missing, required_missing }
}

/// The index of the first tool called `name` that is available.
pub open spec fn first_available(ts: Seq<ToolInfo>, name: Seq<char>, from: int) -> Option<int>
    decreases ts.len() - from,
{
    if from < 0 || from >= ts.len() {
        None
    } else if ts[from].name@ == name && ts[from].status == ToolStatus::Available {
        Some(from)
    } else {
        first_available(ts, name, from + 1)
    }
}

/// Whether a tool called `name` is available.
pub open spec fn tool_available_spec(ts: Seq<ToolInfo>, name: Seq<char>) -> bool {
    first_available(ts, name, 0) is Some
}

proof fn lemma_first_available(ts: Seq<ToolInfo>, name: Seq<char>, from: int)
    requires
        0 <= from <= ts.len(),
    ensures
        (first_available(ts, name, from) is Some) <==> exists|k: int|
            from <= k < ts.len() && #[trigger] ts[k].name@ == name && ts[k].status
                == ToolStatus::Available,
        first_available(ts, name, from) matches Some(k) ==> from <= k < ts.len(),
    decreases ts.len() - from,
{
    if from < ts.len() {
        lemma_first_available(ts, name, from + 1);
    }
}

fn find_available(result: &ToolCheckResult, name: &str) -> (r: Option<usize>)
    ensures
        match r {
            Some(k) => first_available(result.tools@, name@, 0) == Some(k as int),
            None => first_available(result.tools@, name@, 0) is None,
        },
{
    let target = chars_of(name);
    let mut i: usize = 0;
    while i < result.tools.len()
        invariant
            i <= result.tools.len(),
            target@ == name@,
            first_available(result.tools@, name@, 0) == first_available(
                result.tools@,
                name@,
                i as int,
            ),
        decreases result.tools.len() - i,
    {
        let t = &result.tools[i];
        let tn = chars_of(t.name.as_str());
        if crate::text::eq(&tn, &target) && t.status == ToolStatus::Available {
            return Some(i);
        }
        i += 1;
    }
    None
}

/// Whether the check found a tool called `name` available.
pub fn tool_available(result: &ToolCheckResult, name: &str) -> (r: bool)
    ensures
        r == tool_available_spec(result.tools@, name@),
{
    find_available(result, name).is_some()
}

pub fn has_ffmpeg(result: &ToolCheckResult) -> (r: bool)
    ensures
        r == tool_available_spec(result.tools@, "ffmpeg"@),
{
    tool_available(result, "ffmpeg")
}

pub fn has_ffprobe(result: &ToolCheckResult) -> (r: bool)
    ensures
        r == tool_available_spec(result.tools@, "ffprobe"@),
{
    tool_available(result, "ffprobe")
}

pub fn has_grk_compress(result: &ToolCheckResult) -> (r: bool)
    ensures
        r == tool_available_spec(result.tools@, "grk_compress"@),
{
    tool_available(result, "grk_compress")
}

pub fn has_dovi_tool(result: &ToolCheckResult) -> (r: bool)
    ensures
        r == tool_available_spec(result.tools@, "dovi_tool"@),
{
    tool_available(result, "dovi_tool")
}

pub fn has_ctlrender(result: &ToolCheckResult) -> (r: bool)
    ensures
        r == tool_available_spec(result.tools@, "ctlrender"@),
{
    tool_available(result, "ctlrender")
}

pub fn has_xmllint(result: &ToolCheckResult) -> (r: bool)
    ensures
        r == tool_available_spec(result.tools@, "xmllint"@),
{
    tool_available(result, "xmllint")
}

pub fn has_wkhtmltopdf(result: &ToolCheckResult) -> (r: bool)
    ensures
        r == tool_available_spec(result.tools@, "wkhtmltopdf"@),
{
    tool_available(result, "wkhtmltopdf")
}

pub fn has_weasyprint(result: &ToolCheckResult) -> (r: bool)
    ensures
        r == tool_available_spec(result.tools@, "weasyprint"@),
{
    tool_available(result, "weasyprint")
}

pub fn has_ascp(result: &ToolCheckResult) -> (r: bool)
    ensures
        r == tool_available_spec(result.tools@, "ascp"@),
{
    tool_available(result, "ascp")
}

/// The path of the first available tool called `name` (none where that tool
/// has no path recorded).
pub fn tool_path(result: &ToolCheckResult, name: &str) -> (r: Option<String>)
    ensures
        opt_view(r) == (match first_available(result.tools@, name@, 0) {
            Some(k) => opt_view(result.tools@[k].path),
            None => None,
        }),
{
    match find_available(result, name) {
        Some(k) => {
            proof {
                lemma_first_available(result.tools@, name@, 0);
            }
            match &result.tools[k].path {
                Some(p) => Some(string_of(&chars_of(p.as_str()))),
                None => None,
            }
        },
        None => None,
    }
}

// ---------------------------------------------------------------------------
// Report
// ---------------------------------------------------------------------------

/// The lines the report gives one tool.
pub open spec fn tool_block(t: ToolInfo) -> Seq<char> {
    match t.status {
        ToolStatus::Available => {
            let ver = match t.version {
                Some(v) => v@,
                None => Seq::empty(),
            };
            let ver_str = if ver.len() == 0 {
                Seq::empty()
            } else {
                " ("@ + ver + ")"@
            };
            let path_lines = match t.path {
                Some(p) => "       Path: "@ + p@ + "\n\n"@,
                None => "\n"@,
            };
            "  [OK] "@ + t.name@ + ver_str + "\n"@ + "       "@ + t.purpose@ + "\n"@ + path_lines
        },
        _ => {
            let tag = if t.required {
                " [REQUIRED]"@
            } else {
                Seq::empty()
            };
            "  [--] "@ + t.name@ + " — NOT FOUND"@ + tag + "\n"@ + "       "@ + t.purpose@
                + "\n\n"@
        },
    }
}

pub open spec fn tool_blocks(ts: Seq<ToolInfo>) -> Seq<char>
    decreases ts.len(),
{
    if ts.len() == 0 {
        Seq::empty()
    } else {
        tool_blocks(ts.drop_last()) + tool_block(ts.last())
    }
}

/// The human-readable doctor report.
pub open spec fn doctor_report(r: ToolCheckResult) -> Seq<char> {
    let warning = if r.required_missing > 0 {
        "WARNING: "@ + decimal(r.required_missing as nat)
            + " required tool(s) missing — core features will not work!\n"@
    } else {
        Seq::empty()
    };
    "IMF Wizard — Dependency Check\n"@ + "==============================\n\n"@ + tool_blocks(
        r.tools@,
    ) + "-------------------------------\n"@ + "Available: "@ + decimal(r.available as nat) + "/"@
        + decimal(r.tools@.len()) + "\n"@ + warning
}

fn push_tool_block(out: &mut Vec<char>, t: &ToolInfo)
    ensures
        final(out)@ == old(out)@ + tool_block(*t),
{
    match t.status {
        ToolStatus::Available => {
            let mut b = chars_of("  [OK] ");
            push_str(&mut b, t.name.as_str());
            match &t.version {
                Some(v) => {
                    if !v.as_str().is_empty() {
                        push_str(&mut b, " (");
                        push_str(&mut b, v.as_str());
                        push_str(&mut b, ")");
                    }
                },
                None => {},
            }
            push_str(&mut b, "\n");
            push_str(&mut b, "       ");
            push_str(&mut b, t.purpose.as_str());
            push_str(&mut b, "\n");
            match &t.path {
                Some(p) => {
                    push_str(&mut b, "       Path: ");
                    push_str(&mut b, p.as_str());
                    push_str(&mut b, "\n\n");
                },
                None => {
                    push_str(&mut b, "\n");
                },
            }
            assert(b@ =~= tool_block(*t));
            push_all(out, &b);
        },
        _ => {
            let mut b = chars_of("  [--] ");
            push_str(&mut b, t.name.as_str());
            push_str(&mut b, " — NOT FOUND");
            if t.required {
                push_str(&mut b, " [REQUIRED]");
            }
            push_str(&mut b, "\n");
            push_str(&mut b, "       ");
            push_str(&mut b, t.purpose.as_str());
            push_str(&mut b, "\n\n");
            assert(b@ =~= tool_block(*t));
            push_all(out, &b);
        },
    }
}

/// Format a human-readable doctor report.
pub fn format_doctor_report(result: &ToolCheckResult) -> (r: String)
    ensures
        r@ == doctor_report(*result),
{
    let mut out = chars_of("IMF Wizard — Dependency Check\n");
    push_str(&mut out, "==============================\n\n");
    let ghost head = out@;
    let mut i: usize = 0;
    while i < result.tools.len()
        invariant
            i <= result.tools.len(),
            out@ == head + tool_blocks(result.tools@.take(i as int)),
        decreases result.tools.len() - i,
    {
        let ghost before = out@;
        push_tool_block(&mut out, &result.tools[i]);
        proof {
            let pre = result.tools@.take(i as int + 1);
            assert(pre.drop_last() =~= result.tools@.take(i as int));
            assert(out@ =~= head + tool_blocks(pre));
        }
        i += 1;
    }
    assert(result.tools@.take(result.tools.len() as int) =~= result.tools@);
    push_str(&mut out, "-------------------------------\n");
    push_str(&mut out, "Available: ");
    push_all(&mut out, &decimal_chars(result.available as u64));
    push_str(&mut out, "/");
    push_all(&mut out, &decimal_chars(result.tools.len() as u64));
    push_str(&mut out, "\n");
    if result.required_missing > 0 {
        push_str(&mut out, "WARNING: ");
        push_all(&mut out, &decimal_chars(result.required_missing as u64));
        push_str(&mut out, " required tool(s) missing — core features will not work!\n");
    }
    assert(out@ =~= doctor_report(*result));
    string_of(&out)
}

} // verus!
