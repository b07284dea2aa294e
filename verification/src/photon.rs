//! Netflix Photon findings, read from IMPAnalyzer's per-file summary lines
//! ("<file> has N errors and M warnings").
use vstd::prelude::*;
use crate::text::{
    chars_of, decimal, decimal_chars, eq_str, find, find_chars, last_piece, last_piece_chars,
    lemma_find_from_bounds, lines, lines_chars, parse_u64, parse_unsigned, push_all, push_str,
    slice, string_of, string_views, strings_of, trim, trim_chars, views, words, words_chars,
    contains, contains_chars, split_any, split_rec, strip_cr, find_from, occurs_at, lead_white,
    trail_white, trim_start, trim_end, is_white,
};

verus! {

/// Photon findings mapped from IMPAnalyzer output.
#[derive(Debug, Clone, Default)]
pub struct PhotonResult {
    pub errors: Vec<String>,
    pub warnings: Vec<String>,
}

/// The file label, error count and warning count one summary line reports,
/// when it reports at least one finding.
pub open spec fn photon_finding(line: Seq<char>) -> Option<(Seq<char>, nat, nat)> {
    match find(line, " has "@) {
        None => None,
        Some(idx) => {
            let toks = words(trim(line.skip(idx + 5)));
            if toks.len() < 5 || toks[1] != "errors"@ {
                None
            } else {
                match (
                    parse_unsigned(toks[0], u64::MAX as nat),
                    parse_unsigned(toks[3], u64::MAX as nat),
                ) {
                    (Some(errs), Some(warns)) => if errs == 0 && warns == 0 {
                        None
                    } else {
                        Some((trim(last_piece(line.take(idx), " - "@)), errs, warns))
                    },
                    _ => None,
                }
            }
        },
    }
}

/// The error findings of `ls`, one per line that reports errors.
pub open spec fn photon_errors(ls: Seq<Seq<char>>) -> Seq<Seq<char>>
    decreases ls.len(),
{
    if ls.len() == 0 {
        Seq::empty()
    } else {
        photon_errors(ls.drop_last()) + match photon_finding(ls.last()) {
            Some((label, errs, _)) => if errs > 0 {
                seq!["Photon: "@ + label + ": "@ + decimal(errs) + " error(s)"@]
            } else {
                Seq::empty()
            },
            None => Seq::empty(),
        }
    }
}

/// The warning findings of `ls`, one per line that reports warnings.
pub open spec fn photon_warnings(ls: Seq<Seq<char>>) -> Seq<Seq<char>>
    decreases ls.len(),
{
    if ls.len() == 0 {
        Seq::empty()
    } else {
        photon_warnings(ls.drop_last()) + match photon_finding(ls.last()) {
            Some((label, _, warns)) => if warns > 0 {
                seq!["Photon: "@ + label + ": "@ + decimal(warns) + " warning(s)"@]
            } else {
                Seq::empty()
            },
            None => Seq::empty(),
        }
    }
}

/// The finding one line reports.
fn line_finding(line: &[char]) -> (r: Option<(Vec<char>, u64, u64)>)
    ensures
        match (r, photon_finding(line@)) {
            (None, None) => true,
            (Some((l, e, w)), Some((sl, se, sw))) => l@ == sl && e as nat == se && w as nat == sw,
            _ => false,
        },
{
    let n = line.len();
    let has = chars_of(" has ");
    proof {
        reveal_strlit(" has ");
    }
    let idx = match find_chars(line, &has) {
        None => {
            return None;
        },
        Some(i) => i,
    };
    proof {
        lemma_find_from_bounds(line@, has@, 0);
    }
    let tail = slice(line, idx + 5, n);
    let rest = trim_chars(&tail);
    let toks = words_chars(&rest);
    if toks.len() < 5 || !eq_str(&toks[1], "errors") {
        return None;
    }
    let errs = match parse_u64(&toks[0]) {
        Some(v) => v,
        None => {
            return None;
        },
    };
    let warns = match parse_u64(&toks[3]) {
        Some(v) => v,
        None => {
            return None;
        },
    };
    if errs == 0 && warns == 0 {
        return None;
    }
    let head = slice(line, 0, idx);
    let sep = chars_of(" - ");
    proof {
        reveal_strlit(" - ");
    }
    let piece = last_piece_chars(&head, &sep);
    let label = trim_chars(&piece);
    Some((label, errs, warns))
}

/// Parse IMPAnalyzer output into errors/warnings from its per-file summary lines.
pub fn parse_photon_output(text: &str) -> (r: PhotonResult)
    ensures
        string_views(r.errors@) == photon_errors(lines(text@)),
        string_views(r.warnings@) == photon_warnings(lines(text@)),
{
    let cs = chars_of(text);
    let ls = lines_chars(&cs);
    let mut errors: Vec<Vec<char>> = Vec::new();
    let mut warnings: Vec<Vec<char>> = Vec::new();
    let mut k: usize = 0;
    while k < ls.len()
        invariant
            k <= ls.len(),
            views(ls@) == lines(text@),
            views(errors@) == photon_errors(views(ls@).take(k as int)),
            views(warnings@) == photon_warnings(views(ls@).take(k as int)),
        decreases ls.len() - k,
    {
        let ghost pre = views(ls@).take(k as int);
        let ghost now = views(ls@).take(k + 1);
        assert(now.drop_last() == pre);
        assert(now.last() == ls@[k as int]@);
        match line_finding(&ls[k]) {
            None => {
                assert(views(errors@) =~= photon_errors(now));
                assert(views(warnings@) =~= photon_warnings(now));
            },
            Some((label, errs, warns)) => {
                let ghost e0 = views(errors@);
                let ghost w0 = views(warnings@);
                if errs > 0 {
                    let mut m = chars_of("Photon: ");
                    push_all(&mut m, &label);
                    push_str(&mut m, ": ");
                    push_all(&mut m, &decimal_chars(errs));
                    push_str(&mut m, " error(s)");
                    let ghost mv = m@;
                    errors.push(m);
                    assert(views(errors@) =~= e0.push(mv));
                }
                if warns > 0 {
                    let mut m = chars_of("Photon: ");
                    push_all(&mut m, &label);
                    push_str(&mut m, ": ");
                    push_all(&mut m, &decimal_chars(warns));
                    push_str(&mut m, " warning(s)");
                    let ghost mv = m@;
                    warnings.push(m);
                    assert(views(warnings@) =~= w0.push(mv));
                }
                assert(views(errors@) =~= photon_errors(now));
                assert(views(warnings@) =~= photon_warnings(now));
            },
        }
        k += 1;
    }
    assert(views(ls@).take(ls.len() as int) == views(ls@));
    PhotonResult { errors: strings_of(&errors), warnings: strings_of(&warnings) }
}

/// Whether a line is one of IMPAnalyzer's per-file summaries.
pub open spec fn is_summary(line: Seq<char>) -> bool {
    contains(line, " has "@) && (contains(line, " errors and "@) || contains(line, "no errors or warnings"@))
}

/// Whether any of the first `n` lines is a summary.
pub open spec fn any_summary(ls: Seq<Seq<char>>, n: int) -> bool
    decreases n,
{
    n > 0 && (any_summary(ls, n - 1) || is_summary(ls[n - 1]))
}

/// The last of the first `n` lines that is not blank.
pub open spec fn last_nonblank(ls: Seq<Seq<char>>, n: int) -> Option<Seq<char>>
    decreases n,
{
    if n <= 0 {
        None
    } else if trim(ls[n - 1]).len() > 0 {
        Some(ls[n - 1])
    } else {
        last_nonblank(ls, n - 1)
    }
}

/// What a Photon run means: its output is stdout, a line break, then stderr.
/// A run that failed without printing any summary is a launch failure (a
/// wrong jar), refused with its last line rather than passed as clean;
/// anything else is read for its findings.
pub open spec fn photon_outcome_spec(stdout: Seq<char>, stderr: Seq<char>, exit_ok: bool) -> Result<
    (Seq<Seq<char>>, Seq<Seq<char>>),
    Seq<char>,
> {
    let combined = stdout + "\n"@ + stderr;
    let ls = lines(combined);
    if !any_summary(ls, ls.len() as int) && !exit_ok {
        Err(
            "Photon produced no analysis (is the jar correct?): "@ + match last_nonblank(ls, ls.len() as int) {
                Some(l) => l,
                None => "no output"@,
            },
        )
    } else {
        Ok((photon_errors(ls), photon_warnings(ls)))
    }
}

pub fn photon_outcome(stdout: &str, stderr: &str, exit_ok: bool) -> (r: Result<PhotonResult, String>)
    ensures
        match photon_outcome_spec(stdout@, stderr@, exit_ok) {
            Ok((errs, warns)) => r matches Ok(p) && string_views(p.errors@) == errs && string_views(
                p.warnings@,
            ) == warns,
            Err(m) => r matches Err(e) && e@ == m,
        },
{
    let mut combined = chars_of(stdout);
    push_str(&mut combined, "\n");
    push_str(&mut combined, stderr);
    let text = string_of(&combined);
    let ls = lines_chars(&combined);
    let ghost lv = views(ls@);
    let mut saw = false;
    let mut last: Option<usize> = None;
    let mut i: usize = 0;
    while i < ls.len()
        invariant
            i <= ls@.len(),
            lv == views(ls@),
            saw == any_summary(lv, i as int),
            match last {
                Some(k) => k < i && last_nonblank(lv, i as int) == Some(lv[k as int]),
                None => last_nonblank(lv, i as int) is None,
            },
        decreases ls.len() - i,
    {
        assert(lv[i as int] == ls@[i as int]@);
        let line = &ls[i];
        if contains_chars(line, &chars_of(" has ")) && (contains_chars(line, &chars_of(" errors and "))
            || contains_chars(line, &chars_of("no errors or warnings"))) {
            saw = true;
        }
        if trim_chars(line).len() > 0 {
            last = Some(i);
        }
        i += 1;
    }
    if !saw && !exit_ok {
        let mut m = chars_of("Photon produced no analysis (is the jar correct?): ");
        match last {
            Some(k) => push_all(&mut m, &ls[k]),
            None => push_str(&mut m, "no output"),
        }
        return Err(string_of(&m));
    }
    Ok(parse_photon_output(text.as_str()))
}

/// Each line is judged on its own: the findings of two runs of lines joined
/// are the findings of the first run followed by those of the second.
pub proof fn law_findings_of_joined_lines(a: Seq<Seq<char>>, b: Seq<Seq<char>>)
    ensures
        photon_errors(a + b) == photon_errors(a) + photon_errors(b),
        photon_warnings(a + b) == photon_warnings(a) + photon_warnings(b),
    decreases b.len(),
{
    if b.len() == 0 {
        assert(a + b =~= a);
        assert(photon_errors(b) =~= Seq::<Seq<char>>::empty());
        assert(photon_errors(a) + photon_errors(b) =~= photon_errors(a));
        assert(photon_warnings(a) + photon_warnings(b) =~= photon_warnings(a));
    } else {
        law_findings_of_joined_lines(a, b.drop_last());
        assert((a + b).drop_last() =~= a + b.drop_last());
        assert((a + b).last() == b.last());
        assert(photon_errors(a + b) =~= photon_errors(a) + photon_errors(b));
        assert(photon_warnings(a + b) =~= photon_warnings(a) + photon_warnings(b));
    }
}

/// Splitting text whose first `|p|` characters are `p` sees the rest as if it
/// stood alone, once the scan is past `p`.
proof fn lemma_split_shift(p: Seq<char>, b: Seq<char>, seps: Seq<char>, j: int, m: int)
    requires
        0 <= j <= m <= b.len(),
    ensures
        split_rec(p + b, seps, p.len() + j, p.len() + m) == split_rec(b, seps, j, m),
    decreases b.len() - m,
{
    let s = p + b;
    if m < b.len() {
        assert(s[p.len() + m] == b[m]);
        if seps.contains(b[m]) {
            lemma_split_shift(p, b, seps, m + 1, m + 1);
            assert(s.subrange(p.len() + j, p.len() + m) =~= b.subrange(j, m));
        } else {
            lemma_split_shift(p, b, seps, j, m + 1);
        }
    } else {
        assert(s.subrange(p.len() + j, s.len() as int) =~= b.subrange(j, b.len() as int));
    }
}

/// Text split at a separator character splits into the pieces before it and
/// the pieces after it.
proof fn lemma_split_join(a: Seq<char>, c: char, b: Seq<char>, seps: Seq<char>, start: int, i: int)
    requires
        seps.contains(c),
        0 <= start <= i <= a.len(),
    ensures
        split_rec(a + seq![c] + b, seps, start, i) == split_rec(a, seps, start, i) + split_any(b, seps),
    decreases a.len() - i,
{
    let s = a + seq![c] + b;
    let p = a + seq![c];
    assert(s =~= p + b);
    if i < a.len() {
        assert(s[i] == a[i]);
        if seps.contains(a[i]) {
            lemma_split_join(a, c, b, seps, i + 1, i + 1);
            assert(s.subrange(start, i) =~= a.subrange(start, i));
        } else {
            lemma_split_join(a, c, b, seps, start, i + 1);
        }
    } else {
        assert(s[i] == c);
        assert(s.subrange(start, i) =~= a.subrange(start, a.len() as int));
        lemma_split_shift(p, b, seps, 0, 0);
        assert(p.len() == i + 1);
    }
}

/// The lines of two texts joined by a line break are the lines of the first,
/// its line break included, followed by the lines of the second.
proof fn lemma_lines_join(a: Seq<char>, b: Seq<char>)
    ensures
        lines(a + seq!['\n'] + b) == lines(a + seq!['\n']) + lines(b),
{
    let seps = seq!['\n'];
    assert(seps.contains('\n')) by {
        assert(seps[0] == '\n');
    }
    lemma_split_join(a, '\n', b, seps, 0, 0);
    lemma_split_join(a, '\n', Seq::empty(), seps, 0, 0);
    assert(a + seq!['\n'] + Seq::<char>::empty() =~= a + seq!['\n']);
    let pa = split_rec(a, seps, 0, 0);
    let pb = split_any(b, seps);
    let pe = split_any(Seq::<char>::empty(), seps);
    assert(pe =~= seq![Seq::<char>::empty()]) by {
        assert(Seq::<char>::empty().subrange(0, 0) =~= Seq::<char>::empty());
    }
    crate::text::lemma_split_rec_nonempty(b, seps, 0, 0);
    let all = pa + pb;
    let n = all.len();
    assert(all.take(n - 1) =~= pa + pb.take(pb.len() - 1));
    assert(all[n - 1] == pb[pb.len() - 1]);
    let e = pa + pe;
    assert(e.take(e.len() - 1) =~= pa);
    assert(e[e.len() - 1] =~= Seq::<char>::empty());
    let f = |q: Seq<char>| strip_cr(q);
    assert((pa + pb.take(pb.len() - 1)).map_values(f) =~= pa.map_values(f) + pb.take(pb.len() - 1).map_values(f));
}

/// The last piece of a split runs to the end of the text.
proof fn lemma_split_last(s: Seq<char>, seps: Seq<char>, start: int, i: int)
    requires
        0 <= start <= i <= s.len(),
    ensures
        split_rec(s, seps, start, i).len() >= 1,
        exists|k: int|
            start <= k <= s.len() && split_rec(s, seps, start, i).last() == #[trigger] s.subrange(
                k,
                s.len() as int,
            ),
    decreases s.len() - i,
{
    crate::text::lemma_split_rec_nonempty(s, seps, start, i);
    if i >= s.len() {
        assert(split_rec(s, seps, start, i).last() == s.subrange(start, s.len() as int));
    } else if seps.contains(s[i]) {
        lemma_split_last(s, seps, i + 1, i + 1);
        let rest = split_rec(s, seps, i + 1, i + 1);
        assert((seq![s.subrange(start, i)] + rest).last() == rest.last());
    } else {
        lemma_split_last(s, seps, start, i + 1);
    }
}

/// An empty line reports nothing.
proof fn lemma_empty_line_reports_nothing()
    ensures
        photon_finding(Seq::empty()) is None,
{
    reveal_strlit(" has ");
}

/// A carriage return after the text moves no occurrence of " has ".
proof fn lemma_find_has_cr(s: Seq<char>, from: int)
    requires
        0 <= from,
    ensures
        find_from(s.push('\r'), " has "@, from) == find_from(s, " has "@, from),
    decreases s.len() + 1 - from,
{
    reveal_strlit(" has ");
    let t = s.push('\r');
    let p = " has "@;
    if from + 5 <= s.len() {
        assert(t.subrange(from, from + 5) =~= s.subrange(from, from + 5));
        lemma_find_has_cr(s, from + 1);
    } else if from + 5 == s.len() + 1 {
        assert(t.subrange(from, from + 5)[4] == '\r');
        assert(p[4] == ' ');
        assert(!occurs_at(t, p, from));
        assert(find_from(t, p, from + 1) is None);
    }
}

/// Leading white space is counted the same with a character after the text,
/// unless the text is all white space.
proof fn lemma_lead_white_push(x: Seq<char>, c: char)
    ensures
        lead_white(x) < x.len() ==> lead_white(x.push(c)) == lead_white(x),
        lead_white(x) == x.len() && is_white(c) ==> lead_white(x.push(c)) == x.len() + 1,
    decreases x.len(),
{
    crate::text::lemma_lead_white(x);
    if x.len() > 0 {
        assert(x.push(c).drop_first() =~= x.drop_first().push(c));
        assert(x.push(c)[0] == x[0]);
        lemma_lead_white_push(x.drop_first(), c);
    } else {
        assert(x.push(c).drop_first() =~= Seq::<char>::empty());
        assert(x.push(c)[0] == c);
        assert(lead_white(Seq::<char>::empty()) == 0);
    }
}

/// Trimming drops a carriage return at the end.
proof fn lemma_trim_cr(x: Seq<char>)
    ensures
        trim(x.push('\r')) == trim(x),
{
    crate::text::lemma_lead_white(x);
    lemma_lead_white_push(x, '\r');
    let t = x.push('\r');
    if lead_white(x) < x.len() {
        let y = trim_start(x);
        assert(trim_start(t) =~= y.push('\r'));
        assert(y.push('\r').drop_last() =~= y);
        assert(trail_white(y.push('\r')) == 1 + trail_white(y));
        crate::text::lemma_trail_white(y);
        assert(trim_end(y.push('\r')) =~= trim_end(y));
    } else {
        assert(trim_start(t) =~= Seq::<char>::empty());
        assert(trim_start(x) =~= Seq::<char>::empty());
    }
}

/// A carriage return at the end of a line changes nothing the line reports.
proof fn lemma_finding_cr(s: Seq<char>)
    ensures
        photon_finding(s.push('\r')) == photon_finding(s),
{
    lemma_find_has_cr(s, 0);
    reveal_strlit(" has ");
    let t = s.push('\r');
    match find(s, " has "@) {
        None => {},
        Some(idx) => {
            lemma_find_from_bounds(s, " has "@, 0);
            assert(t.skip(idx + 5) =~= s.skip(idx + 5).push('\r'));
            lemma_trim_cr(s.skip(idx + 5));
            assert(t.take(idx) =~= s.take(idx));
        },
    }
}

/// A line break at the end of an output adds no finding.
proof fn lemma_trailing_break(a: Seq<char>)
    ensures
        photon_errors(lines(a + seq!['\n'])) == photon_errors(lines(a)),
        photon_warnings(lines(a + seq!['\n'])) == photon_warnings(lines(a)),
{
    let seps = seq!['\n'];
    assert(seps.contains('\n')) by {
        assert(seps[0] == '\n');
    }
    lemma_split_join(a, '\n', Seq::empty(), seps, 0, 0);
    assert(a + seq!['\n'] + Seq::<char>::empty() =~= a + seq!['\n']);
    let pa = split_rec(a, seps, 0, 0);
    let pe = split_any(Seq::<char>::empty(), seps);
    assert(pe =~= seq![Seq::<char>::empty()]) by {
        assert(Seq::<char>::empty().subrange(0, 0) =~= Seq::<char>::empty());
    }
    lemma_split_last(a, seps, 0, 0);
    let e = pa + pe;
    assert(e.take(e.len() - 1) =~= pa);
    assert(e[e.len() - 1] =~= Seq::<char>::empty());
    let f = |q: Seq<char>| strip_cr(q);
    let n = pa.len();
    let last = pa[n - 1];
    assert(lines(a + seq!['\n']) =~= pa.map_values(f));
    assert(pa =~= pa.take(n - 1).push(last));
    assert(pa.map_values(f) =~= pa.take(n - 1).map_values(f).push(strip_cr(last)));
    if last.len() > 0 {
        assert(lines(a) =~= pa.take(n - 1).map_values(f).push(last));
        if last.last() == '\r' {
            let u = last.drop_last();
            assert(last =~= u.push('\r'));
            lemma_finding_cr(u);
            let q = pa.take(n - 1).map_values(f);
            assert(q.push(u).drop_last() =~= q);
            assert(q.push(last).drop_last() =~= q);
        } else {
            assert(strip_cr(last) == last);
        }
    } else {
        assert(strip_cr(last) =~= Seq::<char>::empty());
        assert(lines(a) =~= pa.take(n - 1).map_values(f));
        let la = lines(a);
        let lb = la.push(Seq::<char>::empty());
        assert(lb.drop_last() =~= la);
        lemma_empty_line_reports_nothing();
    }
}

/// Each line is judged on its own: the findings of two outputs joined by a
/// line break are the findings of the first followed by those of the second.
pub proof fn law_findings_of_joined_outputs(a: Seq<char>, b: Seq<char>)
    ensures
        photon_errors(lines(a + seq!['\n'] + b)) == photon_errors(lines(a)) + photon_errors(lines(b)),
        photon_warnings(lines(a + seq!['\n'] + b)) == photon_warnings(lines(a)) + photon_warnings(
            lines(b),
        ),
{
    lemma_lines_join(a, b);
    law_findings_of_joined_lines(lines(a + seq!['\n']), lines(b));
    lemma_trailing_break(a);
}

} // verus!
