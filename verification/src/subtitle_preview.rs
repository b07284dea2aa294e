//! Timed text as the preview player shows it: a SubRip document built from
//! the cues the package's timed-text track holds.
use vstd::prelude::*;
use crate::source_edits::TimedTextCue;
use crate::text::{
    chars_of, decimal, decimal_chars, join, join_chars, padded_decimal, push_all, push_str,
    string_of, string_views, views, zero_pad,
};

verus! {

/// SubRip's timestamp of `ms` milliseconds, `HH:MM:SS,mmm`; the hours field
/// widens past 99.
pub open spec fn srt_time(ms: nat) -> Seq<char> {
    let seconds = ms / 1000;
    zero_pad(decimal(seconds / 3600), 2) + ":"@ + zero_pad(decimal((seconds / 60) % 60), 2) + ":"@
        + zero_pad(decimal(seconds % 60), 2) + ","@ + zero_pad(decimal(ms % 1000), 3)
}

pub fn format_srt_time(milliseconds: u64) -> (r: String)
    ensures
        r@ == srt_time(milliseconds as nat),
{
    let seconds = milliseconds / 1000;
    let mut out = padded_decimal(seconds / 3600, 2);
    push_str(&mut out, ":");
    push_all(&mut out, &padded_decimal((seconds / 60) % 60, 2));
    push_str(&mut out, ":");
    push_all(&mut out, &padded_decimal(seconds % 60, 2));
    push_str(&mut out, ",");
    push_all(&mut out, &padded_decimal(milliseconds % 1000, 3));
    string_of(&out)
}

/// The SubRip block of the cue numbered `number`.
pub open spec fn srt_block(number: nat, cue: TimedTextCue) -> Seq<char> {
    decimal(number) + "\n"@ + srt_time(cue.start_ms as nat) + " --> "@ + srt_time(
        cue.end_ms as nat,
    ) + "\n"@ + join(string_views(cue.lines@), "\n"@) + "\n\n"@
}

/// The SubRip blocks of `cues`, numbered from one.
pub open spec fn srt_blocks(cues: Seq<TimedTextCue>) -> Seq<char>
    decreases cues.len(),
{
    if cues.len() == 0 {
        Seq::empty()
    } else {
        srt_blocks(cues.drop_last()) + srt_block(cues.len(), cues.last())
    }
}

fn lines_chars_of(lines: &Vec<String>) -> (r: Vec<Vec<char>>)
    ensures
        views(r@) == string_views(lines@),
{
    let mut r: Vec<Vec<char>> = Vec::new();
    let mut i: usize = 0;
    while i < lines.len()
        invariant
            i <= lines.len(),
            views(r@) == string_views(lines@.take(i as int)),
        decreases lines.len() - i,
    {
        let ghost before = views(r@);
        r.push(chars_of(lines[i].as_str()));
        i += 1;
        assert(views(r@) =~= before.push(lines@[i - 1]@));
        assert(string_views(lines@.take(i as int)) =~= string_views(lines@.take(i - 1)).push(
            lines@[i - 1]@,
        ));
    }
    assert(lines@.take(lines.len() as int) =~= lines@);
    r
}

/// The cues as a SubRip document, numbered from one.
pub fn srt_document(cues: &Vec<TimedTextCue>) -> (r: String)
    ensures
        r@ == srt_blocks(cues@),
{
    let mut out: Vec<char> = Vec::new();
    let mut i: usize = 0;
    assert(srt_blocks(cues@.take(0)) =~= Seq::<char>::empty());
    while i < cues.len()
        invariant
            i <= cues.len(),
            out@ == srt_blocks(cues@.take(i as int)),
        decreases cues.len() - i,
    {
        let ghost before = out@;
        let cue = &cues[i];
        push_all(&mut out, &decimal_chars((i + 1) as u64));
        push_str(&mut out, "\n");
        push_str(&mut out, format_srt_time(cue.start_ms).as_str());
        push_str(&mut out, " --> ");
        push_str(&mut out, format_srt_time(cue.end_ms).as_str());
        push_str(&mut out, "\n");
        push_all(&mut out, &join_chars(&lines_chars_of(&cue.lines), &chars_of("\n")));
        push_str(&mut out, "\n\n");
        proof {
            assert(cues@.take(i + 1).drop_last() =~= cues@.take(i as int));
            assert(cues@.take(i + 1).last() == cues@[i as int]);
            assert(out@ =~= before + srt_block((i + 1) as nat, cues@[i as int]));
        }
        i += 1;
    }
    assert(cues@.take(cues.len() as int) =~= cues@);
    string_of(&out)
}

} // verus!
