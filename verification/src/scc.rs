//! Scenarist Closed Caption (.scc) CEA-608 decoding, pop-on captions only.
//!
//! SCC timecodes are interpreted as 29.97fps (30000/1001), applying drop-frame
//! frame-count correction when the frames separator is ';'. Roll-up, paint-on,
//! and text-mode captions fail loud: only the common pop-on case is handled.
use vstd::prelude::*;
use crate::subtitle_convert::SrtCue;
use crate::text::{
    all_ascii_digits, chars_of, contains, contains_str, is_white, is_whitespace, join,
    join_chars, lines, lines_chars, parse_u64, parse_unsigned, push_all, slice, split_any,
    split_any_chars, starts_with, starts_with_str, string_of, trim, trim_chars, trim_end,
    trim_end_chars, unsigned_digits, views, words, words_chars,
};

verus! {

// ---------------------------------------------------------------------------
// Timecodes
// ---------------------------------------------------------------------------

pub open spec fn timecode_error(tc: Seq<char>) -> Seq<char> {
    "invalid SCC timecode: "@ + tc
}

/// Frames from 00:00:00:00 at 30 frames a second, without drop-frame.
pub open spec fn raw_frames(hh: nat, mm: nat, ss: nat, ff: nat) -> nat {
    (hh * 3600 + mm * 60 + ss) * 30 + ff
}

/// The frame numbers drop-frame timecode skips before `hh:mm`: two a minute,
/// except every tenth minute.
pub open spec fn dropped_frames(hh: nat, mm: nat) -> nat {
    let t = hh * 60 + mm;
    2 * (t - t / 10) as nat
}

/// An SCC timecode `HH:MM:SS:FF` (`;FF` or `,FF` for drop-frame) in
/// milliseconds at 29.97 fps, or its refusal. A timecode whose frame count
/// does not fit the arithmetic of `u64` is refused like a malformed one.
pub open spec fn timecode_ms(tc: Seq<char>) -> Result<u64, Seq<char>> {
    let drop = contains(tc, ";"@) || contains(tc, ","@);
    let parts = split_any(tc, seq![':', ';', ',']);
    if parts.len() != 4 {
        Err(timecode_error(tc))
    } else {
        match (
            parse_unsigned(parts[0], u64::MAX as nat),
            parse_unsigned(parts[1], u64::MAX as nat),
            parse_unsigned(parts[2], u64::MAX as nat),
            parse_unsigned(parts[3], u64::MAX as nat),
        ) {
            (Some(hh), Some(mm), Some(ss), Some(ff)) => {
                let raw = raw_frames(hh, mm, ss, ff);
                let frames: nat = if drop {
                    (raw - dropped_frames(hh, mm)) as nat
                } else {
                    raw
                };
                if raw > u64::MAX || frames * 1001 > u64::MAX {
                    Err(timecode_error(tc))
                } else {
                    Ok((frames * 1001 / 30) as u64)
                }
            },
            _ => Err(timecode_error(tc)),
        }
    }
}

fn timecode_err(tc: &[char]) -> (r: String)
    ensures
        r@ == timecode_error(tc@),
{
    let mut m = chars_of("invalid SCC timecode: ");
    push_all(&mut m, tc);
    string_of(&m)
}

/// SCC HH:MM:SS:FF (or ;FF for drop-frame) to milliseconds at 29.97fps.
pub fn parse_timecode(tc: &str) -> (r: Result<u64, String>)
    ensures
        match (r, timecode_ms(tc@)) {
            (Ok(a), Ok(b)) => a == b,
            (Err(e), Err(m)) => e@ == m,
            _ => false,
        },
        r matches Ok(v) ==> v <= u64::MAX / 30,
{
    let cs = chars_of(tc);
    parse_timecode_chars(&cs)
}

fn parse_timecode_chars(cs: &[char]) -> (r: Result<u64, String>)
    ensures
        match (r, timecode_ms(cs@)) {
            (Ok(a), Ok(b)) => a == b,
            (Err(e), Err(m)) => e@ == m,
            _ => false,
        },
        r matches Ok(v) ==> v <= u64::MAX / 30,
{
    let drop = contains_str(cs, ";") || contains_str(cs, ",");
    let seps: Vec<char> = vec![':', ';', ','];
    assert(seps@ == seq![':', ';', ',']);
    let parts = split_any_chars(cs, &seps);
    if parts.len() != 4 {
        return Err(timecode_err(cs));
    }
    assert(views(parts@)[0] == parts@[0]@);
    assert(views(parts@)[1] == parts@[1]@);
    assert(views(parts@)[2] == parts@[2]@);
    assert(views(parts@)[3] == parts@[3]@);
    let hh = match parse_u64(&parts[0]) {
        Some(v) => v,
        None => return Err(timecode_err(cs)),
    };
    let mm = match parse_u64(&parts[1]) {
        Some(v) => v,
        None => return Err(timecode_err(cs)),
    };
    let ss = match parse_u64(&parts[2]) {
        Some(v) => v,
        None => return Err(timecode_err(cs)),
    };
    let ff = match parse_u64(&parts[3]) {
        Some(v) => v,
        None => return Err(timecode_err(cs)),
    };
    let ghost raw = raw_frames(hh as nat, mm as nat, ss as nat, ff as nat);
    let a = match hh.checked_mul(3600) {
        Some(v) => v,
        None => return Err(timecode_err(cs)),
    };
    let b = match mm.checked_mul(60) {
        Some(v) => v,
        None => return Err(timecode_err(cs)),
    };
    let c = match a.checked_add(b) {
        Some(v) => v,
        None => return Err(timecode_err(cs)),
    };
    let d = match c.checked_add(ss) {
        Some(v) => v,
        None => return Err(timecode_err(cs)),
    };
    let e = match d.checked_mul(30) {
        Some(v) => v,
        None => return Err(timecode_err(cs)),
    };
    let total = match e.checked_add(ff) {
        Some(v) => v,
        None => return Err(timecode_err(cs)),
    };
    assert(total == raw);
    let frames = if drop {
        let t = hh * 60 + mm;
        total - 2 * (t - t / 10)
    } else {
        total
    };
    match frames.checked_mul(1001) {
        Some(fm) => {
            assert(fm / 30 <= u64::MAX / 30) by (nonlinear_arith)
                requires
                    fm <= u64::MAX,
            ;
            Ok(fm / 30)
        },
        None => Err(timecode_err(cs)),
    }
}

// ---------------------------------------------------------------------------
// Hex words
// ---------------------------------------------------------------------------

pub open spec fn is_hex_digit(c: char) -> bool {
    ('0' <= c && c <= '9') || ('a' <= c && c <= 'f') || ('A' <= c && c <= 'F')
}

pub open spec fn hex_value(c: char) -> nat {
    if '0' <= c && c <= '9' {
        (c as u32 - '0' as u32) as nat
    } else if 'a' <= c && c <= 'f' {
        (c as u32 - 'a' as u32 + 10) as nat
    } else {
        (c as u32 - 'A' as u32 + 10) as nat
    }
}

pub open spec fn hex_digits_value(s: Seq<char>) -> nat
    decreases s.len(),
{
    if s.len() == 0 {
        0
    } else {
        hex_digits_value(s.drop_last()) * 16 + hex_value(s.last())
    }
}

pub open spec fn all_hex(s: Seq<char>) -> bool {
    forall|i: int| 0 <= i < s.len() ==> is_hex_digit(#[trigger] s[i])
}

/// What `u16::from_str_radix(s, 16)` gives: an optional `+`, then at least
/// one hex digit, of a value that fits.
pub open spec fn hex_u16(s: Seq<char>) -> Option<u16> {
    let d = unsigned_digits(s);
    if d.len() > 0 && all_hex(d) && hex_digits_value(d) <= 0xffff {
        Some(hex_digits_value(d) as u16)
    } else {
        None
    }
}

proof fn lemma_hex_prefix_monotone(d: Seq<char>, n: int)
    requires
        0 <= n <= d.len(),
    ensures
        hex_digits_value(d.take(n)) <= hex_digits_value(d),
    decreases d.len() - n,
{
    if n < d.len() {
        lemma_hex_prefix_monotone(d, n + 1);
        assert(d.take(n + 1).drop_last() =~= d.take(n));
    } else {
        assert(d.take(n) =~= d);
    }
}

fn hex_digit(c: char) -> (r: Option<u32>)
    ensures
        match r {
            Some(v) => is_hex_digit(c) && v == hex_value(c),
            None => !is_hex_digit(c),
        },
{
    if '0' <= c && c <= '9' {
        Some(c as u32 - '0' as u32)
    } else if 'a' <= c && c <= 'f' {
        Some(c as u32 - 'a' as u32 + 10)
    } else if 'A' <= c && c <= 'F' {
        Some(c as u32 - 'A' as u32 + 10)
    } else {
        None
    }
}

/// Parse a hexadecimal `u16`.
pub fn parse_hex_u16(s: &[char]) -> (r: Option<u16>)
    ensures
        r == hex_u16(s@),
{
    let start: usize = if s.len() > 0 && s[0] == '+' {
        1
    } else {
        0
    };
    let ghost d = unsigned_digits(s@);
    assert(d =~= s@.skip(start as int));
    if start >= s.len() {
        assert(d.len() == 0);
        return None;
    }
    let mut v: u32 = 0;
    let mut i: usize = start;
    while i < s.len()
        invariant
            start <= i <= s.len(),
            start < s.len(),
            d == s@.skip(start as int),
            d == unsigned_digits(s@),
            all_hex(d.take(i - start)),
            v == hex_digits_value(d.take(i - start)),
            v <= 0xffff,
        decreases s.len() - i,
    {
        let ghost k = i - start;
        assert(d.take(k + 1).drop_last() =~= d.take(k));
        match hex_digit(s[i]) {
            None => {
                assert(!is_hex_digit(d[k]));
                assert(!all_hex(d));
                return None;
            },
            Some(x) => {
                let nv = v * 16 + x;
                assert(d.take(k + 1).last() == d[k]);
                assert(hex_digits_value(d.take(k + 1)) == v * 16 + x);
                if nv > 0xffff {
                    proof {
                        if all_hex(d) {
                            lemma_hex_prefix_monotone(d, k + 1);
                        }
                    }
                    return None;
                }
                v = nv;
            },
        }
        i += 1;
    }
    assert(d.take(s.len() - start) =~= d);
    Some(v as u16)
}

// ---------------------------------------------------------------------------
// Characters
// ---------------------------------------------------------------------------

/// CEA-608 basic character set (0x20-0x7f), with the standard non-ASCII slots.
pub open spec fn basic_char_spec(b: u8) -> Option<char> {
    if b < 0x20 || b > 0x7f {
        None
    } else if b == 0x2a {
        Some('á')
    } else if b == 0x5c {
        Some('é')
    } else if b == 0x5e {
        Some('í')
    } else if b == 0x5f {
        Some('ó')
    } else if b == 0x60 {
        Some('ú')
    } else if b == 0x7b {
        Some('ç')
    } else if b == 0x7c {
        Some('÷')
    } else if b == 0x7d {
        Some('Ñ')
    } else if b == 0x7e {
        Some('ñ')
    } else if b == 0x7f {
        Some('█')
    } else {
        Some(b as char)
    }
}

/// CEA-608 basic character set (0x20-0x7f), with the standard non-ASCII slots.
pub fn basic_char(b: u8) -> (r: Option<char>)
    ensures
        r == basic_char_spec(b),
{
    if b < 0x20 || b > 0x7f {
        None
    } else if b == 0x2a {
        Some('á')
    } else if b == 0x5c {
        Some('é')
    } else if b == 0x5e {
        Some('í')
    } else if b == 0x5f {
        Some('ó')
    } else if b == 0x60 {
        Some('ú')
    } else if b == 0x7b {
        Some('ç')
    } else if b == 0x7c {
        Some('÷')
    } else if b == 0x7d {
        Some('Ñ')
    } else if b == 0x7e {
        Some('ñ')
    } else if b == 0x7f {
        Some('█')
    } else {
        Some(b as char)
    }
}

/// CEA-608 special character set (0x1130-0x113f), by its second byte.
pub open spec fn special_char_spec(b1: u8) -> Option<char> {
    if b1 == 0x30 {
        Some('®')
    } else if b1 == 0x31 {
        Some('°')
    } else if b1 == 0x32 {
        Some('½')
    } else if b1 == 0x33 {
        Some('¿')
    } else if b1 == 0x34 {
        Some('™')
    } else if b1 == 0x35 {
        Some('¢')
    } else if b1 == 0x36 {
        Some('£')
    } else if b1 == 0x37 {
        Some('♪')
    } else if b1 == 0x38 {
        Some('à')
    } else if b1 == 0x39 {
        Some(' ')
    } else if b1 == 0x3a {
        Some('è')
    } else if b1 == 0x3b {
        Some('â')
    } else if b1 == 0x3c {
        Some('ê')
    } else if b1 == 0x3d {
        Some('î')
    } else if b1 == 0x3e {
        Some('ô')
    } else if b1 == 0x3f {
        Some('û')
    } else {
        None
    }
}

/// CEA-608 special character set (0x1130-0x113f), by its second byte.
pub fn special_char(b1: u8) -> (r: Option<char>)
    ensures
        r == special_char_spec(b1),
{
    if b1 == 0x30 {
        Some('®')
    } else if b1 == 0x31 {
        Some('°')
    } else if b1 == 0x32 {
        Some('½')
    } else if b1 == 0x33 {
        Some('¿')
    } else if b1 == 0x34 {
        Some('™')
    } else if b1 == 0x35 {
        Some('¢')
    } else if b1 == 0x36 {
        Some('£')
    } else if b1 == 0x37 {
        Some('♪')
    } else if b1 == 0x38 {
        Some('à')
    } else if b1 == 0x39 {
        Some(' ')
    } else if b1 == 0x3a {
        Some('è')
    } else if b1 == 0x3b {
        Some('â')
    } else if b1 == 0x3c {
        Some('ê')
    } else if b1 == 0x3d {
        Some('î')
    } else if b1 == 0x3e {
        Some('ô')
    } else if b1 == 0x3f {
        Some('û')
    } else {
        None
    }
}

// ---------------------------------------------------------------------------
// The decoder
// ---------------------------------------------------------------------------

/// A cue as the decoder sees it: index, start, end, text.
pub type CueModel = (u32, u64, u64, Seq<char>);

pub open spec fn cue_view(c: SrtCue) -> CueModel {
    (c.index, c.start_ms, c.end_ms, c.text@)
}

pub open spec fn cue_views(v: Seq<SrtCue>) -> Seq<CueModel> {
    v.map_values(|c: SrtCue| cue_view(c))
}

/// The decoder's state: pop-on loading enabled, the rows being loaded, the
/// caption on screen and since when, the cues so far, the last control code
/// (codes come doubled), and the last line's timecode.
pub struct DecState {
    pub popon: bool,
    pub back: Seq<Seq<char>>,
    pub displayed: Option<(u64, Seq<char>)>,
    pub cues: Seq<CueModel>,
    pub prev_ctrl: Option<u16>,
    pub last_tc: u64,
}

pub open spec fn dec_init() -> DecState {
    DecState {
        popon: false,
        back: Seq::empty(),
        displayed: None,
        cues: Seq::empty(),
        prev_ctrl: None,
        last_tc: 0,
    }
}

/// The 1-based index the next cue gets, counted in `u32`.
pub open spec fn cue_index(n: nat) -> u32 {
    if n % 0x1_0000_0000 == 0xffff_ffff {
        0
    } else {
        (n % 0x1_0000_0000 + 1) as u32
    }
}

/// A caption leaves a cue only where it has text and a positive span.
pub open spec fn emit_spec(st: DecState, start: u64, end: u64, text: Seq<char>) -> DecState {
    if trim(text).len() == 0 || end <= start {
        st
    } else {
        DecState { cues: st.cues.push((cue_index(st.cues.len()), start, end, text)), ..st }
    }
}

/// The loaded rows that hold text, each without trailing white space.
pub open spec fn kept_rows(back: Seq<Seq<char>>) -> Seq<Seq<char>>
    decreases back.len(),
{
    if back.len() == 0 {
        Seq::empty()
    } else {
        let t = trim_end(back.last());
        if t.len() > 0 {
            kept_rows(back.drop_last()).push(t)
        } else {
            kept_rows(back.drop_last())
        }
    }
}

pub open spec fn back_text_spec(back: Seq<Seq<char>>) -> Seq<char> {
    join(kept_rows(back), "\n"@)
}

/// Take the caption off screen at `tc`, leaving its cue.
pub open spec fn take_down(st: DecState, tc: u64) -> DecState {
    match st.displayed {
        Some((start, text)) => emit_spec(DecState { displayed: None, ..st }, start, tc, text),
        None => st,
    }
}

/// End of caption: the loaded rows go on screen at `tc`.
pub open spec fn eoc_spec(st: DecState, tc: u64) -> DecState {
    let s = take_down(st, tc);
    DecState { displayed: Some((tc, back_text_spec(st.back))), back: Seq::empty(), ..s }
}

/// Append `c` to the last loaded row, while loading pop-on.
pub open spec fn push_spec(st: DecState, c: char) -> DecState {
    if !st.popon {
        st
    } else {
        let b = if st.back.len() == 0 {
            seq![Seq::<char>::empty()]
        } else {
            st.back
        };
        DecState { back: b.drop_last().push(b.last().push(c)), ..st }
    }
}

pub open spec fn push_opt(st: DecState, c: Option<char>) -> DecState {
    match c {
        Some(ch) => push_spec(st, ch),
        None => st,
    }
}

pub open spec fn backspace_spec(st: DecState) -> DecState {
    if st.back.len() == 0 {
        st
    } else {
        let l = st.back.last();
        let l2 = if l.len() > 0 {
            l.drop_last()
        } else {
            l
        };
        DecState { back: st.back.drop_last().push(l2), ..st }
    }
}

/// A preamble address code starts a new row under a row that has text.
pub open spec fn pac_spec(st: DecState) -> DecState {
    if st.back.len() > 0 && st.back.last().len() > 0 {
        DecState { back: st.back.push(Seq::empty()), ..st }
    } else {
        st
    }
}

pub open spec fn rollup_message() -> Seq<char> {
    "SCC roll-up captions are not supported (only pop-on)"@
}

pub open spec fn painton_message() -> Seq<char> {
    "SCC paint-on captions are not supported (only pop-on)"@
}

pub open spec fn textmode_message() -> Seq<char> {
    "SCC text-mode captions are not supported (only pop-on)"@
}

/// A control code (first byte 0x10-0x1f, parity stripped).
pub open spec fn control_spec(st: DecState, b0: u8, b1: u8, tc: u64) -> Result<DecState, Seq<char>> {
    if b0 < 0x10 || b0 > 0x17 {
        Ok(st)
    } else if b0 == 0x14 && 0x20 <= b1 && b1 <= 0x2f {
        if b1 == 0x20 {
            Ok(DecState { popon: true, ..st })
        } else if b1 == 0x2e {
            Ok(DecState { back: Seq::empty(), ..st })
        } else if b1 == 0x2f {
            Ok(eoc_spec(st, tc))
        } else if b1 == 0x2c {
            Ok(take_down(st, tc))
        } else if b1 == 0x21 {
            Ok(backspace_spec(st))
        } else if (0x25 <= b1 && b1 <= 0x27) || b1 == 0x2d {
            Err(rollup_message())
        } else if b1 == 0x29 {
            Err(painton_message())
        } else if b1 == 0x2a || b1 == 0x2b {
            Err(textmode_message())
        } else {
            Ok(st)
        }
    } else if 0x40 <= b1 && b1 <= 0x7f {
        Ok(pac_spec(st))
    } else if b0 == 0x11 && 0x30 <= b1 && b1 <= 0x3f {
        Ok(push_opt(st, special_char_spec(b1)))
    } else {
        Ok(st)
    }
}

/// One 16-bit SCC word at timecode `tc` (ms).
pub open spec fn feed_spec(st: DecState, raw: u16, tc: u64) -> Result<DecState, Seq<char>> {
    let b0 = ((raw / 256) % 128) as u8;
    let b1 = (raw % 128) as u8;
    let stripped = (b0 * 256 + b1) as u16;
    if 0x10 <= b0 && b0 <= 0x1f {
        if st.prev_ctrl == Some(stripped) {
            Ok(DecState { prev_ctrl: None, ..st })
        } else {
            control_spec(DecState { prev_ctrl: Some(stripped), ..st }, b0, b1, tc)
        }
    } else {
        let s1 = DecState { prev_ctrl: None, ..st };
        Ok(push_opt(push_opt(s1, basic_char_spec(b0)), basic_char_spec(b1)))
    }
}

/// At the end of the file, a caption still on screen stays up until the last
/// timecode, and at least two seconds.
pub open spec fn finish_spec(st: DecState) -> DecState {
    match st.displayed {
        Some((start, text)) => {
            let end: u64 = if st.last_tc >= start + 2000 {
                st.last_tc
            } else {
                (start + 2000) as u64
            };
            emit_spec(DecState { displayed: None, ..st }, start, end, text)
        },
        None => st,
    }
}

/// Timestamps the decoder holds leave room for the two-second hold.
pub open spec fn state_ok(st: DecState) -> bool {
    st.displayed matches Some((s, _)) ==> s <= u64::MAX / 30
}

struct Decoder {
    popon: bool,
    back: Vec<Vec<char>>,
    displayed: Option<(u64, Vec<char>)>,
    cues: Vec<SrtCue>,
    prev_ctrl: Option<u16>,
    last_tc: u64,
}

spec fn dec_view(d: &Decoder) -> DecState {
    DecState {
        popon: d.popon,
        back: views(d.back@),
        displayed: match d.displayed {
            Some((s, t)) => Some((s, t@)),
            None => None,
        },
        cues: cue_views(d.cues@),
        prev_ctrl: d.prev_ctrl,
        last_tc: d.last_tc,
    }
}

fn is_blank(t: &[char]) -> (r: bool)
    ensures
        r == (trim(t@).len() == 0),
{
    trim_chars(t).len() == 0
}

impl Decoder {
    fn new() -> (r: Self)
        ensures
            dec_view(&r) == dec_init(),
    {
        let d = Decoder {
            popon: false,
            back: Vec::new(),
            displayed: None,
            cues: Vec::new(),
            prev_ctrl: None,
            last_tc: 0,
        };
        assert(views(d.back@) =~= Seq::<Seq<char>>::empty());
        assert(cue_views(d.cues@) =~= Seq::<CueModel>::empty());
        d
    }

    fn emit(&mut self, start: u64, end: u64, text: Vec<char>)
        ensures
            dec_view(final(self)) == emit_spec(dec_view(old(self)), start, end, text@),
    {
        if is_blank(&text) || end <= start {
            return;
        }
        let m: u64 = (self.cues.len() as u64) % 0x1_0000_0000;
        let index: u32 = if m == 0xffff_ffff {
            0
        } else {
            (m + 1) as u32
        };
        let ghost before = cue_views(self.cues@);
        let cue = SrtCue { index, start_ms: start, end_ms: end, text: string_of(&text) };
        self.cues.push(cue);
        assert(cue_views(self.cues@) =~= before.push((index, start, end, text@)));
    }

    fn take_down(&mut self, tc: u64)
        ensures
            dec_view(final(self)) == take_down(dec_view(old(self)), tc),
    {
        let shown = self.displayed.take();
        match shown {
            Some((start, text)) => {
                self.emit(start, tc, text);
            },
            None => {},
        }
    }

    fn back_text(&self) -> (r: Vec<char>)
        ensures
            r@ == back_text_spec(views(self.back@)),
    {
        let mut kept: Vec<Vec<char>> = Vec::new();
        let mut i: usize = 0;
        while i < self.back.len()
            invariant
                i <= self.back.len(),
                views(kept@) == kept_rows(views(self.back@).take(i as int)),
            decreases self.back.len() - i,
        {
            let t = trim_end_chars(&self.back[i]);
            let ghost pre = views(self.back@).take(i + 1);
            assert(pre.drop_last() =~= views(self.back@).take(i as int));
            assert(pre.last() == self.back@[i as int]@);
            if t.len() > 0 {
                let ghost before = views(kept@);
                kept.push(t);
                assert(views(kept@) =~= before.push(t@));
            }
            i += 1;
        }
        assert(views(self.back@).take(self.back.len() as int) =~= views(self.back@));
        let nl = chars_of("\n");
        join_chars(&kept, &nl)
    }

    fn end_of_caption(&mut self, tc: u64)
        ensures
            dec_view(final(self)) == eoc_spec(dec_view(old(self)), tc),
    {
        let text = self.back_text();
        self.take_down(tc);
        self.displayed = Some((tc, text));
        self.back = Vec::new();
        assert(views(self.back@) =~= Seq::<Seq<char>>::empty());
    }

    fn push(&mut self, c: char)
        ensures
            dec_view(final(self)) == push_spec(dec_view(old(self)), c),
    {
        if !self.popon {
            return;
        }
        if self.back.len() == 0 {
            self.back.push(Vec::new());
            assert(views(self.back@) =~= seq![Seq::<char>::empty()]);
        }
        let ghost b = views(self.back@);
        let mut l = self.back.pop().unwrap();
        assert(views(self.back@) =~= b.drop_last());
        l.push(c);
        self.back.push(l);
        assert(views(self.back@) =~= b.drop_last().push(b.last().push(c)));
    }

    fn push_opt(&mut self, c: Option<char>)
        ensures
            dec_view(final(self)) == push_opt(dec_view(old(self)), c),
    {
        match c {
            Some(ch) => self.push(ch),
            None => {},
        }
    }

    fn backspace(&mut self)
        ensures
            dec_view(final(self)) == backspace_spec(dec_view(old(self))),
    {
        if self.back.len() == 0 {
            return;
        }
        let ghost b = views(self.back@);
        let mut l = self.back.pop().unwrap();
        assert(views(self.back@) =~= b.drop_last());
        if l.len() > 0 {
            l.pop();
        }
        self.back.push(l);
        assert(views(self.back@) =~= backspace_spec(dec_view(old(self))).back);
    }

    fn pac(&mut self)
        ensures
            dec_view(final(self)) == pac_spec(dec_view(old(self))),
    {
        let n = self.back.len();
        if n > 0 && self.back[n - 1].len() > 0 {
            let ghost b = views(self.back@);
            self.back.push(Vec::new());
            assert(views(self.back@) =~= b.push(Seq::empty()));
        }
    }

    fn control(&mut self, b0: u8, b1: u8, tc: u64) -> (r: Result<(), String>)
        requires
            state_ok(dec_view(old(self))),
            tc <= u64::MAX / 30,
        ensures
            match control_spec(dec_view(old(self)), b0, b1, tc) {
                Ok(s) => r is Ok && dec_view(final(self)) == s,
                Err(m) => r matches Err(e) && e@ == m,
            },
            r is Ok ==> state_ok(dec_view(final(self))),
    {
        if b0 < 0x10 || b0 > 0x17 {
            return Ok(());
        }
        if b0 == 0x14 && 0x20 <= b1 && b1 <= 0x2f {
            if b1 == 0x20 {
                self.popon = true;
            } else if b1 == 0x2e {
                self.back = Vec::new();
                assert(views(self.back@) =~= Seq::<Seq<char>>::empty());
            } else if b1 == 0x2f {
                self.end_of_caption(tc);
            } else if b1 == 0x2c {
                self.take_down(tc);
            } else if b1 == 0x21 {
                self.backspace();
            } else if (0x25 <= b1 && b1 <= 0x27) || b1 == 0x2d {
                return Err(string_of(&chars_of("SCC roll-up captions are not supported (only pop-on)")));
            } else if b1 == 0x29 {
                return Err(string_of(&chars_of("SCC paint-on captions are not supported (only pop-on)")));
            } else if b1 == 0x2a || b1 == 0x2b {
                return Err(string_of(&chars_of("SCC text-mode captions are not supported (only pop-on)")));
            }
            return Ok(());
        }
        if 0x40 <= b1 && b1 <= 0x7f {
            self.pac();
            return Ok(());
        }
        if b0 == 0x11 && 0x30 <= b1 && b1 <= 0x3f {
            let c = special_char(b1);
            self.push_opt(c);
            return Ok(());
        }
        Ok(())
    }

    fn feed(&mut self, raw: u16, tc: u64) -> (r: Result<(), String>)
        requires
            state_ok(dec_view(old(self))),
            tc <= u64::MAX / 30,
        ensures
            match feed_spec(dec_view(old(self)), raw, tc) {
                Ok(s) => r is Ok && dec_view(final(self)) == s,
                Err(m) => r matches Err(e) && e@ == m,
            },
            r is Ok ==> state_ok(dec_view(final(self))),
    {
        let b0: u8 = ((raw / 256) % 128) as u8;
        let b1: u8 = (raw % 128) as u8;
        let stripped: u16 = (b0 as u16) * 256 + (b1 as u16);
        if 0x10 <= b0 && b0 <= 0x1f {
            if self.prev_ctrl == Some(stripped) {
                self.prev_ctrl = None;
                return Ok(());
            }
            self.prev_ctrl = Some(stripped);
            return self.control(b0, b1, tc);
        }
        self.prev_ctrl = None;
        let c0 = basic_char(b0);
        self.push_opt(c0);
        let c1 = basic_char(b1);
        self.push_opt(c1);
        Ok(())
    }

    fn finish(&mut self)
        requires
            state_ok(dec_view(old(self))),
        ensures
            dec_view(final(self)) == finish_spec(dec_view(old(self))),
    {
        let shown = self.displayed.take();
        match shown {
            Some((start, text)) => {
                let hold = start + 2000;
                let end = if self.last_tc >= hold {
                    self.last_tc
                } else {
                    hold
                };
                self.emit(start, end, text);
            },
            None => {},
        }
    }
}

// ---------------------------------------------------------------------------
// The file
// ---------------------------------------------------------------------------

/// The index of the first white-space character of `s` at or after `from`.
pub open spec fn first_white(s: Seq<char>, from: int) -> Option<int>
    decreases s.len() - from,
{
    if from < 0 || from >= s.len() {
        None
    } else if is_white(s[from]) {
        Some(from)
    } else {
        first_white(s, from + 1)
    }
}

/// A caption line's timecode and data, as `split_once(char::is_whitespace)`
/// on the trimmed line; none for a blank line, the header, or a line with
/// nothing after its first word.
pub open spec fn line_parts(line: Seq<char>) -> Option<(Seq<char>, Seq<char>)> {
    let l = trim(line);
    if l.len() == 0 || starts_with(l, "Scenarist_SCC"@) {
        None
    } else {
        match first_white(l, 0) {
            Some(i) => Some((l.take(i), l.skip(i + 1))),
            None => None,
        }
    }
}

pub open spec fn hex_word_error(w: Seq<char>) -> Seq<char> {
    "invalid SCC hex word: "@ + w
}

/// The decoder after the first `n` words of a line at `tc`.
pub open spec fn feed_words(st: DecState, ws: Seq<Seq<char>>, tc: u64, n: int) -> Result<
    DecState,
    Seq<char>,
>
    decreases n,
{
    if n <= 0 {
        Ok(st)
    } else {
        match feed_words(st, ws, tc, n - 1) {
            Err(e) => Err(e),
            Ok(s) => match hex_u16(ws[n - 1]) {
                None => Err(hex_word_error(ws[n - 1])),
                Some(raw) => feed_spec(s, raw, tc),
            },
        }
    }
}

/// The decoder after the words of a line at `ms`, the line's timecode kept.
pub open spec fn after_words(st: DecState, ws: Seq<Seq<char>>, ms: u64) -> Result<DecState, Seq<char>> {
    match feed_words(st, ws, ms, ws.len() as int) {
        Err(e) => Err(e),
        Ok(s) => Ok(DecState { last_tc: ms, ..s }),
    }
}

/// The decoder after one line of the file.
pub open spec fn process_line(st: DecState, line: Seq<char>) -> Result<DecState, Seq<char>> {
    match line_parts(line) {
        None => Ok(st),
        Some((tc, data)) => match timecode_ms(trim(tc)) {
            Err(e) => Err(e),
            Ok(ms) => after_words(st, words(data), ms),
        },
    }
}

/// The decoder after the first `n` lines.
pub open spec fn process_lines(ls: Seq<Seq<char>>, n: int) -> Result<DecState, Seq<char>>
    decreases n,
{
    if n <= 0 {
        Ok(dec_init())
    } else {
        match process_lines(ls, n - 1) {
            Err(e) => Err(e),
            Ok(s) => process_line(s, ls[n - 1]),
        }
    }
}

/// The cues an SCC file holds, or the refusal of the first line that cannot
/// be read.
pub open spec fn scc_cues(content: Seq<char>) -> Result<Seq<CueModel>, Seq<char>> {
    let ls = lines(content);
    match process_lines(ls, ls.len() as int) {
        Err(e) => Err(e),
        Ok(s) => Ok(finish_spec(s).cues),
    }
}

/// Once a word is refused, the rest of the line does not matter.
pub proof fn lemma_feed_words_err(st: DecState, ws: Seq<Seq<char>>, tc: u64, a: int, b: int)
    requires
        0 <= a <= b,
        feed_words(st, ws, tc, a) is Err,
    ensures
        feed_words(st, ws, tc, b) == feed_words(st, ws, tc, a),
    decreases b - a,
{
    if b > a {
        lemma_feed_words_err(st, ws, tc, a, b - 1);
    }
}

/// Once a line is refused, the rest of the file does not matter.
pub proof fn lemma_process_lines_err(ls: Seq<Seq<char>>, a: int, b: int)
    requires
        0 <= a <= b,
        process_lines(ls, a) is Err,
    ensures
        process_lines(ls, b) == process_lines(ls, a),
    decreases b - a,
{
    if b > a {
        lemma_process_lines_err(ls, a, b - 1);
    }
}

fn split_at_white(l: &[char]) -> (r: Option<(Vec<char>, Vec<char>)>)
    ensures
        match (r, first_white(l@, 0)) {
            (Some((a, b)), Some(i)) => a@ == l@.take(i) && b@ == l@.skip(i + 1),
            (None, None) => true,
            _ => false,
        },
{
    let mut i: usize = 0;
    while i < l.len()
        invariant
            i <= l.len(),
            first_white(l@, 0) == first_white(l@, i as int),
        decreases l.len() - i,
    {
        if is_whitespace(l[i]) {
            return Some((slice(l, 0, i), slice(l, i + 1, l.len())));
        }
        i += 1;
    }
    None
}

fn hex_word_err(w: &[char]) -> (r: String)
    ensures
        r@ == hex_word_error(w@),
{
    let mut m = chars_of("invalid SCC hex word: ");
    push_all(&mut m, w);
    string_of(&m)
}

impl Decoder {
    /// Feed one caption line.
    fn line(&mut self, line: &[char]) -> (r: Result<(), String>)
        requires
            state_ok(dec_view(old(self))),
        ensures
            match process_line(dec_view(old(self)), line@) {
                Ok(s) => r is Ok && dec_view(final(self)) == s,
                Err(m) => r matches Err(e) && e@ == m,
            },
            r is Ok ==> state_ok(dec_view(final(self))),
    {
        let l = trim_chars(line);
        if l.len() == 0 || starts_with_str(&l, "Scenarist_SCC") {
            return Ok(());
        }
        let (tc, data) = match split_at_white(&l) {
            Some(p) => p,
            None => return Ok(()),
        };
        let tct = trim_chars(&tc);
        let ms = match parse_timecode_chars(&tct) {
            Ok(v) => v,
            Err(e) => return Err(e),
        };
        let ws = words_chars(&data);
        let ghost wv = views(ws@);
        assert(process_line(dec_view(old(self)), line@) == after_words(dec_view(old(self)), wv, ms));
        let mut k: usize = 0;
        while k < ws.len()
            invariant
                k <= ws.len(),
                wv == views(ws@),
                process_line(dec_view(old(self)), line@) == after_words(dec_view(old(self)), wv, ms),
                ms <= u64::MAX / 30,
                state_ok(dec_view(self)),
                feed_words(dec_view(old(self)), wv, ms, k as int) == Ok::<DecState, Seq<char>>(
                    dec_view(self),
                ),
            decreases ws.len() - k,
        {
            assert(wv[k as int] == ws@[k as int]@);
            let raw = match parse_hex_u16(&ws[k]) {
                Some(v) => v,
                None => {
                    proof {
                        assert(feed_words(dec_view(old(self)), wv, ms, k + 1) == Err::<
                            DecState,
                            Seq<char>,
                        >(hex_word_error(wv[k as int])));
                        lemma_feed_words_err(dec_view(old(self)), wv, ms, k + 1, wv.len() as int);
                    }
                    return Err(hex_word_err(&ws[k]));
                },
            };
            let res = self.feed(raw, ms);
            match res {
                Ok(()) => {},
                Err(e) => {
                    proof {
                        assert(feed_words(dec_view(old(self)), wv, ms, k + 1) == feed_spec(
                            feed_words(dec_view(old(self)), wv, ms, k as int)->Ok_0,
                            raw,
                            ms,
                        ));
                        lemma_feed_words_err(dec_view(old(self)), wv, ms, k + 1, wv.len() as int);
                    }
                    return Err(e);
                },
            }
            k += 1;
        }
        self.last_tc = ms;
        Ok(())
    }
}

/// Parse an SCC file into cues. Errors on unsupported (non pop-on) caption modes.
pub fn parse_scc(content: &str) -> (r: Result<Vec<SrtCue>, String>)
    ensures
        match scc_cues(content@) {
            Ok(cs) => r matches Ok(v) && cue_views(v@) == cs,
            Err(m) => r matches Err(e) && e@ == m,
        },
{
    let cs = chars_of(content);
    let ls = lines_chars(&cs);
    let ghost lv = views(ls@);
    let mut dec = Decoder::new();
    let mut i: usize = 0;
    while i < ls.len()
        invariant
            i <= ls.len(),
            lv == views(ls@),
            lv == lines(content@),
            state_ok(dec_view(&dec)),
            process_lines(lv, i as int) == Ok::<DecState, Seq<char>>(dec_view(&dec)),
        decreases ls.len() - i,
    {
        assert(lv[i as int] == ls@[i as int]@);
        let res = dec.line(&ls[i]);
        match res {
            Ok(()) => {},
            Err(e) => {
                proof {
                    lemma_process_lines_err(lv, i + 1, lv.len() as int);
                }
                return Err(e);
            },
        }
        i += 1;
    }
    dec.finish();
    Ok(dec.cues)
}


// ---------------------------------------------------------------------------
// What every cue looks like
// ---------------------------------------------------------------------------

/// Cues numbered from 1 in order, each with text and a positive span.
pub open spec fn cues_well_formed(cs: Seq<CueModel>) -> bool {
    forall|k: int|
        0 <= k < cs.len() ==> {
            &&& (#[trigger] cs[k]).0 == cue_index(k as nat)
            &&& cs[k].1 < cs[k].2
            &&& trim(cs[k].3).len() > 0
        }
}

proof fn lemma_emit_keeps_cues(st: DecState, start: u64, end: u64, text: Seq<char>)
    requires
        cues_well_formed(st.cues),
    ensures
        cues_well_formed(emit_spec(st, start, end, text).cues),
{
    let r = emit_spec(st, start, end, text);
    if !(trim(text).len() == 0 || end <= start) {
        assert forall|k: int| 0 <= k < r.cues.len() implies {
            &&& (#[trigger] r.cues[k]).0 == cue_index(k as nat)
            &&& r.cues[k].1 < r.cues[k].2
            &&& trim(r.cues[k].3).len() > 0
        } by {
            if k < st.cues.len() {
                assert(r.cues[k] == st.cues[k]);
            }
        }
    }
}

proof fn lemma_take_down_keeps_cues(st: DecState, tc: u64)
    requires
        cues_well_formed(st.cues),
    ensures
        cues_well_formed(take_down(st, tc).cues),
{
    if let Some((start, text)) = st.displayed {
        lemma_emit_keeps_cues(DecState { displayed: None, ..st }, start, tc, text);
    }
}

proof fn lemma_feed_keeps_cues(st: DecState, raw: u16, tc: u64)
    requires
        cues_well_formed(st.cues),
    ensures
        feed_spec(st, raw, tc) matches Ok(s) ==> cues_well_formed(s.cues),
{
    let b0 = ((raw / 256) % 128) as u8;
    let b1 = (raw % 128) as u8;
    let stripped = (b0 * 256 + b1) as u16;
    let s1 = DecState { prev_ctrl: Some(stripped), ..st };
    lemma_take_down_keeps_cues(s1, tc);
}

proof fn lemma_feed_words_keeps_cues(st: DecState, ws: Seq<Seq<char>>, tc: u64, n: int)
    requires
        cues_well_formed(st.cues),
    ensures
        feed_words(st, ws, tc, n) matches Ok(s) ==> cues_well_formed(s.cues),
    decreases n,
{
    if n > 0 {
        lemma_feed_words_keeps_cues(st, ws, tc, n - 1);
        if let Ok(s) = feed_words(st, ws, tc, n - 1) {
            if let Some(raw) = hex_u16(ws[n - 1]) {
                lemma_feed_keeps_cues(s, raw, tc);
            }
        }
    }
}

proof fn lemma_lines_keep_cues(ls: Seq<Seq<char>>, n: int)
    ensures
        process_lines(ls, n) matches Ok(s) ==> cues_well_formed(s.cues),
    decreases n,
{
    if n > 0 {
        lemma_lines_keep_cues(ls, n - 1);
        if let Ok(s) = process_lines(ls, n - 1) {
            if let Some((tc, data)) = line_parts(ls[n - 1]) {
                if let Ok(ms) = timecode_ms(trim(tc)) {
                    lemma_feed_words_keeps_cues(s, words(data), ms, words(data).len() as int);
                }
            }
        }
    }
}

/// Every cue that SCC decoding yields is numbered by its place from 1 (in
/// `u32`), ends after it starts, and holds text that is not all white space.
pub proof fn law_scc_cues_well_formed(content: Seq<char>)
    ensures
        scc_cues(content) matches Ok(cs) ==> cues_well_formed(cs),
{
    let ls = lines(content);
    lemma_lines_keep_cues(ls, ls.len() as int);
    if let Ok(s) = process_lines(ls, ls.len() as int) {
        if let Some((start, text)) = s.displayed {
            let end: u64 = if s.last_tc >= start + 2000 {
                s.last_tc
            } else {
                (start + 2000) as u64
            };
            lemma_emit_keeps_cues(DecState { displayed: None, ..s }, start, end, text);
        }
    }
}


/// The slots of the CEA-608 basic set that do not carry the ASCII character
/// of their code: the accented letters, the division sign and the block.
pub open spec fn cea608_special_slot(b: u8) -> bool {
    b == 0x2a || b == 0x5c || b == 0x5e || b == 0x5f || b == 0x60 || (0x7b <= b && b <= 0x7f)
}

/// Every byte of the basic set outside the special slots is the ASCII
/// character with its code, so a caption keeps its spaces and punctuation;
/// a byte outside 0x20..=0x7f is no character of the set.
pub proof fn law_basic_characters_are_ascii(b: u8)
    ensures
        0x20 <= b <= 0x7f && !cea608_special_slot(b) ==> basic_char_spec(b) == Some(b as char),
        0x20 <= b <= 0x7f ==> basic_char_spec(b) is Some,
        b < 0x20 || b > 0x7f ==> basic_char_spec(b) is None,
        basic_char_spec(0x20) == Some(' '),
{
    assert((0x20u8 as char) == ' ');
}

} // verus!
