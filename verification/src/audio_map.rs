//! The audio mix matrix as `create` and the GUI spell it.
//!
//! The mixer's grammar is `IN:OUT[@GAIN]` over 1-based channel numbers. Here
//! the destination may also be a channel name, taken from a channel map, so
//! the spellings a mapped file is later MCA-labelled with are the ones a
//! caller can type. The highest destination lane decides how many channels
//! come out, so `1:L,2:R,1:C` writes a three channel file.
use vstd::prelude::*;
use crate::text::{
    ascii_lower, chars_of, decimal, decimal_chars, eq, join, join_chars, parse_u64_bounded,
    parse_unsigned, push_all, push_str, slice, split_any, split_any_chars, split_once,
    split_once_chars, starts_with, starts_with_str, string_of, string_views, to_ascii_lower, trim,
    trim_chars, views,
};

verus! {

/// Every destination name, in lane order: the MCA tag symbols of the 7.1
/// channel map without their `ch` prefix.
pub open spec fn destination_names_spec() -> Seq<Seq<char>> {
    seq!["L"@, "R"@, "C"@, "LFE"@, "Ls"@, "Rs"@, "Lrs"@, "Rrs"@]
}

/// Every destination name, in lane order, as a GUI matrix labels its columns.
pub fn destination_names() -> (r: Vec<String>)
    ensures
        string_views(r@) == destination_names_spec(),
{
    let mut v: Vec<String> = Vec::new();
    v.push(string_of(&chars_of("L")));
    v.push(string_of(&chars_of("R")));
    v.push(string_of(&chars_of("C")));
    v.push(string_of(&chars_of("LFE")));
    v.push(string_of(&chars_of("Ls")));
    v.push(string_of(&chars_of("Rs")));
    v.push(string_of(&chars_of("Lrs")));
    v.push(string_of(&chars_of("Rrs")));
    assert(string_views(v@) =~= destination_names_spec());
    v
}

/// What the mapped WAV is called under the job's work directory.
pub const MAPPED_AUDIO_NAME: &'static str = "audio_mapped.wav";

/// One channel of a channel map: its 0-based lane, its label ("Left") and its
/// MCA tag symbol ("chL").
pub struct ChannelName {
    pub index: u32,
    pub label: String,
    pub mca_tag_symbol: String,
}

/// An MCA tag symbol without its `ch` prefix, which a caller may leave off:
/// `chLs` and `Ls` both name the left surround.
pub open spec fn short_name_spec(symbol: Seq<char>) -> Seq<char> {
    if starts_with(symbol, "ch"@) {
        symbol.skip(2)
    } else {
        symbol
    }
}

pub fn short_name(mca_tag_symbol: &str) -> (r: String)
    ensures
        r@ == short_name_spec(mca_tag_symbol@),
{
    let s = chars_of(mca_tag_symbol);
    if starts_with_str(&s, "ch") {
        proof {
            reveal_strlit("ch");
        }
        string_of(&slice(&s, 2, s.len()))
    } else {
        string_of(&s)
    }
}

/// Whether `output` names `c`, by label, by MCA tag symbol or by its short
/// name, ASCII case ignored.
pub open spec fn names_channel(c: ChannelName, output: Seq<char>) -> bool {
    ||| ascii_lower(c.label@) == ascii_lower(output)
    ||| ascii_lower(c.mca_tag_symbol@) == ascii_lower(output)
    ||| ascii_lower(short_name_spec(c.mca_tag_symbol@)) == ascii_lower(output)
}

/// The first channel of `table` that `output` names.
pub open spec fn first_named(table: Seq<ChannelName>, output: Seq<char>, from: int) -> Option<int>
    decreases table.len() - from,
{
    if from < 0 || from >= table.len() {
        None
    } else if names_channel(table[from], output) {
        Some(from)
    } else {
        first_named(table, output, from + 1)
    }
}

/// The short names of a channel map, in its order.
pub open spec fn short_names(table: Seq<ChannelName>) -> Seq<Seq<char>> {
    table.map_values(|c: ChannelName| short_name_spec(c.mca_tag_symbol@))
}

pub open spec fn channel_zero_refusal(entry: Seq<char>, number: nat) -> Seq<char> {
    "audio map entry \""@ + entry + "\" names output channel "@ + decimal(number)
        + ", and channels count from 1"@
}

pub open spec fn unknown_channel_refusal(entry: Seq<char>, output: Seq<char>, table: Seq<ChannelName>) -> Seq<char> {
    "audio map entry \""@ + entry + "\" names output channel \""@ + output
        + "\", which is neither a channel number nor one of "@ + join(short_names(table), ", "@)
}

/// The 0-based lane a destination names: a channel number counted from 1, or
/// a channel of `table` by name.
pub open spec fn destination_lane_spec(output: Seq<char>, entry: Seq<char>, table: Seq<ChannelName>) -> Result<
    nat,
    Seq<char>,
> {
    match parse_unsigned(output, usize::MAX as nat) {
        Some(n) => if n < 1 {
            Err(channel_zero_refusal(entry, n))
        } else {
            Ok((n - 1) as nat)
        },
        None => match first_named(table, output, 0) {
            Some(k) => Ok(table[k].index as nat),
            None => Err(unknown_channel_refusal(entry, output, table)),
        },
    }
}

fn names_channel_exec(c: &ChannelName, out_lower: &[char]) -> (r: bool)
    ensures
        r == (ascii_lower(c.label@) == out_lower@ || ascii_lower(c.mca_tag_symbol@) == out_lower@
            || ascii_lower(short_name_spec(c.mca_tag_symbol@)) == out_lower@),
{
    eq(&to_ascii_lower(&chars_of(c.label.as_str())), out_lower) || eq(
        &to_ascii_lower(&chars_of(c.mca_tag_symbol.as_str())),
        out_lower,
    ) || eq(&to_ascii_lower(&chars_of(short_name(c.mca_tag_symbol.as_str()).as_str())), out_lower)
}

fn short_names_of(table: &Vec<ChannelName>) -> (r: Vec<Vec<char>>)
    ensures
        views(r@) == short_names(table@),
{
    let mut r: Vec<Vec<char>> = Vec::new();
    let mut i: usize = 0;
    while i < table.len()
        invariant
            i <= table.len(),
            views(r@) == short_names(table@.take(i as int)),
        decreases table.len() - i,
    {
        let ghost before = views(r@);
        r.push(chars_of(short_name(table[i].mca_tag_symbol.as_str()).as_str()));
        i += 1;
        assert(short_names(table@.take(i as int)) =~= short_names(table@.take(i - 1)).push(
            short_name_spec(table@[i - 1].mca_tag_symbol@),
        ));
        assert(views(r@) =~= before.push(short_name_spec(table@[i - 1].mca_tag_symbol@)));
    }
    assert(table@.take(table.len() as int) =~= table@);
    r
}

/// The 0-based lane a destination names, whether it is a number or a name.
pub fn destination_lane(output: &[char], entry: &[char], table: &Vec<ChannelName>) -> (r: Result<
    usize,
    String,
>)
    ensures
        match destination_lane_spec(output@, entry@, table@) {
            Ok(n) => r matches Ok(k) && k == n,
            Err(m) => r matches Err(e) && e@ == m,
        },
{
    match parse_u64_bounded(output, usize::MAX as u64) {
        Some(number) => {
            if number < 1 {
                let mut m = chars_of("audio map entry \"");
                push_all(&mut m, entry);
                push_str(&mut m, "\" names output channel ");
                push_all(&mut m, &decimal_chars(number));
                push_str(&mut m, ", and channels count from 1");
                return Err(string_of(&m));
            }
            return Ok((number - 1) as usize);
        },
        None => {},
    }
    let out_lower = to_ascii_lower(output);
    let mut i: usize = 0;
    while i < table.len()
        invariant
            i <= table.len(),
            out_lower@ == ascii_lower(output@),
            parse_unsigned(output@, usize::MAX as nat) is None,
            first_named(table@, output@, 0) == first_named(table@, output@, i as int),
        decreases table.len() - i,
    {
        if names_channel_exec(&table[i], &out_lower) {
            proof {
                lemma_lower_eq(table@[i as int], output@);
                assert(names_channel(table@[i as int], output@));
                assert(first_named(table@, output@, i as int) == Some(i as int));
                assert(parse_unsigned(output@, usize::MAX as nat) is None);
            }
            return Ok(table[i].index as usize);
        }
        proof {
            lemma_lower_eq(table@[i as int], output@);
        }
        i += 1;
    }
    let mut m = chars_of("audio map entry \"");
    push_all(&mut m, entry);
    push_str(&mut m, "\" names output channel \"");
    push_all(&mut m, output);
    push_str(&mut m, "\", which is neither a channel number nor one of ");
    push_all(&mut m, &join_chars(&short_names_of(table), &chars_of(", ")));
    Err(string_of(&m))
}

proof fn lemma_lower_eq(c: ChannelName, output: Seq<char>)
    ensures
        names_channel(c, output) == (ascii_lower(c.label@) == ascii_lower(output)
            || ascii_lower(c.mca_tag_symbol@) == ascii_lower(output) || ascii_lower(
            short_name_spec(c.mca_tag_symbol@),
        ) == ascii_lower(output)),
{
}

pub open spec fn empty_map_refusal() -> Seq<char> {
    "audio map is empty"@
}

pub open spec fn empty_entry_refusal() -> Seq<char> {
    "audio map has an empty entry"@
}

pub open spec fn shape_refusal(entry: Seq<char>) -> Seq<char> {
    "audio map entry \""@ + entry + "\" is not IN:OUT or IN:OUT@GAIN"@
}

/// One entry of a map with its destination numbered, and its lane.
pub open spec fn numbered_entry(raw: Seq<char>, table: Seq<ChannelName>) -> Result<(Seq<char>, nat), Seq<char>> {
    let entry = trim(raw);
    if entry.len() == 0 {
        Err(empty_entry_refusal())
    } else {
        let (channels, gain) = match split_once(entry, '@') {
            Some((c, g)) => (c, Some(g)),
            None => (entry, None::<Seq<char>>),
        };
        match split_once(channels, ':') {
            None => Err(shape_refusal(entry)),
            Some((input, output)) => match destination_lane_spec(trim(output), entry, table) {
                Err(e) => Err(e),
                Ok(lane) => Ok(
                    (
                        trim(input) + ":"@ + decimal(lane + 1) + match gain {
                            Some(g) => "@"@ + g,
                            None => Seq::<char>::empty(),
                        },
                        lane,
                    ),
                ),
            },
        }
    }
}

/// The first `n` entries numbered, and how many output channels they need.
pub open spec fn numbered_entries(entries: Seq<Seq<char>>, table: Seq<ChannelName>, n: int) -> Result<
    (Seq<Seq<char>>, nat),
    Seq<char>,
>
    decreases n,
{
    if n <= 0 {
        Ok((Seq::empty(), 0))
    } else {
        match numbered_entries(entries, table, n - 1) {
            Err(e) => Err(e),
            Ok((v, width)) => match numbered_entry(entries[n - 1], table) {
                Err(e) => Err(e),
                Ok((t, lane)) => Ok(
                    (
                        v.push(t),
                        if lane + 1 > width {
                            lane + 1
                        } else {
                            width
                        },
                    ),
                ),
            },
        }
    }
}

/// A map whose destinations may be channel names, as the mixer reads it: the
/// entries with their destinations numbered, and the number of output
/// channels, as many as the highest destination lane.
pub open spec fn audio_map_numbering(spec: Seq<char>, table: Seq<ChannelName>) -> Result<
    (Seq<char>, nat),
    Seq<char>,
> {
    if trim(spec).len() == 0 {
        Err(empty_map_refusal())
    } else {
        let entries = split_any(spec, seq![',']);
        match numbered_entries(entries, table, entries.len() as int) {
            Err(e) => Err(e),
            Ok((v, width)) => Ok((join(v, ","@), width)),
        }
    }
}

fn number_entry(raw: &[char], table: &Vec<ChannelName>) -> (r: Result<(Vec<char>, usize), String>)
    ensures
        match numbered_entry(raw@, table@) {
            Ok((t, lane)) => r matches Ok((x, k)) && x@ == t && k == lane,
            Err(m) => r matches Err(e) && e@ == m,
        },
{
    let entry = trim_chars(raw);
    if entry.len() == 0 {
        return Err(string_of(&chars_of("audio map has an empty entry")));
    }
    let (channels, gain): (Vec<char>, Option<Vec<char>>) = match split_once_chars(&entry, '@') {
        Some((c, g)) => (c, Some(g)),
        None => {
            let c = slice(&entry, 0, entry.len());
            assert(c@ =~= entry@);
            (c, None)
        },
    };
    assert(channels@ == (match split_once(entry@, '@') {
        Some((c, g)) => c,
        None => entry@,
    }));
    let (input, output) = match split_once_chars(&channels, ':') {
        None => {
            let mut m = chars_of("audio map entry \"");
            push_all(&mut m, &entry);
            push_str(&mut m, "\" is not IN:OUT or IN:OUT@GAIN");
            return Err(string_of(&m));
        },
        Some(p) => p,
    };
    let lane = match destination_lane(&trim_chars(&output), &entry, table) {
        Err(e) => return Err(e),
        Ok(l) => l,
    };
    let mut t = trim_chars(&input);
    push_str(&mut t, ":");
    push_all(&mut t, &decimal_chars(lane as u64 + 1));
    match gain {
        Some(g) => {
            push_str(&mut t, "@");
            push_all(&mut t, &g);
        },
        None => {},
    }
    Ok((t, lane))
}

/// Read a map whose destinations may be channel names of `table` into the
/// mixer's numbered grammar: the numbered map, and the number of output
/// channels (one past the highest destination lane).
pub fn number_audio_map(spec: &str, table: &Vec<ChannelName>) -> (r: Result<(String, u64), String>)
    ensures
        match audio_map_numbering(spec@, table@) {
            Ok((t, width)) => r matches Ok((x, w)) && x@ == t && w == width,
            Err(m) => r matches Err(e) && e@ == m,
        },
{
    let s = chars_of(spec);
    if trim_chars(&s).len() == 0 {
        return Err(string_of(&chars_of("audio map is empty")));
    }
    let seps: Vec<char> = vec![','];
    assert(seps@ == seq![',']);
    let entries = split_any_chars(&s, &seps);
    let ghost ev = views(entries@);
    let mut numbered: Vec<Vec<char>> = Vec::new();
    let mut width: u64 = 0;
    let mut i: usize = 0;
    while i < entries.len()
        invariant
            i <= entries.len(),
            ev == views(entries@),
            ev == split_any(spec@, seq![',']),
            trim(spec@).len() > 0,
            numbered_entries(ev, table@, i as int) matches Ok((v, w)) && views(numbered@) == v
                && width == w,
        decreases entries.len() - i,
    {
        assert(ev[i as int] == entries@[i as int]@);
        match number_entry(&entries[i], table) {
            Err(e) => {
                proof {
                    assert(numbered_entries(ev, table@, i as int + 1) == Err::<(Seq<Seq<char>>, nat), Seq<char>>(e@));
                    lemma_numbered_err(ev, table@, i as int + 1, ev.len() as int);
                    assert(ev == split_any(spec@, seq![',']));
                }
                return Err(e);
            },
            Ok((t, lane)) => {
                let ghost before = views(numbered@);
                let ghost tv = t@;
                numbered.push(t);
                assert(views(numbered@) =~= before.push(tv));
                if lane as u64 + 1 > width {
                    width = lane as u64 + 1;
                }
            },
        }
        i += 1;
    }
    Ok((string_of(&join_chars(&numbered, &chars_of(","))), width))
}

proof fn lemma_numbered_err(entries: Seq<Seq<char>>, table: Seq<ChannelName>, a: int, b: int)
    requires
        0 <= a <= b,
        numbered_entries(entries, table, a) is Err,
    ensures
        numbered_entries(entries, table, b) == numbered_entries(entries, table, a),
    decreases b - a,
{
    if b > a {
        lemma_numbered_err(entries, table, a, b - 1);
    }
}

} // verus!
