//! Delivery presets named on the command line, and the channel counts of the
//! audio layouts a preset asks for.
use vstd::prelude::*;
use crate::text::{all_ascii, ascii_lower, chars_of, eq_str, to_lowercase, unicode_lower};

verus! {

/// A delivery platform a preset targets.
#[derive(Debug, Clone, Copy, PartialEq, Eq, Structural)]
pub enum Platform {
    TheatricalDci2k,
    TheatricalDci4k,
    Netflix,
    AmazonPrime,
    Disney,
    Apple,
    Hbo,
    ArchivalPreservation,
    Broadcast,
}

/// `s` with each underscore and space written as a hyphen.
pub open spec fn dashed(s: Seq<char>) -> Seq<char> {
    Seq::new(s.len(), |i: int| if s[i] == '_' || s[i] == ' ' { '-' } else { s[i] })
}

/// The platform a lower-cased, dashed preset name spells.
pub open spec fn platform_named(l: Seq<char>) -> Option<Platform> {
    if l == "dci-2k"@ || l == "theatrical-2k"@ || l == "theatricaldci2k"@ {
        Some(Platform::TheatricalDci2k)
    } else if l == "dci-4k"@ || l == "theatrical-4k"@ || l == "theatricaldci4k"@ {
        Some(Platform::TheatricalDci4k)
    } else if l == "netflix"@ {
        Some(Platform::Netflix)
    } else if l == "amazon"@ || l == "amazon-prime"@ || l == "prime"@ {
        Some(Platform::AmazonPrime)
    } else if l == "disney"@ {
        Some(Platform::Disney)
    } else if l == "apple"@ {
        Some(Platform::Apple)
    } else if l == "hbo"@ {
        Some(Platform::Hbo)
    } else if l == "archival"@ || l == "archivalpreservation"@ || l == "preservation"@ {
        Some(Platform::ArchivalPreservation)
    } else if l == "broadcast"@ {
        Some(Platform::Broadcast)
    } else {
        None
    }
}

fn dash(s: &str) -> (r: Vec<char>)
    ensures
        r@ == dashed(s@),
{
    let cs = chars_of(s);
    let mut out: Vec<char> = Vec::new();
    let mut i: usize = 0;
    while i < cs.len()
        invariant
            i <= cs.len(),
            cs@ == s@,
            out@ == dashed(cs@).take(i as int),
        decreases cs.len() - i,
    {
        let c = cs[i];
        if c == '_' || c == ' ' {
            out.push('-');
        } else {
            out.push(c);
        }
        assert(dashed(cs@).take(i + 1) =~= dashed(cs@).take(i as int).push(out@.last()));
        i += 1;
    }
    assert(dashed(cs@).take(cs.len() as int) =~= dashed(cs@));
    out
}

/// Map a preset name to a delivery platform: case, underscores and spaces do
/// not matter.
pub fn platform_from_name(name: &str) -> (r: Option<Platform>)
    ensures
        r == platform_named(dashed(unicode_lower(name@))),
        all_ascii(name@) ==> r == platform_named(dashed(ascii_lower(name@))),
{
    let lower = to_lowercase(name);
    let l = dash(lower.as_str());
    if eq_str(&l, "dci-2k") || eq_str(&l, "theatrical-2k") || eq_str(&l, "theatricaldci2k") {
        Some(Platform::TheatricalDci2k)
    } else if eq_str(&l, "dci-4k") || eq_str(&l, "theatrical-4k") || eq_str(&l, "theatricaldci4k") {
        Some(Platform::TheatricalDci4k)
    } else if eq_str(&l, "netflix") {
        Some(Platform::Netflix)
    } else if eq_str(&l, "amazon") || eq_str(&l, "amazon-prime") || eq_str(&l, "prime") {
        Some(Platform::AmazonPrime)
    } else if eq_str(&l, "disney") {
        Some(Platform::Disney)
    } else if eq_str(&l, "apple") {
        Some(Platform::Apple)
    } else if eq_str(&l, "hbo") {
        Some(Platform::Hbo)
    } else if eq_str(&l, "archival") || eq_str(&l, "archivalpreservation") || eq_str(
        &l,
        "preservation",
    ) {
        Some(Platform::ArchivalPreservation)
    } else if eq_str(&l, "broadcast") {
        Some(Platform::Broadcast)
    } else {
        None
    }
}

/// The channel count a lower-cased audio layout spells.
pub open spec fn layout_channels(l: Seq<char>) -> Option<u32> {
    if l == "mono"@ {
        Some(1u32)
    } else if l == "stereo"@ {
        Some(2u32)
    } else if l == "5.1"@ {
        Some(6u32)
    } else if l == "7.1"@ {
        Some(8u32)
    } else if l == "7.1.4"@ {
        Some(12u32)
    } else {
        None
    }
}

/// How many channels a preset's audio layout is, for the layouts that name
/// one; a layout nothing here spells gives `None` rather than a guess.
pub fn required_audio_channels(audio_channels: &str) -> (r: Option<u32>)
    ensures
        r == layout_channels(unicode_lower(audio_channels@)),
{
    let l = chars_of(to_lowercase(audio_channels).as_str());
    if eq_str(&l, "mono") {
        Some(1)
    } else if eq_str(&l, "stereo") {
        Some(2)
    } else if eq_str(&l, "5.1") {
        Some(6)
    } else if eq_str(&l, "7.1") {
        Some(8)
    } else if eq_str(&l, "7.1.4") {
        Some(12)
    } else {
        None
    }
}


/// The preset names each platform answers to, lower-cased and dashed.
pub open spec fn platform_spellings(p: Platform) -> Seq<Seq<char>> {
    match p {
        Platform::TheatricalDci2k => seq!["dci-2k"@, "theatrical-2k"@, "theatricaldci2k"@],
        Platform::TheatricalDci4k => seq!["dci-4k"@, "theatrical-4k"@, "theatricaldci4k"@],
        Platform::Netflix => seq!["netflix"@],
        Platform::AmazonPrime => seq!["amazon"@, "amazon-prime"@, "prime"@],
        Platform::Disney => seq!["disney"@],
        Platform::Apple => seq!["apple"@],
        Platform::Hbo => seq!["hbo"@],
        Platform::ArchivalPreservation => seq!["archival"@, "archivalpreservation"@, "preservation"@],
        Platform::Broadcast => seq!["broadcast"@],
    }
}

/// The preset spellings differ from one another.
proof fn lemma_spellings_differ()
    ensures
        "dci-2k"@ != "theatrical-2k"@,
        "dci-2k"@ != "theatricaldci2k"@,
        "dci-2k"@ != "dci-4k"@,
        "dci-2k"@ != "theatrical-4k"@,
        "dci-2k"@ != "theatricaldci4k"@,
        "dci-2k"@ != "netflix"@,
        "dci-2k"@ != "amazon"@,
        "dci-2k"@ != "amazon-prime"@,
        "dci-2k"@ != "prime"@,
        "dci-2k"@ != "disney"@,
        "dci-2k"@ != "apple"@,
        "dci-2k"@ != "hbo"@,
        "dci-2k"@ != "archival"@,
        "dci-2k"@ != "archivalpreservation"@,
        "dci-2k"@ != "preservation"@,
        "dci-2k"@ != "broadcast"@,
        "theatrical-2k"@ != "theatricaldci2k"@,
        "theatrical-2k"@ != "dci-4k"@,
        "theatrical-2k"@ != "theatrical-4k"@,
        "theatrical-2k"@ != "theatricaldci4k"@,
        "theatrical-2k"@ != "netflix"@,
        "theatrical-2k"@ != "amazon"@,
        "theatrical-2k"@ != "amazon-prime"@,
        "theatrical-2k"@ != "prime"@,
        "theatrical-2k"@ != "disney"@,
        "theatrical-2k"@ != "apple"@,
        "theatrical-2k"@ != "hbo"@,
        "theatrical-2k"@ != "archival"@,
        "theatrical-2k"@ != "archivalpreservation"@,
        "theatrical-2k"@ != "preservation"@,
        "theatrical-2k"@ != "broadcast"@,
        "theatricaldci2k"@ != "dci-4k"@,
        "theatricaldci2k"@ != "theatrical-4k"@,
        "theatricaldci2k"@ != "theatricaldci4k"@,
        "theatricaldci2k"@ != "netflix"@,
        "theatricaldci2k"@ != "amazon"@,
        "theatricaldci2k"@ != "amazon-prime"@,
        "theatricaldci2k"@ != "prime"@,
        "theatricaldci2k"@ != "disney"@,
        "theatricaldci2k"@ != "apple"@,
        "theatricaldci2k"@ != "hbo"@,
        "theatricaldci2k"@ != "archival"@,
        "theatricaldci2k"@ != "archivalpreservation"@,
        "theatricaldci2k"@ != "preservation"@,
        "theatricaldci2k"@ != "broadcast"@,
        "dci-4k"@ != "theatrical-4k"@,
        "dci-4k"@ != "theatricaldci4k"@,
        "dci-4k"@ != "netflix"@,
        "dci-4k"@ != "amazon"@,
        "dci-4k"@ != "amazon-prime"@,
        "dci-4k"@ != "prime"@,
        "dci-4k"@ != "disney"@,
        "dci-4k"@ != "apple"@,
        "dci-4k"@ != "hbo"@,
        "dci-4k"@ != "archival"@,
        "dci-4k"@ != "archivalpreservation"@,
        "dci-4k"@ != "preservation"@,
        "dci-4k"@ != "broadcast"@,
        "theatrical-4k"@ != "theatricaldci4k"@,
        "theatrical-4k"@ != "netflix"@,
        "theatrical-4k"@ != "amazon"@,
        "theatrical-4k"@ != "amazon-prime"@,
        "theatrical-4k"@ != "prime"@,
        "theatrical-4k"@ != "disney"@,
        "theatrical-4k"@ != "apple"@,
        "theatrical-4k"@ != "hbo"@,
        "theatrical-4k"@ != "archival"@,
        "theatrical-4k"@ != "archivalpreservation"@,
        "theatrical-4k"@ != "preservation"@,
        "theatrical-4k"@ != "broadcast"@,
        "theatricaldci4k"@ != "netflix"@,
        "theatricaldci4k"@ != "amazon"@,
        "theatricaldci4k"@ != "amazon-prime"@,
        "theatricaldci4k"@ != "prime"@,
        "theatricaldci4k"@ != "disney"@,
        "theatricaldci4k"@ != "apple"@,
        "theatricaldci4k"@ != "hbo"@,
        "theatricaldci4k"@ != "archival"@,
        "theatricaldci4k"@ != "archivalpreservation"@,
        "theatricaldci4k"@ != "preservation"@,
        "theatricaldci4k"@ != "broadcast"@,
        "netflix"@ != "amazon"@,
        "netflix"@ != "amazon-prime"@,
        "netflix"@ != "prime"@,
        "netflix"@ != "disney"@,
        "netflix"@ != "apple"@,
        "netflix"@ != "hbo"@,
        "netflix"@ != "archival"@,
        "netflix"@ != "archivalpreservation"@,
        "netflix"@ != "preservation"@,
        "netflix"@ != "broadcast"@,
        "amazon"@ != "amazon-prime"@,
        "amazon"@ != "prime"@,
        "amazon"@ != "disney"@,
        "amazon"@ != "apple"@,
        "amazon"@ != "hbo"@,
        "amazon"@ != "archival"@,
        "amazon"@ != "archivalpreservation"@,
        "amazon"@ != "preservation"@,
        "amazon"@ != "broadcast"@,
        "amazon-prime"@ != "prime"@,
        "amazon-prime"@ != "disney"@,
        "amazon-prime"@ != "apple"@,
        "amazon-prime"@ != "hbo"@,
        "amazon-prime"@ != "archival"@,
        "amazon-prime"@ != "archivalpreservation"@,
        "amazon-prime"@ != "preservation"@,
        "amazon-prime"@ != "broadcast"@,
        "prime"@ != "disney"@,
        "prime"@ != "apple"@,
        "prime"@ != "hbo"@,
        "prime"@ != "archival"@,
        "prime"@ != "archivalpreservation"@,
        "prime"@ != "preservation"@,
        "prime"@ != "broadcast"@,
        "disney"@ != "apple"@,
        "disney"@ != "hbo"@,
        "disney"@ != "archival"@,
        "disney"@ != "archivalpreservation"@,
        "disney"@ != "preservation"@,
        "disney"@ != "broadcast"@,
        "apple"@ != "hbo"@,
        "apple"@ != "archival"@,
        "apple"@ != "archivalpreservation"@,
        "apple"@ != "preservation"@,
        "apple"@ != "broadcast"@,
        "hbo"@ != "archival"@,
        "hbo"@ != "archivalpreservation"@,
        "hbo"@ != "preservation"@,
        "hbo"@ != "broadcast"@,
        "archival"@ != "archivalpreservation"@,
        "archival"@ != "preservation"@,
        "archival"@ != "broadcast"@,
        "archivalpreservation"@ != "preservation"@,
        "archivalpreservation"@ != "broadcast"@,
        "preservation"@ != "broadcast"@,
{
    reveal_strlit("dci-2k");
    reveal_strlit("theatrical-2k");
    reveal_strlit("theatricaldci2k");
    reveal_strlit("dci-4k");
    reveal_strlit("theatrical-4k");
    reveal_strlit("theatricaldci4k");
    reveal_strlit("netflix");
    reveal_strlit("amazon");
    reveal_strlit("amazon-prime");
    reveal_strlit("prime");
    reveal_strlit("disney");
    reveal_strlit("apple");
    reveal_strlit("hbo");
    reveal_strlit("archival");
    reveal_strlit("archivalpreservation");
    reveal_strlit("preservation");
    reveal_strlit("broadcast");
    assert("dci-2k"@.len() == 6);
    assert("theatrical-2k"@.len() == 13);
    assert("theatricaldci2k"@.len() == 15);
    assert("dci-4k"@.len() == 6);
    assert("theatrical-4k"@.len() == 13);
    assert("theatricaldci4k"@.len() == 15);
    assert("netflix"@.len() == 7);
    assert("amazon"@.len() == 6);
    assert("amazon-prime"@.len() == 12);
    assert("prime"@.len() == 5);
    assert("disney"@.len() == 6);
    assert("apple"@.len() == 5);
    assert("hbo"@.len() == 3);
    assert("archival"@.len() == 8);
    assert("archivalpreservation"@.len() == 20);
    assert("preservation"@.len() == 12);
    assert("broadcast"@.len() == 9);
    assert("dci-2k"@[4] != "dci-4k"@[4]);
    assert("dci-2k"@[0] != "amazon"@[0]);
    assert("dci-2k"@[1] != "disney"@[1]);
    assert("theatrical-2k"@[11] != "theatrical-4k"@[11]);
    assert("theatricaldci2k"@[13] != "theatricaldci4k"@[13]);
    assert("dci-4k"@[0] != "amazon"@[0]);
    assert("dci-4k"@[1] != "disney"@[1]);
    assert("amazon"@[0] != "disney"@[0]);
    assert("amazon-prime"@[0] != "preservation"@[0]);
    assert("prime"@[0] != "apple"@[0]);
}

/// Each platform's own preset names map back to that platform, and a name
/// maps to a platform only if it is one of that platform's names; so the
/// names of distinct platforms give distinct platforms.
pub proof fn law_platform_names_read_back(p: Platform, l: Seq<char>)
    ensures
        forall|k: int|
            0 <= k < platform_spellings(p).len() ==> platform_named(#[trigger] platform_spellings(p)[k])
                == Some(p),
        platform_named(l) == Some(p) ==> platform_spellings(p).contains(l),
{
    lemma_spellings_differ();
    reveal_strlit("dci-2k");
    reveal_strlit("theatrical-2k");
    reveal_strlit("theatricaldci2k");
    reveal_strlit("dci-4k");
    reveal_strlit("theatrical-4k");
    reveal_strlit("theatricaldci4k");
    reveal_strlit("netflix");
    reveal_strlit("amazon");
    reveal_strlit("amazon-prime");
    reveal_strlit("prime");
    reveal_strlit("disney");
    reveal_strlit("apple");
    reveal_strlit("hbo");
    reveal_strlit("archival");
    reveal_strlit("archivalpreservation");
    reveal_strlit("preservation");
    reveal_strlit("broadcast");
    let sp = platform_spellings(p);
    if platform_named(l) == Some(p) {
        if l == "dci-2k"@ || l == "dci-4k"@ || l == "netflix"@ || l == "amazon"@ || l == "disney"@
            || l == "apple"@ || l == "hbo"@ || l == "archival"@ || l == "broadcast"@ {
            assert(sp[0] == l);
        } else if l == "theatrical-2k"@ || l == "theatrical-4k"@ || l == "amazon-prime"@ || l
            == "archivalpreservation"@ {
            assert(sp[1] == l);
        } else {
            assert(sp[2] == l);
        }
    }
}

} // verus!
