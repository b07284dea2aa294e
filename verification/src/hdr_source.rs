//! The HDR signalling a picture source carries, held against the `--hdr` preset.
use vstd::prelude::*;
use crate::hdr_wcg::{
    hlg_ul, names_with_transfer, preset_name_of, presets_with_transfer, st2084_ul,
    transfer_characteristic_hlg, transfer_characteristic_st2084, HdrWcg,
};
use crate::text::{chars_of, contains, contains_chars, eq_str, join, push_all, push_str, string_of};

verus! {

/// What the source's first video stream says about its transfer.
#[derive(Debug, Clone, Copy, PartialEq, Eq, Structural)]
pub enum SourceHdr {
    Untagged,
    Sdr,
    Pq,
    Hlg,
    DolbyVision,
}

/// Both front ends read these refusals, so each names the flag and the control
/// that carry the preset.
pub open spec fn preset_controls() -> Seq<char> {
    "--hdr, the HDR panel control in the GUI"@
}

pub open spec fn describe_spec(s: SourceHdr) -> Seq<char> {
    match s {
        SourceHdr::Untagged => "no transfer characteristic"@,
        SourceHdr::Sdr => "an SDR transfer characteristic"@,
        SourceHdr::Pq => "the PQ transfer characteristic (smpte2084)"@,
        SourceHdr::Hlg => "the HLG transfer characteristic (arib-std-b67)"@,
        SourceHdr::DolbyVision => "a Dolby Vision RPU"@,
    }
}

pub open spec fn presets_spec(s: SourceHdr) -> Seq<char> {
    match s {
        SourceHdr::Hlg => join(names_with_transfer(hlg_ul()), " or "@),
        _ => join(names_with_transfer(st2084_ul()), " or "@),
    }
}

pub open spec fn is_hdr_spec(s: SourceHdr) -> bool {
    s is Pq || s is Hlg || s is DolbyVision
}

/// Whether the preset (`hlg` says whether it is the HLG one) agrees with the source.
pub open spec fn agrees(s: SourceHdr, hlg: bool) -> bool {
    match s {
        SourceHdr::Pq | SourceHdr::DolbyVision => !hlg,
        SourceHdr::Hlg => hlg,
        _ => true,
    }
}

pub open spec fn missing_preset_message(s: SourceHdr) -> Seq<char> {
    "the source carries "@ + describe_spec(s) + ", which --hdr "@ + presets_spec(s)
        + " declares: without it the picture is written as Rec.709 SDR ("@ + preset_controls()
        + ")"@
}

pub open spec fn mismatch_message(s: SourceHdr, h: HdrWcg) -> Seq<char> {
    "the source carries "@ + describe_spec(s) + " and --hdr "@ + preset_name_of(
        h.transfer@,
        h.color_primaries@,
    ) + " declares "@ + (if h.is_hlg_spec() {
        "HLG"@
    } else {
        "PQ"@
    }) + ": package it as --hdr "@ + presets_spec(s) + " instead ("@ + preset_controls() + ")"@
}

impl SourceHdr {
    pub fn describe(self) -> (r: String)
        ensures
            r@ == describe_spec(self),
    {
        let s = match self {
            SourceHdr::Untagged => "no transfer characteristic",
            SourceHdr::Sdr => "an SDR transfer characteristic",
            SourceHdr::Pq => "the PQ transfer characteristic (smpte2084)",
            SourceHdr::Hlg => "the HLG transfer characteristic (arib-std-b67)",
            SourceHdr::DolbyVision => "a Dolby Vision RPU",
        };
        string_of(&chars_of(s))
    }

    pub fn presets(self) -> (r: String)
        ensures
            r@ == presets_spec(self),
    {
        match self {
            SourceHdr::Hlg => {
                let t = transfer_characteristic_hlg();
                presets_with_transfer(&t)
            },
            _ => {
                let t = transfer_characteristic_st2084();
                presets_with_transfer(&t)
            },
        }
    }

    pub fn is_hdr(self) -> (r: bool)
        ensures
            r == is_hdr_spec(self),
    {
        match self {
            SourceHdr::Pq | SourceHdr::Hlg | SourceHdr::DolbyVision => true,
            _ => false,
        }
    }
}

/// A side-data list holds a Dolby Vision configuration record.
pub open spec fn has_dovi(kinds: Seq<Option<Seq<char>>>) -> bool {
    exists|i: int| 0 <= i < kinds.len() && (#[trigger] kinds[i] matches Some(k) && contains(k, "DOVI"@))
}

/// What a stream's `color_transfer` tag says, with no Dolby Vision record.
pub open spec fn transfer_class(color_transfer: Option<Seq<char>>) -> SourceHdr {
    match color_transfer {
        None => SourceHdr::Untagged,
        Some(t) => if t == "smpte2084"@ {
            SourceHdr::Pq
        } else if t == "arib-std-b67"@ {
            SourceHdr::Hlg
        } else if t == "unknown"@ {
            SourceHdr::Untagged
        } else {
            SourceHdr::Sdr
        },
    }
}

/// The class of a stream with these side-data types and transfer tag.
pub open spec fn classify_spec(kinds: Seq<Option<Seq<char>>>, color_transfer: Option<Seq<char>>) -> SourceHdr {
    if has_dovi(kinds) {
        SourceHdr::DolbyVision
    } else {
        transfer_class(color_transfer)
    }
}

pub open spec fn opt_view(o: Option<String>) -> Option<Seq<char>> {
    match o {
        Some(s) => Some(s@),
        None => None,
    }
}

pub open spec fn opt_views(v: Seq<Option<String>>) -> Seq<Option<Seq<char>>> {
    v.map_values(|o: Option<String>| opt_view(o))
}

/// Classify a stream by the facts ffprobe reported for it: the type of each
/// entry of its side data (`None` for an entry that names none) and its
/// `color_transfer` tag. A Dolby Vision configuration record wins over any
/// transfer tag.
pub fn classify_stream(side_data_types: &Vec<Option<String>>, color_transfer: Option<&str>) -> (r:
    SourceHdr)
    ensures
        r == classify_spec(
            opt_views(side_data_types@),
            match color_transfer {
                Some(t) => Some(t@),
                None => None,
            },
        ),
{
    let ghost kinds = opt_views(side_data_types@);
    let dovi = chars_of("DOVI");
    let mut i: usize = 0;
    while i < side_data_types.len()
        invariant
            i <= side_data_types.len(),
            dovi@ == "DOVI"@,
            kinds == opt_views(side_data_types@),
            forall|k: int| 0 <= k < i ==> !(#[trigger] kinds[k] matches Some(t) && contains(t, "DOVI"@)),
        decreases side_data_types.len() - i,
    {
        proof {
            assert(kinds[i as int] == opt_view(side_data_types@[i as int]));
        }
        match &side_data_types[i] {
            Some(kind) => {
                let kc = chars_of(kind.as_str());
                if contains_chars(&kc, &dovi) {
                    return SourceHdr::DolbyVision;
                }
            },
            None => {},
        }
        i += 1;
    }
    match color_transfer {
        None => SourceHdr::Untagged,
        Some(t) => {
            let tc = chars_of(t);
            if eq_str(&tc, "smpte2084") {
                SourceHdr::Pq
            } else if eq_str(&tc, "arib-std-b67") {
                SourceHdr::Hlg
            } else if eq_str(&tc, "unknown") {
                SourceHdr::Untagged
            } else {
                SourceHdr::Sdr
            }
        },
    }
}

/// What serde_json reads off the first stream of ffprobe's JSON output: the
/// `side_data_type` of each entry of its `side_data_list` and its
/// `color_transfer` tag, each where it is a string.
pub uninterp spec fn probed_stream_facts(ffprobe_json: Seq<char>) -> (Seq<Option<Seq<char>>>, Option<Seq<char>>);

/// Read the first stream's side-data types and transfer tag out of ffprobe's
/// JSON output.
///
/// Calls `serde_json::from_str` into a `serde_json::Value` (JSON that does not
/// parse reads as `Null`, which has no streams) and indexes
/// `streams[0].side_data_list[*].side_data_type` and
/// `streams[0].color_transfer`, taking `as_str` of each. What serde_json
/// parses is named, not restated.
#[verifier::external_body]
fn first_stream_facts(ffprobe_json: &str) -> (r: (Vec<Option<String>>, Option<String>))
    ensures
        (opt_views(r.0@), opt_view(r.1)) == probed_stream_facts(ffprobe_json@),
{
    let probed: serde_json::Value = serde_json::from_str(ffprobe_json).unwrap_or_default();
    let stream = &probed["streams"][0];
    let kinds = stream["side_data_list"].as_array().into_iter().flatten()
        .map(|d| d["side_data_type"].as_str().map(String::from)).collect();
    (kinds, stream["color_transfer"].as_str().map(String::from))
}

/// Classify the first stream of ffprobe's JSON output.
pub fn classify(ffprobe_json: &str) -> (r: SourceHdr)
    ensures
        r == classify_spec(probed_stream_facts(ffprobe_json@).0, probed_stream_facts(ffprobe_json@).1),
{
    let (kinds, transfer) = first_stream_facts(ffprobe_json);
    match transfer {
        Some(t) => classify_stream(&kinds, Some(t.as_str())),
        None => classify_stream(&kinds, None),
    }
}

/// Refuse a preset the source contradicts, and an HDR source packaged without
/// one: an untagged or SDR source leaves the choice to the preset.
pub fn check_source_matches_preset(source: SourceHdr, hdr: Option<&HdrWcg>) -> (r: Result<
    (),
    String,
>)
    ensures
        match hdr {
            None => if is_hdr_spec(source) {
                r matches Err(e) && e@ == missing_preset_message(source)
            } else {
                r is Ok
            },
            Some(h) => if agrees(source, h.is_hlg_spec()) {
                r is Ok
            } else {
                r matches Err(e) && e@ == mismatch_message(source, *h)
            },
        },
{
    let hdr = match hdr {
        None => {
            if source.is_hdr() {
                let mut msg = chars_of("the source carries ");
                push_str(&mut msg, source.describe().as_str());
                push_str(&mut msg, ", which --hdr ");
                push_str(&mut msg, source.presets().as_str());
                push_str(&mut msg, " declares: without it the picture is written as Rec.709 SDR (");
                push_str(&mut msg, "--hdr, the HDR panel control in the GUI");
                push_str(&mut msg, ")");
                return Err(string_of(&msg));
            }
            return Ok(());
        },
        Some(h) => h,
    };
    let hlg = hdr.is_hlg();
    let ok = match source {
        SourceHdr::Pq | SourceHdr::DolbyVision => !hlg,
        SourceHdr::Hlg => hlg,
        SourceHdr::Untagged | SourceHdr::Sdr => true,
    };
    if ok {
        return Ok(());
    }
    let mut msg = chars_of("the source carries ");
    push_str(&mut msg, source.describe().as_str());
    push_str(&mut msg, " and --hdr ");
    push_str(&mut msg, hdr.preset_name());
    push_str(&mut msg, " declares ");
    push_str(
        &mut msg,
        if hlg {
            "HLG"
        } else {
            "PQ"
        },
    );
    push_str(&mut msg, ": package it as --hdr ");
    push_str(&mut msg, source.presets().as_str());
    push_str(&mut msg, " instead (");
    push_str(&mut msg, "--hdr, the HDR panel control in the GUI");
    push_str(&mut msg, ")");
    Err(string_of(&msg))
}

/// The HDR preset a picture is packaged with, given what probing the
/// picture found (`None` where there is no picture to probe): a preset the
/// source contradicts, or an HDR source with no preset, is refused; else the
/// preset is kept. Whether a Dolby Vision source's RPU should then fill the
/// light levels is the second element.
pub fn resolve(probed: Option<SourceHdr>, hdr: Option<HdrWcg>) -> (r: Result<
    (Option<HdrWcg>, bool),
    String,
>)
    ensures
        match probed {
            None => r matches Ok((h, fill)) && h == hdr && !fill,
            Some(source) => match check_outcome(source, hdr) {
                Some(m) => r matches Err(e) && e@ == m,
                None => r matches Ok((h, fill)) && h == hdr && fill == (hdr is Some && source
                    == SourceHdr::DolbyVision),
            },
        },
{
    let source = match probed {
        None => return Ok((hdr, false)),
        Some(s) => s,
    };
    match check_source_matches_preset(source, hdr.as_ref()) {
        Err(e) => Err(e),
        Ok(()) => {
            let fill = hdr.is_some() && source == SourceHdr::DolbyVision;
            Ok((hdr, fill))
        },
    }
}

/// The refusal `check_source_matches_preset` gives, if any.
pub open spec fn check_outcome(source: SourceHdr, hdr: Option<HdrWcg>) -> Option<Seq<char>> {
    match hdr {
        None => if is_hdr_spec(source) {
            Some(missing_preset_message(source))
        } else {
            None
        },
        Some(h) => if agrees(source, h.is_hlg_spec()) {
            None
        } else {
            Some(mismatch_message(source, h))
        },
    }
}

} // verus!
