//! The colour space the picture source carries, mapped onto the encode path.
//!
//! An App 2E picture ships RGB samples in the space its essence descriptor
//! names (Rec.709, or the `--hdr` preset's), so the encode compresses the
//! decoded RGB untouched, and every other spelling is refused by name.
use vstd::prelude::*;
use crate::text::{chars_of, eq_str, lowercase_chars, push_str, string_of, unicode_lower};

verus! {

/// The colour spaces a source can be declared in.
#[derive(Debug, Clone, Copy, PartialEq, Eq, Structural)]
pub enum ColourSpace {
    Rec709,
    P3,
    P3D65,
    Xyz,
    Rec2020,
    Aces,
    AcesCg,
    LogC,
}

/// How the encoder treats the frames of a source. The paths are LUT files or
/// source descriptions, as text.
#[derive(Debug, Clone, PartialEq, Eq)]
pub enum SourceColour {
    KeepRgb,
    DisplayRgb,
    DisplayRgbIn(String),
    KeepRgbFrom(String),
    KeepRgbAfterLut(String),
    AlreadyPq,
    DciLut(String),
}

/// Every value `parse` accepts, in the order the help text lists them.
pub open spec fn values_text() -> Seq<char> {
    "rec709, p3, xyz, rec2020, aces, acescg or logc"@
}

/// The colour space a lower-cased spelling names.
pub open spec fn space_named(l: Seq<char>) -> Option<ColourSpace> {
    if l == "rec709"@ {
        Some(ColourSpace::Rec709)
    } else if l == "p3"@ {
        Some(ColourSpace::P3)
    } else if l == "xyz"@ {
        Some(ColourSpace::Xyz)
    } else if l == "rec2020"@ {
        Some(ColourSpace::Rec2020)
    } else if l == "aces"@ {
        Some(ColourSpace::Aces)
    } else if l == "acescg"@ {
        Some(ColourSpace::AcesCg)
    } else if l == "logc"@ {
        Some(ColourSpace::LogC)
    } else {
        None
    }
}

/// Spell a colour space as the CLI and GUI take it (case-insensitive).
pub fn parse(value: &str) -> (r: Result<ColourSpace, String>)
    ensures
        match space_named(unicode_lower(value@)) {
            Some(s) => r == Ok::<ColourSpace, String>(s),
            None => r matches Err(e) && e@ == "unknown source colour space '"@ + value@
                + "' (expected "@ + values_text() + ")"@,
        },
{
    let l = lowercase_chars(value);
    if eq_str(&l, "rec709") {
        Ok(ColourSpace::Rec709)
    } else if eq_str(&l, "p3") {
        Ok(ColourSpace::P3)
    } else if eq_str(&l, "xyz") {
        Ok(ColourSpace::Xyz)
    } else if eq_str(&l, "rec2020") {
        Ok(ColourSpace::Rec2020)
    } else if eq_str(&l, "aces") {
        Ok(ColourSpace::Aces)
    } else if eq_str(&l, "acescg") {
        Ok(ColourSpace::AcesCg)
    } else if eq_str(&l, "logc") {
        Ok(ColourSpace::LogC)
    } else {
        let mut msg = chars_of("unknown source colour space '");
        push_str(&mut msg, value);
        push_str(&mut msg, "' (expected ");
        push_str(&mut msg, "rec709, p3, xyz, rec2020, aces, acescg or logc");
        push_str(&mut msg, ")");
        Err(string_of(&msg))
    }
}

/// The name `{:?}` prints for a colour space.
pub open spec fn space_debug(s: ColourSpace) -> Seq<char> {
    match s {
        ColourSpace::Rec709 => "Rec709"@,
        ColourSpace::P3 => "P3"@,
        ColourSpace::P3D65 => "P3D65"@,
        ColourSpace::Xyz => "Xyz"@,
        ColourSpace::Rec2020 => "Rec2020"@,
        ColourSpace::Aces => "Aces"@,
        ColourSpace::AcesCg => "AcesCg"@,
        ColourSpace::LogC => "LogC"@,
    }
}

pub fn space_debug_name(s: ColourSpace) -> (r: &'static str)
    ensures
        r@ == space_debug(s),
{
    match s {
        ColourSpace::Rec709 => "Rec709",
        ColourSpace::P3 => "P3",
        ColourSpace::P3D65 => "P3D65",
        ColourSpace::Xyz => "Xyz",
        ColourSpace::Rec2020 => "Rec2020",
        ColourSpace::Aces => "Aces",
        ColourSpace::AcesCg => "AcesCg",
        ColourSpace::LogC => "LogC",
    }
}

/// The colour an App 2E picture essence descriptor declares, and therefore the
/// only space a source may already be in.
pub fn app2e_source_space() -> (r: ColourSpace)
    ensures
        r == ColourSpace::Rec709,
{
    ColourSpace::Rec709
}

pub open spec fn xyz_refusal() -> Seq<char> {
    "xyz is DCI X'Y'Z', a DCP picture: an App 2E track file carries RGB, and the AS-02 wrap refuses a cinema codestream. Convert the source to Rec.709 RGB first, or package it as a DCP with dcpwizard"@
}

pub open spec fn gamut_refusal(s: ColourSpace) -> Seq<char> {
    space_debug(s)
        + " would have to be converted to the Rec.709 RGB an App 2E picture declares, and the only transform postkit has for it lands on X'Y'Z'. Convert the source to Rec.709 RGB first"@
}

pub open spec fn scene_refusal(s: ColourSpace) -> Seq<char> {
    space_debug(s)
        + " is scene-referred: it needs a rendering transform, and the one postkit has lands on X'Y'Z' rather than the Rec.709 RGB an App 2E picture declares. Convert the source first with `imfwizard aces --idt <IDT> --odt <ODT>`"@
}

/// How the encoder should treat frames carrying this colour: Rec.709 is kept
/// as RGB, every other space is refused with the reason.
pub fn to_source_colour(space: ColourSpace) -> (r: Result<SourceColour, String>)
    ensures
        match space {
            ColourSpace::Rec709 => r == Ok::<SourceColour, String>(SourceColour::KeepRgb),
            ColourSpace::Xyz => r matches Err(e) && e@ == xyz_refusal(),
            ColourSpace::Aces | ColourSpace::AcesCg => r matches Err(e) && e@ == scene_refusal(
                space,
            ),
            _ => r matches Err(e) && e@ == gamut_refusal(space),
        },
{
    match space {
        ColourSpace::Rec709 => Ok(SourceColour::KeepRgb),
        ColourSpace::Xyz => Err(
            string_of(
                &chars_of(
                    "xyz is DCI X'Y'Z', a DCP picture: an App 2E track file carries RGB, and the AS-02 wrap refuses a cinema codestream. Convert the source to Rec.709 RGB first, or package it as a DCP with dcpwizard",
                ),
            ),
        ),
        ColourSpace::Aces | ColourSpace::AcesCg => {
            let mut msg = chars_of(space_debug_name(space));
            push_str(
                &mut msg,
                " is scene-referred: it needs a rendering transform, and the one postkit has lands on X'Y'Z' rather than the Rec.709 RGB an App 2E picture declares. Convert the source first with `imfwizard aces --idt <IDT> --odt <ODT>`",
            );
            Err(string_of(&msg))
        },
        _ => {
            let mut msg = chars_of(space_debug_name(space));
            push_str(
                &mut msg,
                " would have to be converted to the Rec.709 RGB an App 2E picture declares, and the only transform postkit has for it lands on X'Y'Z'. Convert the source to Rec.709 RGB first",
            );
            Err(string_of(&msg))
        },
    }
}

/// Refuse `--source-lut`, which lands the decoded frames on DCI X'Y'Z' under
/// a descriptor declaring Rec.709 RGB.
pub fn reject_dci_lut(colour: &SourceColour) -> (r: Result<(), String>)
    ensures
        match colour {
            SourceColour::DciLut(lut) => r matches Err(e) && e@ == "--source-lut "@ + lut@
                + " converts the source to DCI X'Y'Z', which an App 2E picture cannot carry: its essence descriptor declares Rec.709 RGB. Apply the LUT to the source first, or package the result as a DCP with dcpwizard"@,
            _ => r is Ok,
        },
{
    match colour {
        SourceColour::DciLut(lut) => {
            let mut msg = chars_of("--source-lut ");
            push_str(&mut msg, lut.as_str());
            push_str(
                &mut msg,
                " converts the source to DCI X'Y'Z', which an App 2E picture cannot carry: its essence descriptor declares Rec.709 RGB. Apply the LUT to the source first, or package the result as a DCP with dcpwizard",
            );
            Err(string_of(&msg))
        },
        _ => Ok(()),
    }
}

/// Whether the frames reaching the compressor are already X'Y'Z', where a
/// display-RGB subtitle burn would land in the wrong colour space.
pub fn frames_reach_the_compressor_as_xyz(colour: &SourceColour) -> (r: bool)
    ensures
        r == (colour is AlreadyPq || colour is DciLut),
{
    match colour {
        SourceColour::KeepRgb
        | SourceColour::DisplayRgb
        | SourceColour::DisplayRgbIn(_)
        | SourceColour::KeepRgbFrom(_)
        | SourceColour::KeepRgbAfterLut(_) => false,
        SourceColour::AlreadyPq | SourceColour::DciLut(_) => true,
    }
}

/// Whether a source colour asks the encoder for anything beyond compressing
/// the RGB as it stands.
pub fn asks_the_encoder_for_something(colour: &SourceColour) -> (r: bool)
    ensures
        r == !(colour is KeepRgb || colour is DisplayRgb),
{
    match colour {
        SourceColour::KeepRgb | SourceColour::DisplayRgb => false,
        SourceColour::DisplayRgbIn(_)
        | SourceColour::DciLut(_)
        | SourceColour::AlreadyPq
        | SourceColour::KeepRgbFrom(_)
        | SourceColour::KeepRgbAfterLut(_) => true,
    }
}

/// Refuse a source colour that asks the encoder for something when the
/// picture (named `picture`) arrives already compressed as J2K.
pub fn reject_on_precompressed_picture(
    picture: &str,
    precompressed: bool,
    colour: &SourceColour,
) -> (r: Result<(), String>)
    ensures
        (precompressed && !(colour is KeepRgb || colour is DisplayRgb)) ==> (r matches Err(e) && e@
            == picture@ + " is already J2K, so there is no encode for a source colour space to change"@),
        !(precompressed && !(colour is KeepRgb || colour is DisplayRgb)) ==> r is Ok,
{
    if !precompressed {
        return Ok(());
    }
    if asks_the_encoder_for_something(colour) {
        let mut msg = chars_of(picture);
        push_str(
            &mut msg,
            " is already J2K, so there is no encode for a source colour space to change",
        );
        return Err(string_of(&msg));
    }
    Ok(())
}

} // verus!
