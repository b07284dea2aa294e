//! The picture flags' spellings: rotation, flip and the App 2E raster.
use vstd::prelude::*;
use crate::mxf_wrap::app2e_raster;
use crate::text::{
    chars_of, decimal, decimal_chars, eq_str, parse_u32, parse_unsigned, push_all, push_str,
    split_once, split_once_chars, string_of, to_lowercase, trim, trim_chars, unicode_lower,
};

verus! {

/// A quarter-turn rotation of the source picture, clockwise.
#[derive(Debug, Clone, Copy, PartialEq, Eq, Structural)]
pub enum Rotation {
    Unrotated,
    Clockwise90,
    Half,
    CounterClockwise90,
}

/// Every raster App 2E allows, as `--raster` spells them.
pub open spec fn raster_spellings() -> Seq<char> {
    "1920x1080, 2048x1080, 3840x2160 or 4096x2160"@
}

/// What a `--rotate` value selects.
pub open spec fn rotation_named(t: Seq<char>) -> Option<Rotation> {
    if t == "0"@ {
        Some(Rotation::Unrotated)
    } else if t == "90"@ {
        Some(Rotation::Clockwise90)
    } else if t == "180"@ {
        Some(Rotation::Half)
    } else if t == "270"@ {
        Some(Rotation::CounterClockwise90)
    } else {
        None
    }
}

/// Read a `--rotate` value (clockwise degrees).
pub fn parse_rotation(value: &str) -> (r: Result<Rotation, String>)
    ensures
        match rotation_named(trim(value@)) {
            Some(x) => r == Ok::<Rotation, String>(x),
            None => r matches Err(e) && e@ == "unknown rotation '"@ + value@
                + "' (expected 90, 180 or 270, clockwise)"@,
        },
{
    let t = trim_chars(&chars_of(value));
    if eq_str(&t, "0") {
        Ok(Rotation::Unrotated)
    } else if eq_str(&t, "90") {
        Ok(Rotation::Clockwise90)
    } else if eq_str(&t, "180") {
        Ok(Rotation::Half)
    } else if eq_str(&t, "270") {
        Ok(Rotation::CounterClockwise90)
    } else {
        let mut m = chars_of("unknown rotation '");
        push_str(&mut m, value);
        push_str(&mut m, "' (expected 90, 180 or 270, clockwise)");
        Err(string_of(&m))
    }
}

/// What a lower-cased `--flip` value selects: (horizontal, vertical).
pub open spec fn flip_named(l: Seq<char>) -> Option<(bool, bool)> {
    if l == "horizontal"@ {
        Some((true, false))
    } else if l == "vertical"@ {
        Some((false, true))
    } else if l == "both"@ {
        Some((true, true))
    } else {
        None
    }
}

/// Read a `--flip` value into (horizontal, vertical).
pub fn parse_flip(value: &str) -> (r: Result<(bool, bool), String>)
    ensures
        match flip_named(unicode_lower(trim(value@))) {
            Some(x) => r == Ok::<(bool, bool), String>(x),
            None => r matches Err(e) && e@ == "unknown flip '"@ + value@
                + "' (expected horizontal, vertical or both)"@,
        },
{
    let t = string_of(&trim_chars(&chars_of(value)));
    let l = chars_of(to_lowercase(t.as_str()).as_str());
    if eq_str(&l, "horizontal") {
        Ok((true, false))
    } else if eq_str(&l, "vertical") {
        Ok((false, true))
    } else if eq_str(&l, "both") {
        Ok((true, true))
    } else {
        let mut m = chars_of("unknown flip '");
        push_str(&mut m, value);
        push_str(&mut m, "' (expected horizontal, vertical or both)");
        Err(string_of(&m))
    }
}

pub open spec fn raster_refusal(width: u32, height: u32) -> Seq<char> {
    "raster "@ + decimal(width as nat) + "x"@ + decimal(height as nat)
        + " is not one App 2E allows: pick "@ + raster_spellings()
}

/// Refuse a raster App 2E does not allow.
pub fn require_app2e_raster(width: u32, height: u32) -> (r: Result<(), String>)
    ensures
        app2e_raster(width, height) ==> r is Ok,
        !app2e_raster(width, height) ==> (r matches Err(e) && e@ == raster_refusal(width, height)),
{
    if (width == 1920 && height == 1080) || (width == 2048 && height == 1080) || (width == 3840
        && height == 2160) || (width == 4096 && height == 2160) {
        return Ok(());
    }
    let mut m = chars_of("raster ");
    push_all(&mut m, &decimal_chars(width as u64));
    push_str(&mut m, "x");
    push_all(&mut m, &decimal_chars(height as u64));
    push_str(&mut m, " is not one App 2E allows: pick ");
    push_str(&mut m, "1920x1080, 2048x1080, 3840x2160 or 4096x2160");
    Err(string_of(&m))
}

pub open spec fn raster_unreadable(value: Seq<char>) -> Seq<char> {
    "cannot read raster '"@ + value + "': spell it WIDTHxHEIGHT, one of "@ + raster_spellings()
}

/// What a `--raster` value says: its two numbers, or why it cannot be read,
/// or the refusal of a raster App 2E does not allow.
pub open spec fn raster_spec(value: Seq<char>) -> Result<(u32, u32), Seq<char>> {
    match split_once(trim(value), 'x') {
        None => Err(raster_unreadable(value)),
        Some((w, h)) => match (
            parse_unsigned(trim(w), u32::MAX as nat),
            parse_unsigned(trim(h), u32::MAX as nat),
        ) {
            (Some(wv), Some(hv)) => if app2e_raster(wv as u32, hv as u32) {
                Ok((wv as u32, hv as u32))
            } else {
                Err(raster_refusal(wv as u32, hv as u32))
            },
            _ => Err(raster_unreadable(value)),
        },
    }
}

fn unreadable(value: &str) -> (r: String)
    ensures
        r@ == raster_unreadable(value@),
{
    let mut m = chars_of("cannot read raster '");
    push_str(&mut m, value);
    push_str(&mut m, "': spell it WIDTHxHEIGHT, one of ");
    push_str(&mut m, "1920x1080, 2048x1080, 3840x2160 or 4096x2160");
    string_of(&m)
}

/// Read a `--raster` value, which has to be one of the App 2E rasters.
pub fn parse_raster(value: &str) -> (r: Result<(u32, u32), String>)
    ensures
        match raster_spec(value@) {
            Ok(x) => r == Ok::<(u32, u32), String>(x),
            Err(m) => r matches Err(e) && e@ == m,
        },
{
    let t = trim_chars(&chars_of(value));
    let (w, h) = match split_once_chars(&t, 'x') {
        Some(p) => p,
        None => return Err(unreadable(value)),
    };
    let width = match parse_u32(&trim_chars(&w)) {
        Some(v) => v,
        None => return Err(unreadable(value)),
    };
    let height = match parse_u32(&trim_chars(&h)) {
        Some(v) => v,
        None => return Err(unreadable(value)),
    };
    match require_app2e_raster(width, height) {
        Ok(()) => Ok((width, height)),
        Err(e) => Err(e),
    }
}

} // verus!
