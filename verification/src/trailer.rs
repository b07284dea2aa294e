//! The selectors of a trailer package: rating systems and band colours.
use vstd::prelude::*;
use crate::text::{chars_of, eq_str, push_str, string_of, to_lowercase, unicode_lower};

verus! {

/// A rating system a trailer's rating card follows.
#[derive(Debug, Clone, Copy, PartialEq, Eq, Structural)]
pub enum RatingSystem {
    Mpaa,
    Bbfc,
    Fsk,
    Custom,
}

/// The band colour of a trailer's rating card.
#[derive(Debug, Clone, Copy, PartialEq, Eq, Structural)]
pub enum TrailerBand {
    Green,
    Red,
    Yellow,
}

/// The rating system selectors, in order.
pub open spec fn rating_system_names_spec() -> Seq<char> {
    "mpaa, bbfc, fsk, custom"@
}

/// The band selectors, in order.
pub open spec fn band_names_spec() -> Seq<char> {
    "green, red, yellow"@
}

pub fn rating_system_names() -> (r: String)
    ensures
        r@ == rating_system_names_spec(),
{
    string_of(&chars_of("mpaa, bbfc, fsk, custom"))
}

pub fn band_names() -> (r: String)
    ensures
        r@ == band_names_spec(),
{
    string_of(&chars_of("green, red, yellow"))
}

/// The rating system a lower-cased selector names.
pub open spec fn rating_system_named(l: Seq<char>) -> Option<RatingSystem> {
    if l == "mpaa"@ {
        Some(RatingSystem::Mpaa)
    } else if l == "bbfc"@ {
        Some(RatingSystem::Bbfc)
    } else if l == "fsk"@ {
        Some(RatingSystem::Fsk)
    } else if l == "custom"@ {
        Some(RatingSystem::Custom)
    } else {
        None
    }
}

/// The band a lower-cased selector names.
pub open spec fn band_named(l: Seq<char>) -> Option<TrailerBand> {
    if l == "green"@ {
        Some(TrailerBand::Green)
    } else if l == "red"@ {
        Some(TrailerBand::Red)
    } else if l == "yellow"@ {
        Some(TrailerBand::Yellow)
    } else {
        None
    }
}

/// Parse a rating system selector, erring with the ones that work.
pub fn rating_system_from_name(name: &str) -> (r: Result<RatingSystem, String>)
    ensures
        match rating_system_named(unicode_lower(name@)) {
            Some(s) => r == Ok::<RatingSystem, String>(s),
            None => r matches Err(e) && e@ == "unknown rating system '"@ + name@ + "' (known: "@
                + rating_system_names_spec() + ")"@,
        },
{
    let l = chars_of(to_lowercase(name).as_str());
    if eq_str(&l, "mpaa") {
        Ok(RatingSystem::Mpaa)
    } else if eq_str(&l, "bbfc") {
        Ok(RatingSystem::Bbfc)
    } else if eq_str(&l, "fsk") {
        Ok(RatingSystem::Fsk)
    } else if eq_str(&l, "custom") {
        Ok(RatingSystem::Custom)
    } else {
        let mut m = chars_of("unknown rating system '");
        push_str(&mut m, name);
        push_str(&mut m, "' (known: ");
        push_str(&mut m, rating_system_names().as_str());
        push_str(&mut m, ")");
        Err(string_of(&m))
    }
}

/// Parse a band colour selector, erring with the ones that work.
pub fn band_from_name(name: &str) -> (r: Result<TrailerBand, String>)
    ensures
        match band_named(unicode_lower(name@)) {
            Some(b) => r == Ok::<TrailerBand, String>(b),
            None => r matches Err(e) && e@ == "unknown band '"@ + name@ + "' (known: "@
                + band_names_spec() + ")"@,
        },
{
    let l = chars_of(to_lowercase(name).as_str());
    if eq_str(&l, "green") {
        Ok(TrailerBand::Green)
    } else if eq_str(&l, "red") {
        Ok(TrailerBand::Red)
    } else if eq_str(&l, "yellow") {
        Ok(TrailerBand::Yellow)
    } else {
        let mut m = chars_of("unknown band '");
        push_str(&mut m, name);
        push_str(&mut m, "' (known: ");
        push_str(&mut m, band_names().as_str());
        push_str(&mut m, ")");
        Err(string_of(&m))
    }
}

} // verus!
