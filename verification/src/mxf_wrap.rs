//! MXF track-file wrapping: the App 2E picture constraints and the PKL hash
//! form of a track file's digest.
use vstd::prelude::*;
use vstd::string::StringSliceAdditionalSpecFns;
use crate::text::{chars_of, decimal, decimal_chars, push_all, push_str, string_of};

verus! {

/// MXF wrapping result.
#[derive(Debug, Clone, Default)]
pub struct MxfWrapResult {
    pub success: bool,
    pub error: String,
    pub track_file: crate::MxfTrackFile,
}

/// Whether `(width, height, bit_depth)` is picture essence App 2E allows.
pub open spec fn app2e_raster(width: u32, height: u32) -> bool {
    (width == 1920 && height == 1080) || (width == 2048 && height == 1080) || (width == 3840
        && height == 2160) || (width == 4096 && height == 2160)
}

pub open spec fn app2e_depth(bit_depth: u8) -> bool {
    bit_depth == 8 || bit_depth == 10 || bit_depth == 12
}

/// Refuse picture essence App 2E does not allow: one of four rasters at 8, 10
/// or 12 bits.
pub fn validate_app2e_picture(width: u32, height: u32, bit_depth: u8) -> (r: Result<(), String>)
    ensures
        !app2e_raster(width, height) ==> (r matches Err(e) && e@
            == "App 2E requires 1920x1080, 2048x1080, 3840x2160, or 4096x2160 picture essence, got "@
            + decimal(width as nat) + "x"@ + decimal(height as nat)),
        app2e_raster(width, height) && !app2e_depth(bit_depth) ==> (r matches Err(e) && e@
            == "App 2E requires 8, 10, or 12-bit picture essence, got "@ + decimal(
            bit_depth as nat,
        ) + "-bit"@),
        app2e_raster(width, height) && app2e_depth(bit_depth) ==> r is Ok,
{
    if !((width == 1920 && height == 1080) || (width == 2048 && height == 1080) || (width == 3840
        && height == 2160) || (width == 4096 && height == 2160)) {
        let mut msg = chars_of(
            "App 2E requires 1920x1080, 2048x1080, 3840x2160, or 4096x2160 picture essence, got ",
        );
        push_all(&mut msg, &decimal_chars(width as u64));
        push_str(&mut msg, "x");
        push_all(&mut msg, &decimal_chars(height as u64));
        return Err(string_of(&msg));
    }
    if !(bit_depth == 8 || bit_depth == 10 || bit_depth == 12) {
        let mut msg = chars_of("App 2E requires 8, 10, or 12-bit picture essence, got ");
        push_all(&mut msg, &decimal_chars(bit_depth as u64));
        push_str(&mut msg, "-bit");
        return Err(string_of(&msg));
    }
    Ok(())
}

/// The value of an ASCII hexadecimal digit.
pub open spec fn hex_value(b: u8) -> Option<u8> {
    if 48 <= b <= 57 {
        Some((b - 48) as u8)
    } else if 97 <= b <= 102 {
        Some((b - 97 + 10) as u8)
    } else if 65 <= b <= 70 {
        Some((b - 65 + 10) as u8)
    } else {
        None
    }
}

pub fn hex_nibble(byte: u8) -> (r: Option<u8>)
    ensures
        r == hex_value(byte),
{
    if 48 <= byte && byte <= 57 {
        Some(byte - 48)
    } else if 97 <= byte && byte <= 102 {
        Some(byte - 97 + 10)
    } else if 65 <= byte && byte <= 70 {
        Some(byte - 65 + 10)
    } else {
        None
    }
}

/// The standard base64 alphabet (RFC 4648, section 4).
pub open spec fn base64_digit(v: int) -> char {
    if v < 26 {
        (v + 65) as char
    } else if v < 52 {
        (v - 26 + 97) as char
    } else if v < 62 {
        (v - 52 + 48) as char
    } else if v == 62 {
        '+'
    } else {
        '/'
    }
}

/// Standard base64 with `=` padding (RFC 4648, section 4).
pub open spec fn base64_standard(b: Seq<u8>) -> Seq<char>
    decreases b.len(),
{
    if b.len() == 0 {
        Seq::empty()
    } else if b.len() == 1 {
        seq![base64_digit(b[0] as int / 4), base64_digit((b[0] as int % 4) * 16), '=', '=']
    } else if b.len() == 2 {
        seq![
            base64_digit(b[0] as int / 4),
            base64_digit((b[0] as int % 4) * 16 + b[1] as int / 16),
            base64_digit((b[1] as int % 16) * 4),
            '=',
        ]
    } else {
        seq![
            base64_digit(b[0] as int / 4),
            base64_digit((b[0] as int % 4) * 16 + b[1] as int / 16),
            base64_digit((b[1] as int % 16) * 4 + b[2] as int / 64),
            base64_digit(b[2] as int % 64),
        ] + base64_standard(b.skip(3))
    }
}

/// Encode `bytes` as standard padded base64.
///
/// Calls `base64::engine::general_purpose::STANDARD.encode`, whose alphabet
/// and padding are those of RFC 4648 section 4.
#[verifier::external_body]
fn base64_encode(bytes: &[u8]) -> (r: String)
    ensures
        r@ == base64_standard(bytes@),
{
    base64::Engine::encode(&base64::engine::general_purpose::STANDARD, bytes)
}

/// The digest a 40-character hexadecimal SHA-1 spells.
pub open spec fn hex_digest(h: Seq<u8>) -> Seq<u8> {
    Seq::new(20, |k: int| (hex_value(h[2 * k])->0 * 16 + hex_value(h[2 * k + 1])->0) as u8)
}

pub open spec fn all_hex(h: Seq<u8>) -> bool {
    forall|i: int| 0 <= i < h.len() ==> (#[trigger] hex_value(h[i])) is Some
}

/// The PKL Hash field is xs:base64Binary, while the wrapper reports a hex
/// SHA-1: decode the hex to the raw digest and re-encode it. A digest that is
/// already base64 fails here rather than being encoded twice.
pub fn base64_digest_from_hex(hex: &str) -> (r: Result<String, String>)
    ensures
        hex.spec_bytes().len() != 40 ==> (r matches Err(e) && e@ == "expected 40 hex characters, got "@
            + decimal(hex.spec_bytes().len()) + ": "@ + hex@),
        hex.spec_bytes().len() == 40 && !all_hex(hex.spec_bytes()) ==> (r matches Err(e) && e@
            == "not hexadecimal: "@ + hex@),
        hex.spec_bytes().len() == 40 && all_hex(hex.spec_bytes()) ==> (r matches Ok(s) && s@
            == base64_standard(hex_digest(hex.spec_bytes()))),
{
    let bytes = hex.as_bytes();
    let len = bytes.len();
    if len != 40 {
        let mut msg = chars_of("expected 40 hex characters, got ");
        push_all(&mut msg, &decimal_chars(len as u64));
        push_str(&mut msg, ": ");
        push_str(&mut msg, hex);
        return Err(string_of(&msg));
    }
    let mut digest: Vec<u8> = Vec::new();
    let mut k: usize = 0;
    while k < 20
        invariant
            k <= 20,
            bytes@ == hex.spec_bytes(),
            bytes@.len() == 40,
            digest@.len() == k,
            forall|j: int| 0 <= j < 2 * k ==> (#[trigger] hex_value(bytes@[j])) is Some,
            forall|j: int| 0 <= j < k ==> #[trigger] digest@[j] == hex_digest(bytes@)[j],
        decreases 20 - k,
    {
        let high = hex_nibble(bytes[2 * k]);
        let low = hex_nibble(bytes[2 * k + 1]);
        match (high, low) {
            (Some(h), Some(l)) => {
                assert(h < 16 && l < 16);
                digest.push(h * 16 + l);
            },
            _ => {
                let mut msg = chars_of("not hexadecimal: ");
                push_str(&mut msg, hex);
                return Err(string_of(&msg));
            },
        }
        k += 1;
    }
    assert(digest@ =~= hex_digest(bytes@));
    Ok(base64_encode(digest.as_slice()))
}

} // verus!
