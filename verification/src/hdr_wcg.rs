//! HDR/WCG picture metadata (SMPTE ST 2067-21) for the IMF picture essence.
//!
//! A `--hdr` preset selects the transfer characteristic and colour primaries ULs;
//! an optional mastering-display block (ST 2086) adds display primaries, white
//! point and luminance. MaxCLL/MaxFALL are CPL ExtensionProperties only, so they
//! ride on `HdrWcg` but never reach the essence descriptor.
use vstd::prelude::*;
use crate::text::{
    all_ascii, ascii_lower, chars_of, decimal, eq_str, find_from, is_ascii_digit, lemma_decimal_reads_back, find, find_chars, is_alpha, is_ascii_alpha, join,
    join_chars, lemma_find_from_bounds, lowercase_chars, parse_u32, parse_u64_bounded, parse_unsigned, push_all,
    push_str, slice, split_once, split_once_chars, string_of, trim, trim_chars, unicode_lower,
    views,
};

verus! {

// ---------------------------------------------------------------------------
// Universal labels
// ---------------------------------------------------------------------------

/// TransferCharacteristic_SMPTEST2084 (PQ), COLOR.6 and COLOR.7.
pub open spec fn st2084_ul() -> Seq<u8> {
    seq![0x06u8, 0x0e, 0x2b, 0x34, 0x04, 0x01, 0x01, 0x0d, 0x04, 0x01, 0x01, 0x01, 0x01, 0x0a, 0x00, 0x00]
}

/// TransferCharacteristic_HLG_OETF, the COLOR.8 transfer.
pub open spec fn hlg_ul() -> Seq<u8> {
    seq![0x06u8, 0x0e, 0x2b, 0x34, 0x04, 0x01, 0x01, 0x0d, 0x04, 0x01, 0x01, 0x01, 0x01, 0x0b, 0x00, 0x00]
}

/// ColorPrimaries_ITU2020.
pub open spec fn bt2020_ul() -> Seq<u8> {
    seq![0x06u8, 0x0e, 0x2b, 0x34, 0x04, 0x01, 0x01, 0x0d, 0x04, 0x01, 0x01, 0x01, 0x03, 0x04, 0x00, 0x00]
}

/// ColorPrimaries_P3D65.
pub open spec fn p3d65_ul() -> Seq<u8> {
    seq![0x06u8, 0x0e, 0x2b, 0x34, 0x04, 0x01, 0x01, 0x0d, 0x04, 0x01, 0x01, 0x01, 0x03, 0x06, 0x00, 0x00]
}

pub fn transfer_characteristic_st2084() -> (r: [u8; 16])
    ensures
        r@ == st2084_ul(),
{
    let r: [u8; 16] = [
        0x06, 0x0e, 0x2b, 0x34, 0x04, 0x01, 0x01, 0x0d, 0x04, 0x01, 0x01, 0x01, 0x01, 0x0a, 0x00,
        0x00,
    ];
    assert(r@ =~= st2084_ul());
    r
}

pub fn transfer_characteristic_hlg() -> (r: [u8; 16])
    ensures
        r@ == hlg_ul(),
{
    let r: [u8; 16] = [
        0x06, 0x0e, 0x2b, 0x34, 0x04, 0x01, 0x01, 0x0d, 0x04, 0x01, 0x01, 0x01, 0x01, 0x0b, 0x00,
        0x00,
    ];
    assert(r@ =~= hlg_ul());
    r
}

pub fn color_primaries_bt2020() -> (r: [u8; 16])
    ensures
        r@ == bt2020_ul(),
{
    let r: [u8; 16] = [
        0x06, 0x0e, 0x2b, 0x34, 0x04, 0x01, 0x01, 0x0d, 0x04, 0x01, 0x01, 0x01, 0x03, 0x04, 0x00,
        0x00,
    ];
    assert(r@ =~= bt2020_ul());
    r
}

pub fn color_primaries_p3d65() -> (r: [u8; 16])
    ensures
        r@ == p3d65_ul(),
{
    let r: [u8; 16] = [
        0x06, 0x0e, 0x2b, 0x34, 0x04, 0x01, 0x01, 0x0d, 0x04, 0x01, 0x01, 0x01, 0x03, 0x06, 0x00,
        0x00,
    ];
    assert(r@ =~= p3d65_ul());
    r
}

/// Whether two labels hold the same bytes.
pub fn same_ul(a: &[u8; 16], b: &[u8; 16]) -> (r: bool)
    ensures
        r == (a@ == b@),
{
    let mut i: usize = 0;
    while i < 16
        invariant
            i <= 16,
            a@.len() == 16,
            b@.len() == 16,
            forall|k: int| 0 <= k < i ==> a@[k] == b@[k],
        decreases 16 - i,
    {
        if a[i] != b[i] {
            return false;
        }
        i += 1;
    }
    assert(a@ =~= b@);
    true
}

// ---------------------------------------------------------------------------
// Presets
// ---------------------------------------------------------------------------

/// Every `--hdr` preset name, in table order.
pub open spec fn preset_names() -> Seq<Seq<char>> {
    seq!["pq-bt2020"@, "pq-p3d65"@, "hlg-bt2020"@]
}

pub open spec fn preset_transfer(i: int) -> Seq<u8> {
    if i == 2 {
        hlg_ul()
    } else {
        st2084_ul()
    }
}

pub open spec fn preset_primaries(i: int) -> Seq<u8> {
    if i == 1 {
        p3d65_ul()
    } else {
        bt2020_ul()
    }
}

/// The table index of the preset named `name`.
pub open spec fn preset_index(name: Seq<char>) -> Option<int> {
    if name == preset_names()[0] {
        Some(0)
    } else if name == preset_names()[1] {
        Some(1)
    } else if name == preset_names()[2] {
        Some(2)
    } else {
        None
    }
}

/// The names of the presets whose transfer is `t`, in table order.
pub open spec fn names_with_transfer(t: Seq<u8>) -> Seq<Seq<char>> {
    (if preset_transfer(0) == t {
        seq![preset_names()[0]]
    } else {
        Seq::empty()
    }) + (if preset_transfer(1) == t {
        seq![preset_names()[1]]
    } else {
        Seq::empty()
    }) + (if preset_transfer(2) == t {
        seq![preset_names()[2]]
    } else {
        Seq::empty()
    })
}

fn preset_name_chars(i: usize) -> (r: Vec<char>)
    requires
        i < 3,
    ensures
        r@ == preset_names()[i as int],
{
    if i == 0 {
        chars_of("pq-bt2020")
    } else if i == 1 {
        chars_of("pq-p3d65")
    } else {
        chars_of("hlg-bt2020")
    }
}

fn preset_transfer_ul(i: usize) -> (r: [u8; 16])
    ensures
        r@ == preset_transfer(i as int),
{
    if i == 2 {
        transfer_characteristic_hlg()
    } else {
        transfer_characteristic_st2084()
    }
}

fn preset_primaries_ul(i: usize) -> (r: [u8; 16])
    ensures
        r@ == preset_primaries(i as int),
{
    if i == 1 {
        color_primaries_p3d65()
    } else {
        color_primaries_bt2020()
    }
}

/// Every preset name, comma separated, for help and refusals.
pub fn preset_list() -> (r: String)
    ensures
        r@ == join(preset_names(), ", "@),
{
    let mut names: Vec<Vec<char>> = Vec::new();
    let mut i: usize = 0;
    while i < 3
        invariant
            i <= 3,
            views(names@) == preset_names().take(i as int),
        decreases 3 - i,
    {
        let n = preset_name_chars(i);
        let ghost old_names = names@;
        names.push(n);
        assert(names@ == old_names.push(n));
        assert(views(names@) =~= views(old_names).push(n@));
        i += 1;
        assert(views(names@) =~= preset_names().take(i as int));
    }
    assert(preset_names().take(3) == preset_names());
    let sep = chars_of(", ");
    string_of(&join_chars(&names, &sep))
}

/// The presets carrying `transfer`, joined with " or ".
pub fn presets_with_transfer(transfer: &[u8; 16]) -> (r: String)
    ensures
        r@ == join(names_with_transfer(transfer@), " or "@),
{
    let mut names: Vec<Vec<char>> = Vec::new();
    let ghost acc: Seq<Seq<char>> = Seq::empty();
    let mut i: usize = 0;
    while i < 3
        invariant
            i <= 3,
            views(names@) == (if i >= 1 && preset_transfer(0) == transfer@ {
                seq![preset_names()[0]]
            } else {
                Seq::<Seq<char>>::empty()
            }) + (if i >= 2 && preset_transfer(1) == transfer@ {
                seq![preset_names()[1]]
            } else {
                Seq::<Seq<char>>::empty()
            }) + (if i >= 3 && preset_transfer(2) == transfer@ {
                seq![preset_names()[2]]
            } else {
                Seq::<Seq<char>>::empty()
            }),
        decreases 3 - i,
    {
        let t = preset_transfer_ul(i);
        if same_ul(&t, transfer) {
            let n = preset_name_chars(i);
            names.push(n);
        }
        i += 1;
    }
    let sep = chars_of(" or ");
    string_of(&join_chars(&names, &sep))
}

// ---------------------------------------------------------------------------
// Metadata
// ---------------------------------------------------------------------------

/// ST 2086 mastering display, raw units. Primaries are in R,G,B order; x/y are
/// 0.00002 increments, luminance 0.0001 cd/m^2 increments.
#[derive(Debug, Clone, Default, PartialEq, Eq)]
pub struct MasteringDisplay {
    pub primaries: [[u16; 2]; 3],
    pub white_point: [u16; 2],
    pub max_luminance: u32,
    pub min_luminance: u32,
}

/// HDR/WCG metadata for one picture: transfer + colour primaries ULs, an optional
/// mastering display, and the optional content light levels.
#[derive(Debug, Clone, Default, PartialEq, Eq)]
pub struct HdrWcg {
    pub transfer: [u8; 16],
    pub color_primaries: [u8; 16],
    pub mastering: Option<MasteringDisplay>,
    /// Maximum content light level, cd/m^2 (CPL ExtensionProperties only).
    pub max_cll: Option<u16>,
    /// Maximum frame-average light level, cd/m^2 (CPL ExtensionProperties only).
    pub max_fall: Option<u16>,
}

/// The name of the preset with these labels, or "the HDR preset".
pub open spec fn preset_name_of(transfer: Seq<u8>, primaries: Seq<u8>) -> Seq<char> {
    if transfer == preset_transfer(0) && primaries == preset_primaries(0) {
        preset_names()[0]
    } else if transfer == preset_transfer(1) && primaries == preset_primaries(1) {
        preset_names()[1]
    } else if transfer == preset_transfer(2) && primaries == preset_primaries(2) {
        preset_names()[2]
    } else {
        "the HDR preset"@
    }
}

/// The flags given among `--max-cll` and `--max-fall`.
pub open spec fn given_light_flags(max_cll: Option<u16>, max_fall: Option<u16>) -> Seq<
    Seq<char>,
> {
    (if max_cll is Some {
        seq!["--max-cll"@]
    } else {
        Seq::empty()
    }) + (if max_fall is Some {
        seq!["--max-fall"@]
    } else {
        Seq::empty()
    })
}

/// The refusal of light levels on an HLG preset named `name`.
pub open spec fn hlg_light_level_refusal(flags: Seq<Seq<char>>, name: Seq<char>) -> Seq<char> {
    join(flags, " and "@)
        + " only applies to a PQ preset: ST 2067-21 clause 7.5 defines MaxCLL and MaxFALL for COLOR.6 and COLOR.7, and "@
        + name + " is COLOR.8"@
}

pub open spec fn unknown_preset_message(preset: Seq<char>) -> Seq<char> {
    "unknown HDR preset '"@ + preset + "' (expected "@ + join(preset_names(), ", "@) + ")"@
}

impl HdrWcg {
    pub open spec fn is_hlg_spec(&self) -> bool {
        self.transfer@ == hlg_ul()
    }

    /// Build from the `--hdr <preset>` selector and optional `--mastering-display`
    /// (x265 master-display string). Unknown presets and malformed strings error.
    pub fn from_flags(preset: &str, mastering: Option<&str>) -> (r: Result<Self, String>)
        ensures
            match preset_index(unicode_lower(preset@)) {
                None => r matches Err(e) && e@ == unknown_preset_message(preset@),
                Some(i) => match mastering {
                    None => r matches Ok(h) && h.transfer@ == preset_transfer(i)
                        && h.color_primaries@ == preset_primaries(i) && h.mastering is None
                        && h.max_cll is None && h.max_fall is None,
                    Some(m) => match mastering_outcome(m@) {
                        Err(msg) => r matches Err(e) && e@ == msg,
                        Ok(md) => r matches Ok(h) && h.transfer@ == preset_transfer(i)
                            && h.color_primaries@ == preset_primaries(i) && (h.mastering matches Some(
                            x) && md_equals(x, md)) && h.max_cll is None && h.max_fall is None,
                    },
                },
            },
    {
        let lowered = lowercase_chars(preset);
        let mut found: Option<usize> = None;
        let mut i: usize = 0;
        while i < 3
            invariant
                i <= 3,
                found matches Some(k) ==> preset_index(lowered@) == Some(k as int),
                found is None ==> forall|k: int| 0 <= k < i ==> lowered@ != preset_names()[k],
            decreases 3 - i,
        {
            if found.is_none() {
                let n = preset_name_chars(i);
                if crate::text::eq(&lowered, &n) {
                    found = Some(i);
                }
            }
            i += 1;
        }
        let idx = match found {
            Some(k) => k,
            None => {
                let mut msg = chars_of("unknown HDR preset '");
                push_str(&mut msg, preset);
                push_str(&mut msg, "' (expected ");
                let list = preset_list();
                push_str(&mut msg, list.as_str());
                push_str(&mut msg, ")");
                return Err(string_of(&msg));
            },
        };
        let md = match mastering {
            None => None,
            Some(m) => match parse_mastering_display(m) {
                Ok(md) => Some(md),
                Err(e) => {
                    return Err(e);
                },
            },
        };
        Ok(
            HdrWcg {
                transfer: preset_transfer_ul(idx),
                color_primaries: preset_primaries_ul(idx),
                mastering: md,
                max_cll: None,
                max_fall: None,
            },
        )
    }

    /// Attach the `--max-cll` / `--max-fall` content light levels, refused on an
    /// HLG preset (ST 2067-21 defines them for PQ only).
    pub fn with_content_light_levels(self, max_cll: Option<u16>, max_fall: Option<u16>) -> (r:
        Result<Self, String>)
        ensures
            (self.is_hlg_spec() && given_light_flags(max_cll, max_fall).len() > 0) ==> (r matches Err(
                e,
            ) && e@ == hlg_light_level_refusal(
                given_light_flags(max_cll, max_fall),
                preset_name_of(self.transfer@, self.color_primaries@),
            )),
            !(self.is_hlg_spec() && given_light_flags(max_cll, max_fall).len() > 0) ==> (r matches Ok(
                h,
            ) && h.transfer == self.transfer && h.color_primaries == self.color_primaries
                && h.mastering == self.mastering && h.max_cll == max_cll && h.max_fall == max_fall),
    {
        let mut given: Vec<Vec<char>> = Vec::new();
        if max_cll.is_some() {
            given.push(chars_of("--max-cll"));
        }
        if max_fall.is_some() {
            given.push(chars_of("--max-fall"));
        }
        assert(views(given@) == given_light_flags(max_cll, max_fall));
        if self.is_hlg() && given.len() > 0 {
            let sep = chars_of(" and ");
            let mut msg = join_chars(&given, &sep);
            push_str(
                &mut msg,
                " only applies to a PQ preset: ST 2067-21 clause 7.5 defines MaxCLL and MaxFALL for COLOR.6 and COLOR.7, and ",
            );
            push_str(&mut msg, self.preset_name());
            push_str(&mut msg, " is COLOR.8");
            return Err(string_of(&msg));
        }
        Ok(HdrWcg { max_cll, max_fall, ..self })
    }

    pub fn is_hlg(&self) -> (r: bool)
        ensures
            r == self.is_hlg_spec(),
    {
        let hlg = transfer_characteristic_hlg();
        same_ul(&self.transfer, &hlg)
    }

    /// The preset this metadata came from, by its labels.
    pub fn preset_name(&self) -> (r: &'static str)
        ensures
            r@ == preset_name_of(self.transfer@, self.color_primaries@),
    {
        let mut i: usize = 0;
        while i < 3
            invariant
                i <= 3,
                forall|k: int|
                    0 <= k < i ==> !(self.transfer@ == preset_transfer(k)
                        && self.color_primaries@ == preset_primaries(k)),
            decreases 3 - i,
        {
            let t = preset_transfer_ul(i);
            let p = preset_primaries_ul(i);
            if same_ul(&self.transfer, &t) && same_ul(&self.color_primaries, &p) {
                return if i == 0 {
                    "pq-bt2020"
                } else if i == 1 {
                    "pq-p3d65"
                } else {
                    "hlg-bt2020"
                };
            }
            i += 1;
        }
        "the HDR preset"
    }
}

// ---------------------------------------------------------------------------
// Mastering display strings
// ---------------------------------------------------------------------------

/// What the scan has collected so far: each component's last value.
pub struct MdScan {
    pub r: Option<(u16, u16)>,
    pub g: Option<(u16, u16)>,
    pub b: Option<(u16, u16)>,
    pub wp: Option<(u16, u16)>,
    pub l: Option<(u32, u32)>,
}

/// Whether `x` holds the components the scan collected.
pub open spec fn md_equals(x: MasteringDisplay, st: MdScan) -> bool {
    &&& st.r matches Some(r) && x.primaries[0]@ == seq![r.0, r.1]
    &&& st.g matches Some(g) && x.primaries[1]@ == seq![g.0, g.1]
    &&& st.b matches Some(b) && x.primaries[2]@ == seq![b.0, b.1]
    &&& st.wp matches Some(w) && x.white_point@ == seq![w.0, w.1]
    &&& st.l matches Some(l) && x.max_luminance == l.0 && x.min_luminance == l.1
}

pub open spec fn pair_message(tag: Seq<char>) -> Seq<char> {
    "expected 'x,y' in '"@ + tag + "(...)'"@
}

pub open spec fn bad_number_message(n: Seq<char>, tag: Seq<char>) -> Seq<char> {
    "bad number '"@ + n + "' in '"@ + tag + "(...)'"@
}

/// The largest number a component with this tag takes: the primaries and
/// the white point are `u16` raw ST 2086 units, the luminances `u32`.
pub open spec fn component_max(tag: Seq<char>) -> nat {
    if tag == "R"@ || tag == "G"@ || tag == "B"@ || tag == "WP"@ {
        65535
    } else {
        u32::MAX as nat
    }
}

/// `parse_pair`'s answer: two numbers no larger than `max` separated by the
/// first comma.
pub open spec fn pair_outcome(inner: Seq<char>, tag: Seq<char>, max: nat) -> Result<(u32, u32), Seq<char>> {
    match split_once(inner, ',') {
        None => Err(pair_message(tag)),
        Some((a, b)) => match parse_unsigned(trim(a), max) {
            None => Err(bad_number_message(a, tag)),
            Some(x) => match parse_unsigned(trim(b), max) {
                None => Err(bad_number_message(b, tag)),
                Some(y) => Ok((x as u32, y as u32)),
            },
        },
    }
}

/// End of the alphabetic run starting at `i`.
pub open spec fn alpha_run_end(s: Seq<char>, i: int) -> int
    decreases s.len() - i,
{
    if 0 <= i < s.len() && is_ascii_alpha(s[i]) {
        alpha_run_end(s, i + 1)
    } else {
        i
    }
}

/// The scan of a master-display string from position `i`, as the loop in
/// `parse_mastering_display` walks it: separators are skipped, each
/// alphabetic tag must be followed by `(`, a closing `)` and a pair.
pub open spec fn md_scan(s: Seq<char>, i: int, st: MdScan) -> Result<MdScan, Seq<char>>
    decreases s.len() - i, 1int,
{
    if i < 0 || i >= s.len() {
        Ok(st)
    } else if !is_ascii_alpha(s[i]) {
        md_scan(s, i + 1, st)
    } else {
        let end = alpha_run_end(s, i);
        let tag = s.subrange(i, end);
        if end < i || end >= s.len() || s[end] != '(' {
            Err("expected '(' after '"@ + tag + "' in master-display string"@)
        } else {
            md_component(s, i, end, tag, st)
        }
    }
}

/// The component whose tag is `s[i..end]`, followed by `(` at `end`.
pub open spec fn md_component(s: Seq<char>, i: int, end: int, tag: Seq<char>, st: MdScan) -> Result<
    MdScan,
    Seq<char>,
>
    decreases s.len() - i, 0int,
{
    let open = end + 1;
    match find(s.skip(open), seq![')']) {
        None => Err("unterminated '(' after '"@ + tag + "'"@),
        Some(p) => {
            let close = open + p;
            match pair_outcome(s.subrange(open, close), tag, component_max(tag)) {
                Err(m) => Err(m),
                Ok((a, b)) => {
                    let v = (a as u16, b as u16);
                    let next = if tag == "R"@ {
                        Some(MdScan { r: Some(v), g: st.g, b: st.b, wp: st.wp, l: st.l })
                    } else if tag == "G"@ {
                        Some(MdScan { r: st.r, g: Some(v), b: st.b, wp: st.wp, l: st.l })
                    } else if tag == "B"@ {
                        Some(MdScan { r: st.r, g: st.g, b: Some(v), wp: st.wp, l: st.l })
                    } else if tag == "WP"@ {
                        Some(MdScan { r: st.r, g: st.g, b: st.b, wp: Some(v), l: st.l })
                    } else if tag == "L"@ {
                        Some(MdScan { r: st.r, g: st.g, b: st.b, wp: st.wp, l: Some((a, b)) })
                    } else {
                        None
                    };
                    match next {
                        None => Err("unknown master-display component '"@ + tag + "'"@),
                        Some(n) => if close + 1 > i && close + 1 <= s.len() {
                            md_scan(s, close + 1, n)
                        } else {
                            Ok(n)
                        },
                    }
                },
            }
        },
    }
}

pub open spec fn missing_message(name: Seq<char>) -> Seq<char> {
    "master-display string is missing "@ + name
}

pub open spec fn md_empty() -> MdScan {
    MdScan { r: None, g: None, b: None, wp: None, l: None }
}

/// What `parse_mastering_display` answers for `s`: the collected components,
/// all present, or the refusal.
pub open spec fn mastering_outcome(s: Seq<char>) -> Result<MdScan, Seq<char>> {
    match md_scan(s, 0, md_empty()) {
        Err(m) => Err(m),
        Ok(st) => if st.r is None {
            Err(missing_message("R primary"@))
        } else if st.g is None {
            Err(missing_message("G primary"@))
        } else if st.b is None {
            Err(missing_message("B primary"@))
        } else if st.wp is None {
            Err(missing_message("WP white point"@))
        } else if st.l is None {
            Err(missing_message("L luminance"@))
        } else {
            Ok(st)
        },
    }
}

/// Parse `"a,b"` into two numbers no larger than `max`.
fn parse_pair(inner: &[char], tag: &[char], max: u32) -> (r: Result<(u32, u32), String>)
    ensures
        match (r, pair_outcome(inner@, tag@, max as nat)) {
            (Ok(x), Ok(y)) => x == y,
            (Err(e), Err(m)) => e@ == m,
            _ => false,
        },
{
    let (a, b) = match split_once_chars(inner, ',') {
        Some(parts) => parts,
        None => {
            let mut msg = chars_of("expected 'x,y' in '");
            push_all(&mut msg, tag);
            push_str(&mut msg, "(...)'");
            return Err(string_of(&msg));
        },
    };
    let at = trim_chars(&a);
    let x = match parse_u64_bounded(&at, max as u64) {
        Some(x) => x,
        None => {
            let mut msg = chars_of("bad number '");
            push_all(&mut msg, &a);
            push_str(&mut msg, "' in '");
            push_all(&mut msg, tag);
            push_str(&mut msg, "(...)'");
            return Err(string_of(&msg));
        },
    };
    let bt = trim_chars(&b);
    let y = match parse_u64_bounded(&bt, max as u64) {
        Some(y) => y,
        None => {
            let mut msg = chars_of("bad number '");
            push_all(&mut msg, &b);
            push_str(&mut msg, "' in '");
            push_all(&mut msg, tag);
            push_str(&mut msg, "(...)'");
            return Err(string_of(&msg));
        },
    };
    Ok((x as u32, y as u32))
}

fn missing(name: &str) -> (r: String)
    ensures
        r@ == missing_message(name@),
{
    let mut msg = chars_of("master-display string is missing ");
    push_str(&mut msg, name);
    string_of(&msg)
}

/// Parse an x265 master-display string, e.g.
/// `G(13250,34500)B(7500,3000)R(34000,16000)WP(15635,16450)L(40000000,50)`.
/// Component order is free; every part is required. The primaries and the
/// white point are `u16` raw ST 2086 units, so a larger number is refused as a
/// bad number; the luminances are `u32`.
pub fn parse_mastering_display(s: &str) -> (r: Result<MasteringDisplay, String>)
    ensures
        match (r, mastering_outcome(s@)) {
            (Ok(x), Ok(y)) => md_equals(x, y),
            (Err(e), Err(m)) => e@ == m,
            _ => false,
        },
{
    let cs = chars_of(s);
    let mut st = MdScan { r: None, g: None, b: None, wp: None, l: None };
    let mut i: usize = 0;
    while i < cs.len()
        invariant
            i <= cs.len(),
            cs@ == s@,
            md_scan(cs@, 0, md_empty()) == md_scan(cs@, i as int, st),
        decreases cs.len() - i,
    {
        if !is_alpha(cs[i]) {
            i += 1;
            continue;
        }
        let tag_start = i;
        while i < cs.len() && is_alpha(cs[i])
            invariant
                tag_start <= i <= cs.len(),
                tag_start < cs.len(),
                is_ascii_alpha(cs@[tag_start as int]),
                cs@ == s@,
                md_scan(cs@, 0, md_empty()) == md_scan(cs@, tag_start as int, st),
                alpha_run_end(cs@, tag_start as int) == alpha_run_end(cs@, i as int),
            decreases cs.len() - i,
        {
            i += 1;
        }
        assert(alpha_run_end(cs@, i as int) == i as int);
        let tag = slice(&cs, tag_start, i);
        if i >= cs.len() || cs[i] != '(' {
            assert(md_scan(cs@, tag_start as int, st) == Err::<MdScan, Seq<char>>(
                "expected '(' after '"@ + tag@ + "' in master-display string"@,
            ));
            let mut msg = chars_of("expected '(' after '");
            push_all(&mut msg, &tag);
            push_str(&mut msg, "' in master-display string");
            assert(msg@ == "expected '(' after '"@ + tag@ + "' in master-display string"@);
            return Err(string_of(&msg));
        }
        let open = i + 1;
        let rest = slice(&cs, open, cs.len());
        assert(rest@ == cs@.skip(open as int));
        let closing: Vec<char> = vec![')'];
        assert(closing@ == seq![')']);
        let close_rel = match find_chars(&rest, &closing) {
            Some(p) => p,
            None => {
                assert(md_scan(cs@, tag_start as int, st) == md_component(
                    cs@,
                    tag_start as int,
                    i as int,
                    tag@,
                    st,
                ));
                let mut msg = chars_of("unterminated '(' after '");
                push_all(&mut msg, &tag);
                push_str(&mut msg, "'");
                return Err(string_of(&msg));
            },
        };
        proof {
            lemma_find_from_bounds(rest@, seq![')'], 0);
        }
        let close = open + close_rel;
        let inner = slice(&cs, open, close);
        assert(inner@ == cs@.subrange(open as int, close as int));
        assert(md_scan(cs@, tag_start as int, st) == md_component(
            cs@,
            tag_start as int,
            i as int,
            tag@,
            st,
        ));
        assert(find(cs@.skip(open as int), seq![')']) == Some(close_rel as int));
        let max: u32 = if eq_str(&tag, "R") || eq_str(&tag, "G") || eq_str(&tag, "B") || eq_str(&tag, "WP") {
            65535
        } else {
            u32::MAX
        };
        let (a, b) = match parse_pair(&inner, &tag, max) {
            Ok(p) => p,
            Err(e) => {
                return Err(e);
            },
        };
        let v: (u16, u16) = (a as u16, b as u16);
        if eq_str(&tag, "R") {
            st = MdScan { r: Some(v), ..st };
        } else if eq_str(&tag, "G") {
            st = MdScan { g: Some(v), ..st };
        } else if eq_str(&tag, "B") {
            st = MdScan { b: Some(v), ..st };
        } else if eq_str(&tag, "WP") {
            st = MdScan { wp: Some(v), ..st };
        } else if eq_str(&tag, "L") {
            st = MdScan { l: Some((a, b)), ..st };
        } else {
            let mut msg = chars_of("unknown master-display component '");
            push_all(&mut msg, &tag);
            push_str(&mut msg, "'");
            return Err(string_of(&msg));
        }
        i = close + 1;
    }
    let r = match st.r {
        Some(v) => v,
        None => {
            return Err(missing("R primary"));
        },
    };
    let g = match st.g {
        Some(v) => v,
        None => {
            return Err(missing("G primary"));
        },
    };
    let b = match st.b {
        Some(v) => v,
        None => {
            return Err(missing("B primary"));
        },
    };
    let wp = match st.wp {
        Some(v) => v,
        None => {
            return Err(missing("WP white point"));
        },
    };
    let (max, min) = match st.l {
        Some(v) => v,
        None => {
            return Err(missing("L luminance"));
        },
    };
    let md = MasteringDisplay {
        primaries: [[r.0, r.1], [g.0, g.1], [b.0, b.1]],
        white_point: [wp.0, wp.1],
        max_luminance: max,
        min_luminance: min,
    };
    assert(md.primaries[0]@ =~= seq![r.0, r.1]);
    assert(md.primaries[1]@ =~= seq![g.0, g.1]);
    assert(md.primaries[2]@ =~= seq![b.0, b.1]);
    assert(md.white_point@ =~= seq![wp.0, wp.1]);
    Ok(md)
}


/// A preset chosen by its name is named back by the same name, and is the
/// HLG one exactly when its name is `hlg-bt2020`.
pub proof fn law_preset_named_back(name: Seq<char>)
    requires
        preset_index(name) is Some,
    ensures
        preset_name_of(
            preset_transfer(preset_index(name)->0),
            preset_primaries(preset_index(name)->0),
        ) == name,
        (preset_transfer(preset_index(name)->0) == hlg_ul()) <==> name == "hlg-bt2020"@,
{
    reveal_strlit("pq-bt2020");
    reveal_strlit("pq-p3d65");
    reveal_strlit("hlg-bt2020");
    assert(st2084_ul()[13] != hlg_ul()[13]);
    assert(bt2020_ul()[13] != p3d65_ul()[13]);
    assert(st2084_ul() != hlg_ul());
    assert(bt2020_ul() != p3d65_ul());
}

// ---------------------------------------------------------------------------
// Component order
// ---------------------------------------------------------------------------

/// One component of a master-display string: `TAG(a,b)`.
pub open spec fn md_part(tag: Seq<char>, a: nat, b: nat) -> Seq<char> {
    tag + "("@ + decimal(a) + ","@ + decimal(b) + ")"@
}

/// The tag of component `k`: R, G, B, WP, then L.
pub open spec fn md_tag(k: int) -> Seq<char> {
    if k == 0 {
        "R"@
    } else if k == 1 {
        "G"@
    } else if k == 2 {
        "B"@
    } else if k == 3 {
        "WP"@
    } else {
        "L"@
    }
}

/// The values a master display's components carry, by component.
pub struct MdValues {
    pub r: (u16, u16),
    pub g: (u16, u16),
    pub b: (u16, u16),
    pub wp: (u16, u16),
    pub l: (u32, u32),
}

pub open spec fn md_value(v: MdValues, k: int) -> (nat, nat) {
    if k == 0 {
        (v.r.0 as nat, v.r.1 as nat)
    } else if k == 1 {
        (v.g.0 as nat, v.g.1 as nat)
    } else if k == 2 {
        (v.b.0 as nat, v.b.1 as nat)
    } else if k == 3 {
        (v.wp.0 as nat, v.wp.1 as nat)
    } else {
        (v.l.0 as nat, v.l.1 as nat)
    }
}

/// Component `k` of `v`, written out.
pub open spec fn md_piece(v: MdValues, k: int) -> Seq<char> {
    md_part(md_tag(k), md_value(v, k).0, md_value(v, k).1)
}

/// The components of `v` written out in the order `order` names them.
pub open spec fn md_joined(v: MdValues, order: Seq<int>) -> Seq<char>
    decreases order.len(),
{
    if order.len() == 0 {
        Seq::empty()
    } else {
        md_joined(v, order.drop_last()) + md_piece(v, order.last())
    }
}

/// What the scan holds once component `k` of `v` is read.
pub open spec fn md_set(st: MdScan, v: MdValues, k: int) -> MdScan {
    if k == 0 {
        MdScan { r: Some(v.r), ..st }
    } else if k == 1 {
        MdScan { g: Some(v.g), ..st }
    } else if k == 2 {
        MdScan { b: Some(v.b), ..st }
    } else if k == 3 {
        MdScan { wp: Some(v.wp), ..st }
    } else {
        MdScan { l: Some(v.l), ..st }
    }
}

pub open spec fn md_set_all(v: MdValues, order: Seq<int>) -> MdScan
    decreases order.len(),
{
    if order.len() == 0 {
        md_empty()
    } else {
        md_set(md_set_all(v, order.drop_last()), v, order.last())
    }
}

proof fn lemma_find_char(s: Seq<char>, c: char, from: int, k: int)
    requires
        0 <= from <= k < s.len(),
        s[k] == c,
        forall|j: int| from <= j < k ==> s[j] != c,
    ensures
        find_from(s, seq![c], from) == Some(k),
    decreases k - from,
{
    if from < k {
        assert(s.subrange(from, from + 1)[0] == s[from]);
        lemma_find_char(s, c, from + 1, k);
    } else {
        assert(s.subrange(k, k + 1) =~= seq![c]);
    }
}

proof fn lemma_trim_plain(t: Seq<char>)
    requires
        forall|i: int| 0 <= i < t.len() ==> is_ascii_digit(#[trigger] t[i]),
    ensures
        trim(t) == t,
{
    assert(lead_white_zero(t));
    assert(t.skip(0) =~= t);
    assert(t.take(t.len() as int) =~= t);
}

spec fn lead_white_zero(t: Seq<char>) -> bool {
    crate::text::lead_white(t) == 0 && crate::text::trail_white(t) == 0
}

proof fn lemma_alpha_run(s: Seq<char>, i: int, j: int, end: int)
    requires
        0 <= i <= j <= end < s.len(),
        forall|k: int| j <= k < end ==> is_ascii_alpha(#[trigger] s[k]),
        s[end] == '(',
    ensures
        alpha_run_end(s, j) == end,
    decreases end - j,
{
    if j < end {
        lemma_alpha_run(s, i, j + 1, end);
    }
}

/// Reading one component at `i` stores its values and moves past it.
proof fn lemma_md_step(s: Seq<char>, i: int, v: MdValues, k: int, st: MdScan)
    requires
        0 <= k < 5,
        0 <= i,
        i + md_piece(v, k).len() <= s.len(),
        s.subrange(i, i + md_piece(v, k).len()) == md_piece(v, k),
    ensures
        md_scan(s, i, st) == md_scan(s, i + md_piece(v, k).len(), md_set(st, v, k)),
{
    reveal_strlit("R");
    reveal_strlit("G");
    reveal_strlit("B");
    reveal_strlit("WP");
    reveal_strlit("L");
    reveal_strlit("(");
    reveal_strlit(",");
    reveal_strlit(")");
    let tag = md_tag(k);
    let (a, b) = md_value(v, k);
    let da = decimal(a);
    let db = decimal(b);
    lemma_decimal_reads_back(a);
    lemma_decimal_reads_back(b);
    let p = md_piece(v, k);
    let t = tag.len() as int;
    let al = da.len() as int;
    let bl = db.len() as int;
    assert(p =~= tag + seq!['('] + da + seq![','] + db + seq![')']);
    assert(p.len() == t + 3 + al + bl);
    assert forall|q: int| 0 <= q < p.len() implies s[i + q] == #[trigger] p[q] by {
        assert(s.subrange(i, i + p.len())[q] == s[i + q]);
    }
    assert(1 <= t <= 2);
    assert(forall|q: int| 0 <= q < t ==> is_ascii_alpha(#[trigger] tag[q]));
    assert(s[i] == p[0]);
    let end = i + t;
    assert(s[end] == p[t]);
    assert forall|q: int| i <= q < end implies is_ascii_alpha(#[trigger] s[q]) by {
        assert(s[q] == p[q - i]);
        assert(p[q - i] == tag[q - i]);
    }
    lemma_alpha_run(s, i, i, end);
    assert(s.subrange(i, end) =~= tag);
    let open = end + 1;
    let rest = s.skip(open);
    let cl = al + 1 + bl;
    assert forall|q: int| 0 <= q < cl implies rest[q] != ')' by {
        assert(rest[q] == p[t + 1 + q]);
        if q < al {
            assert(p[t + 1 + q] == da[q]);
        } else if q > al {
            assert(p[t + 1 + q] == db[q - al - 1]);
        }
    }
    assert(rest[cl] == p[t + 1 + cl]);
    lemma_find_char(rest, ')', 0, cl);
    let close = open + cl;
    let inner = s.subrange(open, close);
    assert(inner =~= da + seq![','] + db) by {
        assert forall|q: int| 0 <= q < cl implies inner[q] == (da + seq![','] + db)[q] by {
            assert(inner[q] == p[t + 1 + q]);
        }
    }
    assert forall|q: int| 0 <= q < al implies inner[q] != ',' by {
        assert(inner[q] == da[q]);
    }
    assert(inner[al] == ',');
    lemma_find_char(inner, ',', 0, al);
    assert(inner.take(al) =~= da);
    assert(inner.skip(al + 1) =~= db);
    lemma_trim_plain(da);
    lemma_trim_plain(db);
    assert(unsigned_digits_of(da) && unsigned_digits_of(db));
    assert(a <= component_max(tag) && b <= component_max(tag));
    assert(pair_outcome(inner, tag, component_max(tag)) == Ok::<(u32, u32), Seq<char>>((a as u32, b as u32)));
    assert(close + 1 == i + p.len());
    assert(find(rest, seq![')']) == Some(cl));
    assert("R"@[0] == 'R' && "G"@[0] == 'G' && "B"@[0] == 'B' && "WP"@[0] == 'W' && "L"@[0] == 'L');
    assert("R"@.len() == 1 && "G"@.len() == 1 && "B"@.len() == 1 && "WP"@.len() == 2 && "L"@.len() == 1);
    let x = (a as u32, b as u32);
    let vv = (x.0 as u16, x.1 as u16);
    let n = if tag == "R"@ {
        Some(MdScan { r: Some(vv), g: st.g, b: st.b, wp: st.wp, l: st.l })
    } else if tag == "G"@ {
        Some(MdScan { r: st.r, g: Some(vv), b: st.b, wp: st.wp, l: st.l })
    } else if tag == "B"@ {
        Some(MdScan { r: st.r, g: st.g, b: Some(vv), wp: st.wp, l: st.l })
    } else if tag == "WP"@ {
        Some(MdScan { r: st.r, g: st.g, b: st.b, wp: Some(vv), l: st.l })
    } else if tag == "L"@ {
        Some(MdScan { r: st.r, g: st.g, b: st.b, wp: st.wp, l: Some(x) })
    } else {
        None
    };
    assert(n == Some(md_set(st, v, k)));
    assert(md_component(s, i, end, tag, st) == md_scan(s, close + 1, md_set(st, v, k)));
    assert(md_scan(s, i, st) == md_component(s, i, end, tag, st));
}

spec fn unsigned_digits_of(d: Seq<char>) -> bool {
    crate::text::unsigned_digits(d) == d
}

proof fn lemma_md_prefix(v: MdValues, order: Seq<int>, n: int)
    requires
        0 <= n <= order.len(),
    ensures
        md_joined(v, order).len() >= md_joined(v, order.take(n)).len(),
        md_joined(v, order).subrange(0, md_joined(v, order.take(n)).len() as int) == md_joined(
            v,
            order.take(n),
        ),
    decreases order.len(),
{
    if n < order.len() {
        lemma_md_prefix(v, order.drop_last(), n);
        assert(order.drop_last().take(n) =~= order.take(n));
        let a = md_joined(v, order.drop_last());
        let w = md_joined(v, order);
        assert(w == a + md_piece(v, order.last()));
        assert(w.subrange(0, md_joined(v, order.take(n)).len() as int) =~= a.subrange(
            0,
            md_joined(v, order.take(n)).len() as int,
        ));
    } else {
        assert(order.take(n) =~= order);
        assert(md_joined(v, order).subrange(0, md_joined(v, order).len() as int) =~= md_joined(v, order));
    }
}

proof fn lemma_md_fold(v: MdValues, order: Seq<int>, n: int)
    requires
        0 <= n <= order.len(),
        forall|k: int| 0 <= k < order.len() ==> 0 <= #[trigger] order[k] < 5,
    ensures
        md_scan(md_joined(v, order), 0, md_empty()) == md_scan(
            md_joined(v, order),
            md_joined(v, order.take(n)).len() as int,
            md_set_all(v, order.take(n)),
        ),
    decreases n,
{
    if n > 0 {
        lemma_md_fold(v, order, n - 1);
        let s = md_joined(v, order);
        let before = md_joined(v, order.take(n - 1));
        let k = order[n - 1];
        assert(order.take(n).drop_last() =~= order.take(n - 1));
        assert(order.take(n).last() == k);
        let now = md_joined(v, order.take(n));
        assert(now == before + md_piece(v, k));
        lemma_md_prefix(v, order, n);
        let i = before.len() as int;
        assert(s.subrange(i, i + md_piece(v, k).len()) =~= md_piece(v, k)) by {
            assert forall|q: int| 0 <= q < md_piece(v, k).len() implies s.subrange(i, i + md_piece(v, k).len())[q]
                == md_piece(v, k)[q] by {
                assert(s[i + q] == s.subrange(0, now.len() as int)[i + q]);
                assert(now[i + q] == md_piece(v, k)[q]);
            }
        }
        lemma_md_step(s, i, v, k, md_set_all(v, order.take(n - 1)));
    } else {
        assert(order.take(0) =~= Seq::<int>::empty());
    }
}

proof fn lemma_md_set_all(v: MdValues, order: Seq<int>, f: int)
    requires
        0 <= f < 5,
        forall|k: int| 0 <= k < order.len() ==> 0 <= #[trigger] order[k] < 5,
    ensures
        order.contains(f) ==> md_set_all(v, order) == md_set(md_set_all(v, order), v, f),
        !order.contains(f) ==> md_set_field_none(md_set_all(v, order), f),
    decreases order.len(),
{
    if order.len() > 0 {
        let o = order.drop_last();
        assert forall|k: int| 0 <= k < o.len() implies 0 <= #[trigger] o[k] < 5 by {
            assert(o[k] == order[k]);
        }
        lemma_md_set_all(v, o, f);
        assert(0 <= order[order.len() - 1] < 5);
        if order.last() != f {
            assert(order.contains(f) ==> o.contains(f)) by {
                if order.contains(f) {
                    let j = choose|j: int| 0 <= j < order.len() && order[j] == f;
                    assert(o[j] == f);
                }
            }
            assert(o.contains(f) ==> order.contains(f)) by {
                if o.contains(f) {
                    let j = choose|j: int| 0 <= j < o.len() && o[j] == f;
                    assert(order[j] == f);
                }
            }
        } else {
            assert(order[order.len() - 1] == f);
        }
    }
}

spec fn md_set_field_none(st: MdScan, f: int) -> bool {
    if f == 0 {
        st.r is None
    } else if f == 1 {
        st.g is None
    } else if f == 2 {
        st.b is None
    } else if f == 3 {
        st.wp is None
    } else {
        st.l is None
    }
}

/// Component order is free: every component written once or more, in any
/// order, reads back as the same master display.
pub proof fn law_component_order_is_free(v: MdValues, order: Seq<int>)
    requires
        forall|k: int| 0 <= k < order.len() ==> 0 <= #[trigger] order[k] < 5,
        forall|f: int| 0 <= f < 5 ==> order.contains(f),
    ensures
        mastering_outcome(md_joined(v, order)) == Ok::<MdScan, Seq<char>>(
            MdScan { r: Some(v.r), g: Some(v.g), b: Some(v.b), wp: Some(v.wp), l: Some(v.l) },
        ),
{
    lemma_md_fold(v, order, order.len() as int);
    assert(order.take(order.len() as int) =~= order);
    let st = md_set_all(v, order);
    lemma_md_set_all(v, order, 0);
    lemma_md_set_all(v, order, 1);
    lemma_md_set_all(v, order, 2);
    lemma_md_set_all(v, order, 3);
    lemma_md_set_all(v, order, 4);
    assert(st == MdScan { r: Some(v.r), g: Some(v.g), b: Some(v.b), wp: Some(v.wp), l: Some(v.l) });
}

} // verus!
