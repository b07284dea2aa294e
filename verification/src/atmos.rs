//! Dolby Atmos ADM BWF import: finding the `axml` chunk in a RIFF, RF64 or
//! BW64 file, and the synthetic ADM master the import is tested with.
//!
//! The chunk walk is a state machine over what the caller reads: the 12-byte
//! file header, then each 8-byte chunk header, answered with the next thing to
//! read or where to seek. A chunk size of 0xFFFFFFFF is read from the `ds64`
//! chunk (ITU-R BS.2088).
use vstd::prelude::*;
use crate::text::{all_ascii, chars_of, decimal, decimal_chars, digit_char, push_all, push_str, string_of};

verus! {

/// A bed channel (DirectSpeakers type).
#[derive(Debug, Clone)]
pub struct BedChannel {
    pub label: String,
    pub speaker_label: String,
    pub track_index: u64,
}

/// Result of an Atmos import operation. The outputs are paths.
#[derive(Debug)]
pub struct AtmosImportResult {
    pub success: bool,
    pub bed_count: usize,
    pub object_count: usize,
    pub total_channels: u32,
    pub mxf_output: String,
    pub adm_sidecar: String,
    pub error: String,
}

/// The RIFF forms an ADM master is written in.
#[derive(Debug, Clone, Copy, PartialEq, Eq, Structural)]
pub enum BwfForm {
    /// 32-bit sizes throughout.
    Riff,
    /// BS.2088, every size taken from the ds64 chunk.
    Bw64,
}

// ---------------------------------------------------------------------------
// Bytes
// ---------------------------------------------------------------------------

/// The value of little-endian bytes.
pub open spec fn le_value(b: Seq<u8>) -> nat
    decreases b.len(),
{
    if b.len() == 0 {
        0
    } else {
        b[0] as nat + 256 * le_value(b.drop_first())
    }
}

/// The low `n` bytes of `x`, little-endian.
pub open spec fn le_bytes(x: nat, n: nat) -> Seq<u8>
    decreases n,
{
    if n == 0 {
        Seq::empty()
    } else {
        seq![(x % 256) as u8] + le_bytes(x / 256, (n - 1) as nat)
    }
}

proof fn lemma_le4(b: Seq<u8>)
    requires
        b.len() == 4,
    ensures
        le_value(b) == b[0] + 256 * b[1] + 65536 * b[2] + 16777216 * b[3],
{
    let b1 = b.drop_first();
    let b2 = b1.drop_first();
    let b3 = b2.drop_first();
    let b4 = b3.drop_first();
    assert(b4.len() == 0);
    assert(le_value(b3) == b[3] + 256 * le_value(b4));
    assert(le_value(b2) == b[2] + 256 * le_value(b3));
    assert(le_value(b1) == b[1] + 256 * le_value(b2));
}

/// Read a little-endian `u32` at `at`.
pub fn read_u32_le(b: &[u8], at: usize) -> (r: u32)
    requires
        at + 4 <= b@.len(),
    ensures
        r == le_value(b@.subrange(at as int, at + 4)),
{
    let ghost s = b@.subrange(at as int, at + 4);
    proof {
        lemma_le4(s);
    }
    (b[at] as u32) + 256 * (b[at + 1] as u32) + 65536 * (b[at + 2] as u32) + 16777216 * (b[at
        + 3] as u32)
}

/// Read a little-endian `u64` at `at`.
pub fn read_u64_le(b: &[u8], at: usize) -> (r: u64)
    requires
        at + 8 <= b@.len(),
    ensures
        r == le_value(b@.subrange(at as int, at + 8)),
{
    let _n = b.len();
    let lo = read_u32_le(b, at);
    let hi = read_u32_le(b, at + 4);
    proof {
        assert(pow256(4) == 4294967296) by {
            reveal_with_fuel(pow256, 5);
        }
        lemma_le_split(b@.subrange(at as int, at + 8), 4);
        assert(b@.subrange(at as int, at + 8).take(4) =~= b@.subrange(at as int, at + 4));
        assert(b@.subrange(at as int, at + 8).skip(4) =~= b@.subrange(at + 4, at + 8));
    }
    (lo as u64) + 4294967296 * (hi as u64)
}

/// Splitting little-endian bytes: the low part plus the high part shifted.
pub proof fn lemma_le_split(b: Seq<u8>, k: nat)
    requires
        k <= b.len(),
    ensures
        le_value(b) == le_value(b.take(k as int)) + pow256(k) * le_value(b.skip(k as int)),
    decreases k,
{
    if k == 0 {
        assert(b.skip(0) =~= b);
        assert(b.take(0) =~= Seq::<u8>::empty());
        assert(le_value(b.take(0)) == 0);
        assert(pow256(0) == 1);
        assert(pow256(k) * le_value(b.skip(k as int)) == le_value(b));
    } else {
        let t = b.drop_first();
        lemma_le_split(t, (k - 1) as nat);
        assert(b.take(k as int).drop_first() =~= t.take(k - 1));
        assert(b.skip(k as int) =~= t.skip(k - 1));
        assert(pow256(k) == 256 * pow256((k - 1) as nat));
        assert(le_value(b) == b[0] + 256 * le_value(t));
        assert(le_value(b.take(k as int)) == b[0] + 256 * le_value(t.take(k - 1)));
        let x = le_value(t.take(k - 1));
        let y = le_value(t.skip(k - 1));
        let p = pow256((k - 1) as nat);
        assert(le_value(t) == x + p * y);
        assert(le_value(b.skip(k as int)) == y);
        assert(256 * (x + p * y) == 256 * x + (256 * p) * y) by (nonlinear_arith);
        assert(le_value(b) == b[0] + 256 * x + (256 * p) * y);
        assert(pow256(k) * y == (256 * p) * y);
        assert(le_value(b.take(k as int)) + pow256(k) * le_value(b.skip(k as int)) == b[0] + 256
            * x + (256 * p) * y);
    }
}

pub open spec fn pow256(k: nat) -> nat
    decreases k,
{
    if k == 0 {
        1
    } else {
        256 * pow256((k - 1) as nat)
    }
}

/// Reading back `n` little-endian bytes written for `x` gives `x` modulo
/// `256^n`: every number that fits is read back as written.
pub proof fn law_le_round_trip(x: nat, n: nat)
    ensures
        le_value(le_bytes(x, n)) == x % pow256(n),
    decreases n,
{
    if n == 0 {
        assert(le_bytes(x, 0) =~= Seq::<u8>::empty());
    } else {
        law_le_round_trip(x / 256, (n - 1) as nat);
        let b = le_bytes(x, n);
        assert(b.drop_first() =~= le_bytes(x / 256, (n - 1) as nat));
        assert(b[0] == (x % 256) as u8);
        let p = pow256((n - 1) as nat);
        lemma_pow256_positive((n - 1) as nat);
        assert(pow256(n) == 256 * p);
        vstd::arithmetic::div_mod::lemma_breakdown(x as int, 256, p as int);
        assert(le_value(b) == b[0] + 256 * le_value(b.drop_first()));
    }
}

proof fn lemma_pow256_positive(k: nat)
    ensures
        pow256(k) > 0,
    decreases k,
{
    if k > 0 {
        lemma_pow256_positive((k - 1) as nat);
    }
}

fn push_le(out: &mut Vec<u8>, x: u64, n: usize)
    requires
        n <= 8,
    ensures
        final(out)@ == old(out)@ + le_bytes(x as nat, n as nat),
{
    let ghost start = old(out)@;
    let mut v: u64 = x;
    let mut i: usize = 0;
    while i < n
        invariant
            i <= n,
            n <= 8,
            out@ + le_bytes(v as nat, (n - i) as nat) == start + le_bytes(x as nat, n as nat),
        decreases n - i,
    {
        let ghost before = out@;
        let ghost vv = v as nat;
        assert(le_bytes(vv, (n - i) as nat) == seq![(vv % 256) as u8] + le_bytes(
            vv / 256,
            (n - i - 1) as nat,
        ));
        out.push((v % 256) as u8);
        v = v / 256;
        i += 1;
        assert(out@ + le_bytes(v as nat, (n - i) as nat) =~= before + le_bytes(vv, (n - i + 1) as nat));
    }
    assert(le_bytes(v as nat, 0) =~= Seq::<u8>::empty());
    assert(out@ =~= start + le_bytes(x as nat, n as nat));
}

fn push_bytes(out: &mut Vec<u8>, b: &[u8])
    ensures
        final(out)@ == old(out)@ + b@,
{
    let ghost start = old(out)@;
    let mut i: usize = 0;
    while i < b.len()
        invariant
            i <= b.len(),
            out@ == start + b@.take(i as int),
        decreases b.len() - i,
    {
        out.push(b[i]);
        i += 1;
        assert(out@ =~= start + b@.take(i as int));
    }
    assert(b@.take(b.len() as int) =~= b@);
}

/// The bytes of ASCII text.
pub open spec fn ascii_bytes(s: Seq<char>) -> Seq<u8> {
    s.map_values(|c: char| (c as u32) as u8)
}

fn ascii_bytes_of(s: &[char]) -> (r: Vec<u8>)
    ensures
        r@ == ascii_bytes(s@),
{
    let mut r: Vec<u8> = Vec::new();
    let mut i: usize = 0;
    while i < s.len()
        invariant
            i <= s.len(),
            r@ == ascii_bytes(s@.take(i as int)),
        decreases s.len() - i,
    {
        r.push((s[i] as u32) as u8);
        i += 1;
        assert(r@ =~= ascii_bytes(s@.take(i as int)));
    }
    assert(s@.take(s.len() as int) =~= s@);
    r
}

/// The text of bytes decoded as UTF-8, each invalid sequence replaced by
/// U+FFFD, as `String::from_utf8_lossy` gives it.
pub uninterp spec fn utf8_lossy(b: Seq<u8>) -> Seq<char>;

pub open spec fn all_ascii_bytes(b: Seq<u8>) -> bool {
    forall|i: int| 0 <= i < b.len() ==> #[trigger] b[i] < 128
}

/// Calls `String::from_utf8_lossy` from std. The result is named; on ASCII
/// bytes it is the characters with those codes, as UTF-8 encodes ASCII as
/// itself.
#[verifier::external_body]
pub(crate) fn utf8_lossy_string(b: &[u8]) -> (r: String)
    ensures
        r@ == utf8_lossy(b@),
        all_ascii_bytes(b@) ==> r@ == b@.map_values(|x: u8| x as char),
{
    String::from_utf8_lossy(b).into_owned()
}

// ---------------------------------------------------------------------------
// The ds64 chunk
// ---------------------------------------------------------------------------

/// The 64-bit sizes a `ds64` chunk carries (ITU-R BS.2088): the data chunk's, plus
/// one table entry for every other chunk whose 32-bit size field is 0xFFFFFFFF.
pub struct Ds64Sizes {
    pub data_size: u64,
    pub table: Vec<(Vec<u8>, u64)>,
}

pub open spec fn ds64_table_spec(payload: Seq<u8>, n: nat) -> Seq<(Seq<u8>, u64)> {
    Seq::new(
        n,
        |i: int|
            (
                payload.subrange(28 + 12 * i, 32 + 12 * i),
                le_value(payload.subrange(32 + 12 * i, 40 + 12 * i)) as u64,
            ),
    )
}

pub open spec fn ds64_short_message(len: nat) -> Seq<char> {
    "ds64 chunk is "@ + decimal(len) + " bytes, too short to hold the 64-bit sizes"@
}

pub open spec fn ds64_table_message(entries: nat, len: nat) -> Seq<char> {
    "ds64 chunk declares "@ + decimal(entries) + " sizes but is only "@ + decimal(len) + " bytes"@
}

/// What a `ds64` payload says, or why it cannot say it.
pub open spec fn ds64_spec(payload: Seq<u8>) -> Result<(u64, Seq<(Seq<u8>, u64)>), Seq<char>> {
    if payload.len() < 28 {
        Err(ds64_short_message(payload.len()))
    } else {
        let entries = le_value(payload.subrange(24, 28));
        if payload.len() < 28 + 12 * entries {
            Err(ds64_table_message(entries, payload.len()))
        } else {
            Ok(
                (
                    le_value(payload.subrange(8, 16)) as u64,
                    ds64_table_spec(payload, entries),
                ),
            )
        }
    }
}

pub open spec fn table_view(t: Seq<(Vec<u8>, u64)>) -> Seq<(Seq<u8>, u64)> {
    t.map_values(|e: (Vec<u8>, u64)| (e.0@, e.1))
}

pub open spec fn ds64_view(d: Ds64Sizes) -> (u64, Seq<(Seq<u8>, u64)>) {
    (d.data_size, table_view(d.table@))
}

impl Ds64Sizes {
    pub fn parse(payload: &[u8]) -> (r: Result<Self, String>)
        ensures
            match ds64_spec(payload@) {
                Ok(v) => r matches Ok(d) && ds64_view(d) == v,
                Err(m) => r matches Err(e) && e@ == m,
            },
    {
        let len = payload.len();
        if len < 28 {
            let mut m = chars_of("ds64 chunk is ");
            push_all(&mut m, &decimal_chars(len as u64));
            push_str(&mut m, " bytes, too short to hold the 64-bit sizes");
            return Err(string_of(&m));
        }
        let data_size = read_u64_le(payload, 8);
        let entries = read_u32_le(payload, 24);
        let wanted: u64 = 28 + 12 * (entries as u64);
        if (len as u64) < wanted {
            let mut m = chars_of("ds64 chunk declares ");
            push_all(&mut m, &decimal_chars(entries as u64));
            push_str(&mut m, " sizes but is only ");
            push_all(&mut m, &decimal_chars(len as u64));
            push_str(&mut m, " bytes");
            return Err(string_of(&m));
        }
        let mut table: Vec<(Vec<u8>, u64)> = Vec::new();
        let mut k: usize = 0;
        let n = entries as usize;
        while k < n
            invariant
                k <= n,
                n == entries,
                len == payload@.len(),
                28 + 12 * n <= len,
                table_view(table@) =~= ds64_table_spec(
                    payload@,
                    k as nat,
                ),
            decreases n - k,
        {
            let at = 28 + 12 * k;
            let mut id: Vec<u8> = Vec::new();
            push_bytes(&mut id, &[payload[at], payload[at + 1], payload[at + 2], payload[at + 3]]);
            assert(id@ =~= payload@.subrange(at as int, at + 4));
            let size = read_u64_le(payload, at + 4);
            let ghost before = table_view(table@);
            table.push((id, size));
            assert(table_view(table@) =~= before.push(
                (payload@.subrange(at as int, at + 4), size),
            ));
            k += 1;
        }
        Ok(Ds64Sizes { data_size, table })
    }
}

/// The size the ds64 chunk gives a chunk: the data chunk's own field, else
/// the first table entry for it.
pub open spec fn ds64_size_of(d: (u64, Seq<(Seq<u8>, u64)>), id: Seq<u8>) -> Option<u64> {
    if id == ascii_bytes("data"@) {
        Some(d.0)
    } else {
        table_find(d.1, id, 0)
    }
}

pub open spec fn table_find(t: Seq<(Seq<u8>, u64)>, id: Seq<u8>, from: int) -> Option<u64>
    decreases t.len() - from,
{
    if from < 0 || from >= t.len() {
        None
    } else if t[from].0 == id {
        Some(t[from].1)
    } else {
        table_find(t, id, from + 1)
    }
}

fn bytes_eq(a: &[u8], b: &[u8]) -> (r: bool)
    ensures
        r == (a@ == b@),
{
    if a.len() != b.len() {
        return false;
    }
    let mut i: usize = 0;
    while i < a.len()
        invariant
            i <= a.len(),
            a.len() == b.len(),
            forall|k: int| 0 <= k < i ==> a@[k] == b@[k],
        decreases a.len() - i,
    {
        if a[i] != b[i] {
            return false;
        }
        i += 1;
    }
    assert(a@ =~= b@);
    true
}

fn tag_bytes(t: &str) -> (r: Vec<u8>)
    ensures
        r@ == ascii_bytes(t@),
{
    ascii_bytes_of(&chars_of(t))
}

impl Ds64Sizes {
    pub fn size_of(&self, chunk_id: &[u8]) -> (r: Option<u64>)
        ensures
            r == ds64_size_of(ds64_view(*self), chunk_id@),
    {
        let data = tag_bytes("data");
        if bytes_eq(chunk_id, &data) {
            return Some(self.data_size);
        }
        let ghost tv = ds64_view(*self).1;
        let mut i: usize = 0;
        while i < self.table.len()
            invariant
                i <= self.table.len(),
                tv == table_view(self.table@),
                tv == ds64_view(*self).1,
                chunk_id@ != ascii_bytes("data"@),
                table_find(tv, chunk_id@, 0) == table_find(tv, chunk_id@, i as int),
            decreases self.table.len() - i,
        {
            assert(tv[i as int] == (self.table@[i as int].0@, self.table@[i as int].1));
            if bytes_eq(&self.table[i].0, chunk_id) {
                return Some(self.table[i].1);
            }
            i += 1;
        }
        None
    }
}

// ---------------------------------------------------------------------------
// The chunk walk
// ---------------------------------------------------------------------------

pub open spec fn is_form_type(b: Seq<u8>) -> bool {
    b == ascii_bytes("RIFF"@) || b == ascii_bytes("RF64"@) || b == ascii_bytes("BW64"@)
}

/// What the 12-byte file header allows: a RIFF, RF64 or BW64 form of type WAVE.
pub open spec fn riff_header_spec(h: Seq<u8>) -> Result<(), Seq<char>> {
    if !is_form_type(h.subrange(0, 4)) {
        Err("Not a RIFF, RF64 or BW64 file: form type is "@ + utf8_lossy(h.subrange(0, 4)))
    } else if h.subrange(8, 12) != ascii_bytes("WAVE"@) {
        Err("Not a WAVE file"@)
    } else {
        Ok(())
    }
}

/// A chunk id as its name reads in messages, bytes that are not UTF-8 shown
/// as U+FFFD.
pub fn chunk_name(chunk_id: &[u8]) -> (r: String)
    ensures
        r@ == utf8_lossy(chunk_id@),
{
    utf8_lossy_string(chunk_id)
}

/// The ADM document an `axml` chunk carries, as text; bytes that are not
/// UTF-8 read as U+FFFD, and ASCII bytes read as the characters they code.
pub fn axml_document(payload: &[u8]) -> (r: String)
    ensures
        r@ == utf8_lossy(payload@),
        all_ascii_bytes(payload@) ==> r@ == payload@.map_values(|x: u8| x as char),
{
    utf8_lossy_string(payload)
}

/// Check the 12-byte file header.
pub fn check_riff_header(header: &[u8]) -> (r: Result<(), String>)
    requires
        header@.len() == 12,
    ensures
        match riff_header_spec(header@) {
            Ok(()) => r is Ok,
            Err(m) => r matches Err(e) && e@ == m,
        },
{
    let form: Vec<u8> = vec![header[0], header[1], header[2], header[3]];
    assert(form@ =~= header@.subrange(0, 4));
    let wave: Vec<u8> = vec![header[8], header[9], header[10], header[11]];
    assert(wave@ =~= header@.subrange(8, 12));
    if !(bytes_eq(&form, &tag_bytes("RIFF")) || bytes_eq(&form, &tag_bytes("RF64")) || bytes_eq(
        &form,
        &tag_bytes("BW64"),
    )) {
        let mut m = chars_of("Not a RIFF, RF64 or BW64 file: form type is ");
        push_str(&mut m, chunk_name(&form).as_str());
        return Err(string_of(&m));
    }
    if !bytes_eq(&wave, &tag_bytes("WAVE")) {
        return Err(string_of(&chars_of("Not a WAVE file")));
    }
    Ok(())
}

/// Where the walk goes after a chunk header.
pub enum WalkStep {
    /// Read this many bytes: they are the `axml` chunk, and the walk is done.
    ReadAxml(u64),
    /// Read this many bytes, the `ds64` payload, and hand them to `on_ds64`.
    ReadDs64(u64),
    /// Seek to this offset and read the next chunk header.
    SkipTo(u64),
}

/// The walk over a file's chunks: the file's length, the offset of the next
/// chunk header, and the ds64 sizes once read.
pub struct RiffWalk {
    pub file_length: u64,
    pub position: u64,
    pub ds64: Option<Ds64Sizes>,
}

pub open spec fn walk_ok(w: RiffWalk) -> bool {
    w.position <= w.file_length + 12 && w.file_length < u64::MAX - 32
}

pub open spec fn no_axml_message() -> Seq<char> {
    "No axml chunk found in BWF file"@
}

pub open spec fn past_end_message(name: Seq<char>, size: u64, at: u64, len: u64) -> Seq<char> {
    name + " chunk claims "@ + decimal(size as nat) + " bytes at offset "@ + decimal(at as nat)
        + ", past the end of the "@ + decimal(len as nat) + " byte file"@
}

/// What the walk does with the chunk header `h` read at its position: the
/// chunk's size (its field, or from ds64 where the field is 0xFFFFFFFF),
/// refused where it runs past the end of the file; then the `axml` chunk is
/// read, the `ds64` chunk is read and parsed, and any other is skipped
/// (with its pad byte).
pub open spec fn chunk_step_spec(
    len: u64,
    pos: u64,
    ds64: Option<(u64, Seq<(Seq<u8>, u64)>)>,
    h: Seq<u8>,
) -> Result<(u64, WalkStepModel), Seq<char>> {
    let at = pos + 8;
    let id = h.subrange(0, 4);
    let name = utf8_lossy(id);
    let declared = le_value(h.subrange(4, 8));
    let size: Result<u64, Seq<char>> = if declared == 0xFFFF_FFFF {
        match ds64 {
            None => Err(name + " chunk takes its size from a ds64 chunk this file does not have"@),
            Some(d) => match ds64_size_of(d, id) {
                None => Err("ds64 chunk carries no size for the "@ + name + " chunk"@),
                Some(s) => Ok(s),
            },
        }
    } else {
        Ok(declared as u64)
    };
    match size {
        Err(m) => Err(m),
        Ok(s) => if at + s > len {
            Err(past_end_message(name, s, at as u64, len))
        } else if id == ascii_bytes("axml"@) {
            Ok((at as u64, WalkStepModel::ReadAxml(s)))
        } else if id == ascii_bytes("ds64"@) {
            Ok((at as u64, WalkStepModel::ReadDs64(s)))
        } else {
            Ok((at as u64, WalkStepModel::SkipTo((at + s + s % 2) as u64)))
        },
    }
}

/// A walk step as the contracts see it.
pub enum WalkStepModel {
    ReadAxml(u64),
    ReadDs64(u64),
    SkipTo(u64),
}

pub open spec fn step_model(s: WalkStep) -> WalkStepModel {
    match s {
        WalkStep::ReadAxml(n) => WalkStepModel::ReadAxml(n),
        WalkStep::ReadDs64(n) => WalkStepModel::ReadDs64(n),
        WalkStep::SkipTo(n) => WalkStepModel::SkipTo(n),
    }
}

pub open spec fn ds64_opt_view(d: Option<Ds64Sizes>) -> Option<(u64, Seq<(Seq<u8>, u64)>)> {
    match d {
        Some(x) => Some(ds64_view(x)),
        None => None,
    }
}

impl RiffWalk {
    /// The walk over a file of `file_length` bytes, after its 12-byte header.
    pub fn new(file_length: u64) -> (r: Self)
        requires
            file_length < u64::MAX - 32,
        ensures
            r.file_length == file_length,
            r.position == 12,
            r.ds64 is None,
            walk_ok(r),
    {
        RiffWalk { file_length, position: 12, ds64: None }
    }

    /// Whether another chunk header fits in the file; where none does, the
    /// file has no `axml` chunk.
    pub fn has_next(&self) -> (r: bool)
        requires
            walk_ok(*self),
        ensures
            r == (self.position + 8 <= self.file_length),
    {
        self.position + 8 <= self.file_length
    }

    /// The refusal of a file whose chunks hold no `axml` chunk.
    pub fn not_found(&self) -> (r: String)
        ensures
            r@ == no_axml_message(),
    {
        string_of(&chars_of("No axml chunk found in BWF file"))
    }

    /// Take the 8-byte chunk header read at the walk's position.
    pub fn on_chunk_header(&mut self, header: &[u8]) -> (r: Result<WalkStep, String>)
        requires
            walk_ok(*old(self)),
            old(self).position + 8 <= old(self).file_length,
            header@.len() == 8,
        ensures
            match chunk_step_spec(
                old(self).file_length,
                old(self).position,
                ds64_opt_view(old(self).ds64),
                header@,
            ) {
                Ok((at, s)) => r matches Ok(x) && step_model(x) == s && final(self).position == (
                match s {
                    WalkStepModel::SkipTo(p) => p,
                    _ => at,
                }) && final(self).file_length == old(self).file_length && ds64_opt_view(
                    final(self).ds64,
                ) == ds64_opt_view(old(self).ds64),
                Err(m) => r matches Err(e) && e@ == m,
            },
            r is Ok ==> walk_ok(*final(self)),
    {
        let id: Vec<u8> = vec![header[0], header[1], header[2], header[3]];
        assert(id@ =~= header@.subrange(0, 4));
        let declared = read_u32_le(header, 4);
        let at = self.position + 8;
        let size: u64 = if declared == 0xFFFF_FFFF {
            match &self.ds64 {
                None => {
                    let mut m = chars_of(chunk_name(&id).as_str());
                    push_str(&mut m, " chunk takes its size from a ds64 chunk this file does not have");
                    return Err(string_of(&m));
                },
                Some(d) => match d.size_of(&id) {
                    None => {
                        let mut m = chars_of("ds64 chunk carries no size for the ");
                        push_str(&mut m, chunk_name(&id).as_str());
                        push_str(&mut m, " chunk");
                        return Err(string_of(&m));
                    },
                    Some(s) => s,
                },
            }
        } else {
            declared as u64
        };
        if size > self.file_length - at {
            let mut m = chars_of(chunk_name(&id).as_str());
            push_str(&mut m, " chunk claims ");
            push_all(&mut m, &decimal_chars(size));
            push_str(&mut m, " bytes at offset ");
            push_all(&mut m, &decimal_chars(at));
            push_str(&mut m, ", past the end of the ");
            push_all(&mut m, &decimal_chars(self.file_length));
            push_str(&mut m, " byte file");
            return Err(string_of(&m));
        }
        self.position = at;
        if bytes_eq(&id, &tag_bytes("axml")) {
            return Ok(WalkStep::ReadAxml(size));
        }
        if bytes_eq(&id, &tag_bytes("ds64")) {
            return Ok(WalkStep::ReadDs64(size));
        }
        self.position = at + size + size % 2;
        Ok(WalkStep::SkipTo(self.position))
    }

    /// Take the `ds64` payload the last step asked for; the answer is where
    /// the next chunk header is.
    pub fn on_ds64(&mut self, payload: &[u8]) -> (r: Result<u64, String>)
        requires
            walk_ok(*old(self)),
            old(self).position + payload@.len() <= old(self).file_length,
        ensures
            match ds64_spec(payload@) {
                Ok(v) => r matches Ok(p) && ds64_opt_view(final(self).ds64) == Some(v)
                    && final(self).position == p && p == old(self).position + payload@.len()
                    + payload@.len() % 2 && final(self).file_length == old(self).file_length,
                Err(m) => r matches Err(e) && e@ == m,
            },
            r is Ok ==> walk_ok(*final(self)),
    {
        let n = payload.len() as u64;
        match Ds64Sizes::parse(payload) {
            Err(e) => Err(e),
            Ok(d) => {
                self.ds64 = Some(d);
                self.position = self.position + n + n % 2;
                Ok(self.position)
            },
        }
    }
}

// ---------------------------------------------------------------------------
// The synthetic master
// ---------------------------------------------------------------------------

/// The channels `synthetic_adm_xml` describes: a 7.1.2 bed and two objects.
pub const SYNTHETIC_ADM_CHANNELS: u16 = 12;

/// The sample rate and depth `synthetic_adm_bwf` writes, what an Atmos master carries.
pub const SYNTHETIC_ADM_SAMPLE_RATE: u32 = 48_000;

pub const SYNTHETIC_ADM_BITS: u16 = 24;

/// The constant sample the fixture writes on one channel, distinct per channel so the
/// wrapped essence can be checked against it.
pub fn synthetic_adm_sample(channel_index: u16) -> (r: i32)
    ensures
        r == (channel_index + 1) * 4096,
{
    (channel_index as i32 + 1) * 4096
}

pub open spec fn bed_speaker(i: int) -> Seq<char> {
    if i == 0 {
        "RC_L"@
    } else if i == 1 {
        "RC_R"@
    } else if i == 2 {
        "RC_C"@
    } else if i == 3 {
        "RC_LFE"@
    } else if i == 4 {
        "RC_Lss"@
    } else if i == 5 {
        "RC_Rss"@
    } else if i == 6 {
        "RC_Lrs"@
    } else if i == 7 {
        "RC_Rrs"@
    } else if i == 8 {
        "RC_Ltf"@
    } else {
        "RC_Rtf"@
    }
}

fn bed_speaker_name(i: usize) -> (r: &'static str)
    requires
        i < 10,
    ensures
        r@ == bed_speaker(i as int),
{
    if i == 0 {
        "RC_L"
    } else if i == 1 {
        "RC_R"
    } else if i == 2 {
        "RC_C"
    } else if i == 3 {
        "RC_LFE"
    } else if i == 4 {
        "RC_Lss"
    } else if i == 5 {
        "RC_Rss"
    } else if i == 6 {
        "RC_Lrs"
    } else if i == 7 {
        "RC_Rrs"
    } else if i == 8 {
        "RC_Ltf"
    } else {
        "RC_Rtf"
    }
}

/// A number below 16 as four lower-case hex digits, as `{:04x}`.
pub open spec fn hex4(n: nat) -> Seq<char> {
    "000"@ + seq![if n < 10 {
        (n + 48) as char
    } else {
        (n - 10 + 97) as char
    }]
}

fn hex4_chars(n: u32) -> (r: Vec<char>)
    requires
        n < 16,
    ensures
        r@ == hex4(n as nat),
{
    let mut r = chars_of("000");
    let c: char = if n < 10 {
        ((n + 48) as u8) as char
    } else {
        ((n - 10 + 97) as u8) as char
    };
    r.push(c);
    r
}

pub open spec fn bed_block(i: int) -> Seq<char> {
    "  <audioChannelFormat audioChannelFormatID=\"AC_0001"@ + hex4((i + 1) as nat)
        + "\" audioChannelFormatName=\""@ + bed_speaker(i) + "\" typeLabel=\"0001\">\n    "@
        + "<audioBlockFormat><speakerLabel>"@ + bed_speaker(i)
        + "</speakerLabel></audioBlockFormat>\n  </audioChannelFormat>\n"@
}

pub open spec fn object_block(o: int, azimuth: Seq<char>) -> Seq<char> {
    "  <audioChannelFormat audioChannelFormatID=\"AC_0003"@ + hex4(o as nat)
        + "\" audioChannelFormatName=\"Object"@ + decimal(o as nat)
        + "\" typeLabel=\"0003\">\n    <audioBlockFormat><azimuth>"@ + azimuth
        + "</azimuth><elevation>10</elevation><distance>0.5</distance></audioBlockFormat>\n  </audioChannelFormat>\n"@
}

pub open spec fn bed_blocks(n: int) -> Seq<char>
    decreases n,
{
    if n <= 0 {
        Seq::empty()
    } else {
        bed_blocks(n - 1) + bed_block(n - 1)
    }
}

/// An ADM document for a 7.1.2 bed and two objects, the objects at azimuth
/// -30 and 30.
pub open spec fn synthetic_adm_xml_spec() -> Seq<char> {
    "<?xml version=\"1.0\"?>\n<audioFormatExtended>\n  <audioProgramme audioProgrammeName=\"Main Mix\"/>\n"@
        + bed_blocks(10) + object_block(1, "-30"@) + object_block(2, "30"@)
        + "</audioFormatExtended>\n"@
}

fn push_object_block(out: &mut Vec<char>, o: u32, azimuth: &str)
    requires
        1 <= o <= 9,
    ensures
        final(out)@ == old(out)@ + object_block(o as int, azimuth@),
{
    push_str(out, "  <audioChannelFormat audioChannelFormatID=\"AC_0003");
    push_all(out, &hex4_chars(o));
    push_str(out, "\" audioChannelFormatName=\"Object");
    push_all(out, &decimal_chars(o as u64));
    push_str(out, "\" typeLabel=\"0003\">\n    <audioBlockFormat><azimuth>");
    push_str(out, azimuth);
    push_str(
        out,
        "</azimuth><elevation>10</elevation><distance>0.5</distance></audioBlockFormat>\n  </audioChannelFormat>\n",
    );
}

/// An ADM document for a 7.1.2 bed and two objects. Public so the import tests can write
/// a master and compare the chunk that comes back.
#[verifier::spinoff_prover]
#[verifier::rlimit(30)]
pub fn synthetic_adm_xml() -> (r: String)
    ensures
        r@ == synthetic_adm_xml_spec(),
{
    let mut xml = chars_of(
        "<?xml version=\"1.0\"?>\n<audioFormatExtended>\n  <audioProgramme audioProgrammeName=\"Main Mix\"/>\n",
    );
    let ghost head = xml@;
    let mut i: usize = 0;
    while i < 10
        invariant
            i <= 10,
            xml@ == head + bed_blocks(i as int),
        decreases 10 - i,
    {
        let speaker = bed_speaker_name(i);
        push_str(&mut xml, "  <audioChannelFormat audioChannelFormatID=\"AC_0001");
        push_all(&mut xml, &hex4_chars((i + 1) as u32));
        push_str(&mut xml, "\" audioChannelFormatName=\"");
        push_str(&mut xml, speaker);
        push_str(&mut xml, "\" typeLabel=\"0001\">\n    ");
        push_str(&mut xml, "<audioBlockFormat><speakerLabel>");
        push_str(&mut xml, speaker);
        push_str(&mut xml, "</speakerLabel></audioBlockFormat>\n  </audioChannelFormat>\n");
        i += 1;
    }
    push_object_block(&mut xml, 1, "-30");
    push_object_block(&mut xml, 2, "30");
    push_str(&mut xml, "</audioFormatExtended>\n");
    string_of(&xml)
}

/// One frame of the synthetic PCM: each channel's sample as 24-bit little-endian.
pub open spec fn frame_bytes(ch: nat) -> Seq<u8>
    decreases ch,
{
    if ch == 0 {
        Seq::empty()
    } else {
        frame_bytes((ch - 1) as nat) + le_bytes((ch as nat) * 4096, 3)
    }
}

pub open spec fn repeat(s: Seq<u8>, n: nat) -> Seq<u8>
    decreases n,
{
    if n == 0 {
        Seq::empty()
    } else {
        repeat(s, (n - 1) as nat) + s
    }
}

/// The `fmt ` payload: PCM, 12 channels, 48 kHz, 24-bit.
pub open spec fn fmt_payload() -> Seq<u8> {
    le_bytes(1, 2) + le_bytes(12, 2) + le_bytes(48000, 4) + le_bytes(48000 * 36, 4) + le_bytes(
        36,
        2,
    ) + le_bytes(24, 2)
}

/// A chunk: id, 32-bit size field, payload, pad byte to an even length.
pub open spec fn chunk(id: Seq<char>, declared: nat, payload: Seq<u8>) -> Seq<u8> {
    ascii_bytes(id) + le_bytes(declared, 4) + payload + if payload.len() % 2 == 1 {
        seq![0u8]
    } else {
        Seq::empty()
    }
}

pub open spec fn padded(n: nat) -> nat {
    n + n % 2
}

/// The synthetic master: the ADM document and `frames` frames of PCM, in the
/// form asked for. A RIFF carries 32-bit sizes (truncated, as the fields
/// hold); a BW64 carries them in its ds64 chunk.
pub open spec fn synthetic_bwf_spec(form: BwfForm, frames: nat) -> Seq<u8> {
    bwf_bytes(form, frames, ascii_bytes(synthetic_adm_xml_spec()))
}

/// A master of the synthetic PCM carrying the `axml` payload `xml`.
pub open spec fn bwf_bytes(form: BwfForm, frames: nat, xml: Seq<u8>) -> Seq<u8> {
    let data = repeat(frame_bytes(12), frames);
    let fmt = fmt_payload();
    match form {
        BwfForm::Riff => {
            let body = chunk("fmt "@, fmt.len(), fmt) + chunk("data"@, data.len() % 0x1_0000_0000, data)
                + chunk("axml"@, xml.len() % 0x1_0000_0000, xml);
            ascii_bytes("RIFF"@) + le_bytes((body.len() + 4) % 0x1_0000_0000, 4) + ascii_bytes(
                "WAVE"@,
            ) + body
        },
        BwfForm::Bw64 => {
            let total = 12 + (8 + 40) + (8 + padded(fmt.len())) + (8 + padded(data.len())) + (8
                + padded(xml.len()));
            let ds64 = le_bytes((total - 8) as nat, 8) + le_bytes(data.len(), 8) + le_bytes(
                frames,
                8,
            ) + le_bytes(1, 4) + ascii_bytes("axml"@) + le_bytes(xml.len(), 8);
            ascii_bytes("BW64"@) + le_bytes(0xFFFF_FFFF, 4) + ascii_bytes("WAVE"@) + chunk(
                "ds64"@,
                40,
                ds64,
            ) + chunk("fmt "@, fmt.len(), fmt) + chunk("data"@, 0xFFFF_FFFF, data) + chunk(
                "axml"@,
                0xFFFF_FFFF,
                xml,
            )
        },
    }
}

proof fn lemma_frame_bytes_len(ch: nat)
    ensures
        frame_bytes(ch).len() == 3 * ch,
    decreases ch,
{
    if ch > 0 {
        lemma_frame_bytes_len((ch - 1) as nat);
        lemma_le_bytes_len((ch as nat) * 4096, 3);
    }
}

proof fn lemma_le_bytes_len(x: nat, n: nat)
    ensures
        le_bytes(x, n).len() == n,
    decreases n,
{
    if n > 0 {
        lemma_le_bytes_len(x / 256, (n - 1) as nat);
    }
}

proof fn lemma_repeat_len(s: Seq<u8>, n: nat)
    ensures
        repeat(s, n).len() == s.len() * n,
    decreases n,
{
    if n > 0 {
        let m = (n - 1) as nat;
        lemma_repeat_len(s, m);
        assert(repeat(s, n) == repeat(s, m) + s);
        let l = s.len();
        assert(l * n == l * m + l) by (nonlinear_arith)
            requires
                n == m + 1,
        ;
        assert(repeat(s, n).len() == l * m + l);
    } else {
        let l = s.len();
        assert(l * n == 0) by (nonlinear_arith)
            requires
                n == 0,
        ;
    }
}

fn push_chunk(out: &mut Vec<u8>, id: &str, declared: u64, payload: &[u8])
    requires
        declared <= 0xFFFF_FFFF,
    ensures
        final(out)@ == old(out)@ + chunk(id@, declared as nat, payload@),
{
    let idb = tag_bytes(id);
    push_bytes(out, &idb);
    push_le(out, declared, 4);
    push_bytes(out, payload);
    if payload.len() % 2 == 1 {
        out.push(0);
    }
}

/// The synthetic document is a few kilobytes.
proof fn lemma_xml_len()
    ensures
        synthetic_adm_xml_spec().len() < 4096,
{
    reveal_strlit(
        "<?xml version=\"1.0\"?>\n<audioFormatExtended>\n  <audioProgramme audioProgrammeName=\"Main Mix\"/>\n",
    );
    reveal_strlit("  <audioChannelFormat audioChannelFormatID=\"AC_0001");
    reveal_strlit("\" audioChannelFormatName=\"");
    reveal_strlit("\" typeLabel=\"0001\">\n    ");
    reveal_strlit("<audioBlockFormat><speakerLabel>");
    reveal_strlit("</speakerLabel></audioBlockFormat>\n  </audioChannelFormat>\n");
    reveal_strlit("  <audioChannelFormat audioChannelFormatID=\"AC_0003");
    reveal_strlit("\" audioChannelFormatName=\"Object");
    reveal_strlit("\" typeLabel=\"0003\">\n    <audioBlockFormat><azimuth>");
    reveal_strlit(
        "</azimuth><elevation>10</elevation><distance>0.5</distance></audioBlockFormat>\n  </audioChannelFormat>\n",
    );
    reveal_strlit("</audioFormatExtended>\n");
    reveal_strlit("000");
    reveal_strlit("-30");
    reveal_strlit("30");
    reveal_strlit("RC_L");
    reveal_strlit("RC_R");
    reveal_strlit("RC_C");
    reveal_strlit("RC_LFE");
    reveal_strlit("RC_Lss");
    reveal_strlit("RC_Rss");
    reveal_strlit("RC_Lrs");
    reveal_strlit("RC_Rrs");
    reveal_strlit("RC_Ltf");
    reveal_strlit("RC_Rtf");
    assert forall|i: int| 0 <= i < 10 implies #[trigger] bed_block(i).len() < 300 by {
        assert(bed_speaker(i).len() <= 6);
    }
    assert(bed_blocks(10).len() < 3000) by {
        reveal_with_fuel(bed_blocks, 11);
    }
    assert(decimal(1).len() == 1);
    assert(decimal(2).len() == 1);
}

fn frame_pcm() -> (r: Vec<u8>)
    ensures
        r@ == frame_bytes(12),
{
    let mut f: Vec<u8> = Vec::new();
    let mut ch: u16 = 0;
    assert(f@ =~= frame_bytes(0));
    while ch < 12
        invariant
            ch <= 12,
            f@ == frame_bytes(ch as nat),
        decreases 12 - ch,
    {
        let s = synthetic_adm_sample(ch);
        push_le(&mut f, s as u64, 3);
        ch += 1;
        assert(f@ =~= frame_bytes(ch as nat));
    }
    f
}

/// A BWF carrying `synthetic_adm_xml` and `sample_frames` of PCM, in either RIFF form.
/// Public so the CLI import test can write a master too.
pub fn synthetic_adm_bwf(form: BwfForm, sample_frames: u32) -> (r: Vec<u8>)
    requires
        36 * (sample_frames as nat) + 8192 < usize::MAX,
    ensures
        r@ == synthetic_bwf_spec(form, sample_frames as nat),
{
    let xml = ascii_bytes_of(&chars_of(synthetic_adm_xml().as_str()));
    proof {
        lemma_xml_len();
    }
    let frame = frame_pcm();
    let mut data: Vec<u8> = Vec::new();
    let mut k: u32 = 0;
    assert(data@ =~= repeat(frame@, 0));
    while k < sample_frames
        invariant
            k <= sample_frames,
            frame@ == frame_bytes(12),
            data@ == repeat(frame@, k as nat),
        decreases sample_frames - k,
    {
        push_bytes(&mut data, &frame);
        k += 1;
    }
    proof {
        lemma_frame_bytes_len(12);
        lemma_repeat_len(frame@, sample_frames as nat);
    }
    let mut fmt: Vec<u8> = Vec::new();
    push_le(&mut fmt, 1, 2);
    push_le(&mut fmt, 12, 2);
    push_le(&mut fmt, 48000, 4);
    push_le(&mut fmt, 48000 * 36, 4);
    push_le(&mut fmt, 36, 2);
    push_le(&mut fmt, 24, 2);
    proof {
        lemma_le_bytes_len(1, 2);
        lemma_le_bytes_len(12, 2);
        lemma_le_bytes_len(48000, 4);
        lemma_le_bytes_len(48000 * 36, 4);
        lemma_le_bytes_len(36, 2);
        lemma_le_bytes_len(24, 2);
        assert(fmt@ =~= fmt_payload());
    }
    let mut out: Vec<u8> = Vec::new();
    match form {
        BwfForm::Riff => {
            let mut body: Vec<u8> = Vec::new();
            push_chunk(&mut body, "fmt ", fmt.len() as u64, &fmt);
            push_chunk(&mut body, "data", (data.len() as u64) % 0x1_0000_0000, &data);
            push_chunk(&mut body, "axml", (xml.len() as u64) % 0x1_0000_0000, &xml);
            push_bytes(&mut out, &tag_bytes("RIFF"));
            let riff_size = (((body.len() as u128) + 4) % 0x1_0000_0000) as u64;
            push_le(&mut out, riff_size, 4);
            push_bytes(&mut out, &tag_bytes("WAVE"));
            push_bytes(&mut out, &body);
            proof {
                assert(out@ =~= synthetic_bwf_spec(form, sample_frames as nat));
            }
        },
        BwfForm::Bw64 => {
            let xl = xml.len() as u64;
            let dl = data.len() as u64;
            let fl = fmt.len() as u64;
            let total: u64 = 12 + (8 + 40) + (8 + fl + fl % 2) + (8 + dl + dl % 2) + (8 + xl + xl
                % 2);
            let mut ds64: Vec<u8> = Vec::new();
            push_le(&mut ds64, total - 8, 8);
            push_le(&mut ds64, dl, 8);
            push_le(&mut ds64, sample_frames as u64, 8);
            push_le(&mut ds64, 1, 4);
            push_bytes(&mut ds64, &tag_bytes("axml"));
            push_le(&mut ds64, xl, 8);
            push_bytes(&mut out, &tag_bytes("BW64"));
            push_le(&mut out, 0xFFFF_FFFF, 4);
            push_bytes(&mut out, &tag_bytes("WAVE"));
            push_chunk(&mut out, "ds64", 40, &ds64);
            push_chunk(&mut out, "fmt ", fl, &fmt);
            push_chunk(&mut out, "data", 0xFFFF_FFFF, &data);
            push_chunk(&mut out, "axml", 0xFFFF_FFFF, &xml);
            proof {
                let ds = le_bytes((total - 8) as nat, 8) + le_bytes(dl as nat, 8) + le_bytes(
                    sample_frames as nat,
                    8,
                ) + le_bytes(1, 4) + ascii_bytes("axml"@) + le_bytes(xl as nat, 8);
                assert(ds64@ =~= ds);
                assert(out@ =~= synthetic_bwf_spec(form, sample_frames as nat));
            }
        },
    }
    out
}


// ---------------------------------------------------------------------------
// The walk over a whole file
// ---------------------------------------------------------------------------

/// What the chunk walk finds in `file` from the chunk header at `pos` on:
/// the `axml` payload, or the refusal the walk gives. The walk steps as
/// `on_chunk_header` and `on_ds64` do; it is run over files shorter than
/// `u64::MAX - 32` bytes, as `RiffWalk::new` asks.
pub open spec fn axml_walk(file: Seq<u8>, pos: u64, ds64: Option<(u64, Seq<(Seq<u8>, u64)>)>) -> Result<
    Seq<u8>,
    Seq<char>,
>
    decreases file.len() + 2 - pos,
{
    if file.len() + 32 >= u64::MAX || pos + 8 > file.len() {
        Err(no_axml_message())
    } else {
        match chunk_step_spec(file.len() as u64, pos, ds64, file.subrange(pos as int, pos + 8)) {
            Err(m) => Err(m),
            Ok((at, WalkStepModel::ReadAxml(s))) => Ok(file.subrange(at as int, at + s)),
            Ok((at, WalkStepModel::ReadDs64(s))) => match ds64_spec(
                file.subrange(at as int, at + s),
            ) {
                Err(m) => Err(m),
                Ok(v) => axml_walk(file, (at + s + s % 2) as u64, Some(v)),
            },
            Ok((_, WalkStepModel::SkipTo(p))) => axml_walk(file, p, ds64),
        }
    }
}


proof fn lemma_pow256_4()
    ensures
        pow256(4) == 0x1_0000_0000,
        pow256(8) == 0x1_0000_0000_0000_0000,
{
    reveal_with_fuel(pow256, 9);
}

proof fn lemma_tags()
    ensures
        ascii_bytes("fmt "@).len() == 4,
        ascii_bytes("data"@).len() == 4,
        ascii_bytes("axml"@).len() == 4,
        ascii_bytes("ds64"@).len() == 4,
        ascii_bytes("fmt "@) != ascii_bytes("axml"@),
        ascii_bytes("fmt "@) != ascii_bytes("ds64"@),
        ascii_bytes("fmt "@) != ascii_bytes("data"@),
        ascii_bytes("data"@) != ascii_bytes("axml"@),
        ascii_bytes("data"@) != ascii_bytes("ds64"@),
        ascii_bytes("ds64"@) != ascii_bytes("axml"@),
{
    reveal_strlit("fmt ");
    reveal_strlit("data");
    reveal_strlit("axml");
    reveal_strlit("ds64");
    assert(ascii_bytes("fmt "@)[0] != ascii_bytes("axml"@)[0]);
    assert(ascii_bytes("fmt "@)[0] != ascii_bytes("ds64"@)[0]);
    assert(ascii_bytes("fmt "@)[0] != ascii_bytes("data"@)[0]);
    assert(ascii_bytes("data"@)[0] != ascii_bytes("axml"@)[0]);
    assert(ascii_bytes("data"@)[1] != ascii_bytes("ds64"@)[1]);
    assert(ascii_bytes("ds64"@)[0] != ascii_bytes("axml"@)[0]);
}

/// Four little-endian bytes of a 32-bit value read back as that value.
proof fn lemma_le4_round_trip(x: nat)
    requires
        x < 0x1_0000_0000,
    ensures
        le_bytes(x, 4).len() == 4,
        le_value(le_bytes(x, 4)) == x,
{
    lemma_le_bytes_len(x, 4);
    law_le_round_trip(x, 4);
    lemma_pow256_4();
}

/// The size a chunk header gives: its field, or the ds64 entry where the
/// field is 0xFFFFFFFF.
pub open spec fn header_gives(
    ds64: Option<(u64, Seq<(Seq<u8>, u64)>)>,
    id: Seq<u8>,
    declared: nat,
    s: nat,
) -> bool {
    ||| declared != 0xFFFF_FFFF && s == declared
    ||| declared == 0xFFFF_FFFF && (ds64 matches Some(d) && ds64_size_of(d, id) == Some(s as u64))
}

/// A chunk other than `axml` and `ds64` is stepped over, with its pad byte.
proof fn lemma_walk_skip(
    f: Seq<u8>,
    pos: u64,
    ds64: Option<(u64, Seq<(Seq<u8>, u64)>)>,
    id: Seq<u8>,
    declared: nat,
    s: nat,
)
    requires
        f.len() + 32 < u64::MAX,
        pos + 8 + s <= f.len(),
        id.len() == 4,
        declared < 0x1_0000_0000,
        f.subrange(pos as int, pos + 8) == id + le_bytes(declared, 4),
        header_gives(ds64, id, declared, s),
        id != ascii_bytes("axml"@),
        id != ascii_bytes("ds64"@),
    ensures
        axml_walk(f, pos, ds64) == axml_walk(f, (pos + 8 + s + s % 2) as u64, ds64),
{
    lemma_le4_round_trip(declared);
    let h = f.subrange(pos as int, pos + 8);
    assert(h.subrange(0, 4) =~= id);
    assert(h.subrange(4, 8) =~= le_bytes(declared, 4));
}

/// The `axml` chunk is read.
proof fn lemma_walk_axml(
    f: Seq<u8>,
    pos: u64,
    ds64: Option<(u64, Seq<(Seq<u8>, u64)>)>,
    declared: nat,
    s: nat,
)
    requires
        f.len() + 32 < u64::MAX,
        pos + 8 + s <= f.len(),
        declared < 0x1_0000_0000,
        f.subrange(pos as int, pos + 8) == ascii_bytes("axml"@) + le_bytes(declared, 4),
        header_gives(ds64, ascii_bytes("axml"@), declared, s),
    ensures
        axml_walk(f, pos, ds64) == Ok::<Seq<u8>, Seq<char>>(f.subrange(pos + 8, pos + 8 + s)),
{
    lemma_tags();
    lemma_le4_round_trip(declared);
    let h = f.subrange(pos as int, pos + 8);
    assert(h.subrange(0, 4) =~= ascii_bytes("axml"@));
    assert(h.subrange(4, 8) =~= le_bytes(declared, 4));
}

proof fn lemma_fmt_len()
    ensures
        fmt_payload().len() == 16,
{
    lemma_le_bytes_len(1, 2);
    lemma_le_bytes_len(12, 2);
    lemma_le_bytes_len(48000, 4);
    lemma_le_bytes_len(48000 * 36, 4);
    lemma_le_bytes_len(36, 2);
    lemma_le_bytes_len(24, 2);
}

/// The RIFF form of a master walks to its `axml` payload.
proof fn lemma_riff_walk(frames: nat, xml: Seq<u8>)
    requires
        frames <= 1_000_000,
        xml.len() < 4096,
    ensures
        ({
            let f = bwf_bytes(BwfForm::Riff, frames, xml);
            &&& f.len() + 32 < u64::MAX
            &&& riff_header_spec(f.take(12)) == Ok::<(), Seq<char>>(())
            &&& axml_walk(f, 12, None) == Ok::<Seq<u8>, Seq<char>>(xml)
        }),
{
    let data = repeat(frame_bytes(12), frames);
    let fmt = fmt_payload();
    lemma_frame_bytes_len(12);
    lemma_repeat_len(frame_bytes(12), frames);
    lemma_tags();
    lemma_pow256_4();
    lemma_fmt_len();
    let dl = data.len();
    assert(dl == 36 * frames);
    let xl = xml.len();
    assert(dl % 0x1_0000_0000 == dl);
    assert(xl % 0x1_0000_0000 == xl);
    lemma_le4_round_trip(16);
    lemma_le4_round_trip(dl);
    lemma_le4_round_trip(xl);
    let c1 = chunk("fmt "@, fmt.len(), fmt);
    let c2 = chunk("data"@, dl % 0x1_0000_0000, data);
    let c3 = chunk("axml"@, xl % 0x1_0000_0000, xml);
    let h1 = ascii_bytes("fmt "@) + le_bytes(16, 4);
    let h2 = ascii_bytes("data"@) + le_bytes(dl, 4);
    let h3 = ascii_bytes("axml"@) + le_bytes(xl, 4);
    assert(c1 =~= h1 + fmt);
    assert(c2 =~= h2 + data);
    let body = c1 + c2 + c3;
    let riff = ascii_bytes("RIFF"@);
    let wave = ascii_bytes("WAVE"@);
    reveal_strlit("RIFF");
    reveal_strlit("WAVE");
    let sz = le_bytes((body.len() + 4) % 0x1_0000_0000, 4);
    lemma_le_bytes_len((body.len() + 4) % 0x1_0000_0000, 4);
    let f = riff + sz + wave + body;
    assert(f == bwf_bytes(BwfForm::Riff, frames, xml));
    let head = riff + sz + wave;
    assert(f.take(12) =~= head);
    assert(head.subrange(0, 4) =~= riff);
    assert(head.subrange(8, 12) =~= wave);
    let p3: int = 44 + dl as int;
    assert(f.subrange(12, 20) =~= h1);
    lemma_walk_skip(f, 12, None, ascii_bytes("fmt "@), 16, 16);
    assert(f.subrange(36, 44) =~= h2);
    lemma_walk_skip(f, 36, None, ascii_bytes("data"@), dl, dl);
    assert(f.subrange(p3, p3 + 8) =~= h3);
    lemma_walk_axml(f, p3 as u64, None, xl, xl);
    assert(f.subrange(p3 + 8, p3 + 8 + xl) =~= xml);
}


/// The `ds64` chunk is read, and the walk goes on with its sizes.
proof fn lemma_walk_ds64(
    f: Seq<u8>,
    pos: u64,
    ds64: Option<(u64, Seq<(Seq<u8>, u64)>)>,
    s: nat,
    v: (u64, Seq<(Seq<u8>, u64)>),
)
    requires
        f.len() + 32 < u64::MAX,
        pos + 8 + s <= f.len(),
        s < 0xFFFF_FFFF,
        f.subrange(pos as int, pos + 8) == ascii_bytes("ds64"@) + le_bytes(s, 4),
        ds64_spec(f.subrange(pos + 8, pos + 8 + s)) == Ok::<
            (u64, Seq<(Seq<u8>, u64)>),
            Seq<char>,
        >(v),
    ensures
        axml_walk(f, pos, ds64) == axml_walk(f, (pos + 8 + s + s % 2) as u64, Some(v)),
{
    lemma_tags();
    lemma_le4_round_trip(s);
    let h = f.subrange(pos as int, pos + 8);
    assert(h.subrange(0, 4) =~= ascii_bytes("ds64"@));
    assert(h.subrange(4, 8) =~= le_bytes(s, 4));
}

/// Eight little-endian bytes of a 64-bit value read back as that value.
proof fn lemma_le8_round_trip(x: nat)
    requires
        x < 0x1_0000_0000_0000_0000,
    ensures
        le_bytes(x, 8).len() == 8,
        le_value(le_bytes(x, 8)) == x,
{
    lemma_le_bytes_len(x, 8);
    law_le_round_trip(x, 8);
    lemma_pow256_4();
}

/// The ds64 payload of a BW64 master gives the data size and the `axml` size.
proof fn lemma_ds64_payload(t: nat, dl: nat, frames: nat, xl: nat)
    requires
        t < 0x1_0000_0000_0000_0000,
        dl < 0x1_0000_0000_0000_0000,
        frames < 0x1_0000_0000_0000_0000,
        xl < 0x1_0000_0000_0000_0000,
    ensures
        ({
            let p = le_bytes(t, 8) + le_bytes(dl, 8) + le_bytes(frames, 8) + le_bytes(1, 4)
                + ascii_bytes("axml"@) + le_bytes(xl, 8);
            &&& p.len() == 40
            &&& ds64_spec(p) == Ok::<(u64, Seq<(Seq<u8>, u64)>), Seq<char>>(
                (dl as u64, seq![(ascii_bytes("axml"@), xl as u64)]),
            )
        }),
{
    lemma_tags();
    lemma_le8_round_trip(t);
    lemma_le8_round_trip(dl);
    lemma_le8_round_trip(frames);
    lemma_le8_round_trip(xl);
    lemma_le4_round_trip(1);
    let p = le_bytes(t, 8) + le_bytes(dl, 8) + le_bytes(frames, 8) + le_bytes(1, 4) + ascii_bytes(
        "axml"@,
    ) + le_bytes(xl, 8);
    assert(p.subrange(8, 16) =~= le_bytes(dl, 8));
    assert(p.subrange(24, 28) =~= le_bytes(1, 4));
    assert(p.subrange(28, 32) =~= ascii_bytes("axml"@));
    assert(p.subrange(32, 40) =~= le_bytes(xl, 8));
    assert(ds64_table_spec(p, 1) =~= seq![(ascii_bytes("axml"@), xl as u64)]);
}

/// The BW64 form of a master walks to its `axml` payload, the sizes of its
/// data and `axml` chunks read from its ds64 chunk.
proof fn lemma_bw64_walk(frames: nat, xml: Seq<u8>)
    requires
        frames <= 1_000_000,
        xml.len() < 4096,
    ensures
        ({
            let f = bwf_bytes(BwfForm::Bw64, frames, xml);
            &&& f.len() + 32 < u64::MAX
            &&& riff_header_spec(f.take(12)) == Ok::<(), Seq<char>>(())
            &&& axml_walk(f, 12, None) == Ok::<Seq<u8>, Seq<char>>(xml)
        }),
{
    let data = repeat(frame_bytes(12), frames);
    let fmt = fmt_payload();
    lemma_frame_bytes_len(12);
    lemma_repeat_len(frame_bytes(12), frames);
    lemma_tags();
    lemma_pow256_4();
    lemma_fmt_len();
    let dl = data.len();
    assert(dl == 36 * frames);
    let xl = xml.len();
    let total = 12 + (8 + 40) + (8 + padded(fmt.len())) + (8 + padded(dl)) + (8 + padded(xl));
    let dsp = le_bytes((total - 8) as nat, 8) + le_bytes(dl, 8) + le_bytes(frames, 8) + le_bytes(
        1,
        4,
    ) + ascii_bytes("axml"@) + le_bytes(xl, 8);
    lemma_ds64_payload((total - 8) as nat, dl, frames, xl);
    let v = (dl as u64, seq![(ascii_bytes("axml"@), xl as u64)]);
    lemma_le4_round_trip(40);
    lemma_le4_round_trip(16);
    lemma_le4_round_trip(0xFFFF_FFFF);
    let h0 = ascii_bytes("ds64"@) + le_bytes(40, 4);
    let h1 = ascii_bytes("fmt "@) + le_bytes(16, 4);
    let h2 = ascii_bytes("data"@) + le_bytes(0xFFFF_FFFF, 4);
    let h3 = ascii_bytes("axml"@) + le_bytes(0xFFFF_FFFF, 4);
    let c0 = chunk("ds64"@, 40, dsp);
    let c1 = chunk("fmt "@, fmt.len(), fmt);
    let c2 = chunk("data"@, 0xFFFF_FFFF, data);
    let c3 = chunk("axml"@, 0xFFFF_FFFF, xml);
    assert(c0 =~= h0 + dsp);
    assert(c1 =~= h1 + fmt);
    assert(c2 =~= h2 + data);
    let form = ascii_bytes("BW64"@);
    let wave = ascii_bytes("WAVE"@);
    reveal_strlit("BW64");
    reveal_strlit("WAVE");
    reveal_strlit("RIFF");
    reveal_strlit("RF64");
    let sz = le_bytes(0xFFFF_FFFF, 4);
    let head = form + sz + wave;
    let f = head + c0 + c1 + c2 + c3;
    assert(f == bwf_bytes(BwfForm::Bw64, frames, xml));
    assert(f.take(12) =~= head);
    assert(head.subrange(0, 4) =~= form);
    assert(head.subrange(8, 12) =~= wave);
    assert(is_form_type(form));
    assert(f.subrange(12, 20) =~= h0);
    assert(f.subrange(20, 60) =~= dsp);
    lemma_walk_ds64(f, 12, None, 40, v);
    assert(f.subrange(60, 68) =~= h1);
    lemma_walk_skip(f, 60, Some(v), ascii_bytes("fmt "@), 16, 16);
    assert(f.subrange(84, 92) =~= h2);
    lemma_walk_skip(f, 84, Some(v), ascii_bytes("data"@), 0xFFFF_FFFF, dl);
    let p3: int = 92 + dl as int;
    assert(f.subrange(p3, p3 + 8) =~= h3);
    assert(v.1[0].0 == ascii_bytes("axml"@));
    assert(table_find(v.1, ascii_bytes("axml"@), 0) == Some(xl as u64));
    lemma_walk_axml(f, p3 as u64, Some(v), 0xFFFF_FFFF, xl);
    assert(f.subrange(p3 + 8, p3 + 8 + xl) =~= xml);
}

/// A synthetic master, in either form, reads back through the chunk walk as
/// the synthetic ADM document: its header passes, the walk finds the `axml`
/// payload, and that payload is ASCII, which `axml_document` reads as the
/// document's text.
pub proof fn law_synthetic_master_reads_back(form: BwfForm, frames: nat)
    requires
        frames <= 1_000_000,
    ensures
        ({
            let f = synthetic_bwf_spec(form, frames);
            let xml = ascii_bytes(synthetic_adm_xml_spec());
            &&& f.len() + 32 < u64::MAX
            &&& riff_header_spec(f.take(12)) == Ok::<(), Seq<char>>(())
            &&& axml_walk(f, 12, None) == Ok::<Seq<u8>, Seq<char>>(xml)
            &&& all_ascii_bytes(xml)
            &&& xml.map_values(|x: u8| x as char) == synthetic_adm_xml_spec()
        }),
{
    let x = synthetic_adm_xml_spec();
    let xml = ascii_bytes(x);
    lemma_xml_len();
    lemma_xml_ascii();
    match form {
        BwfForm::Riff => lemma_riff_walk(frames, xml),
        BwfForm::Bw64 => lemma_bw64_walk(frames, xml),
    }
    assert(xml.map_values(|b: u8| b as char) =~= x);
}

proof fn lemma_ascii_join(a: Seq<char>, b: Seq<char>)
    requires
        all_ascii(a),
        all_ascii(b),
    ensures
        all_ascii(a + b),
{
    assert forall|i: int| 0 <= i < (a + b).len() implies ((#[trigger] (a + b)[i]) as u32) < 128 by {
        if i < a.len() {
            assert((a + b)[i] == a[i]);
        } else {
            assert((a + b)[i] == b[i - a.len()]);
        }
    }
}

proof fn lemma_decimal_ascii(n: nat)
    ensures
        all_ascii(decimal(n)),
    decreases n,
{
    let d = digit_char(n % 10);
    assert((d as u32) < 128);
    if n >= 10 {
        lemma_decimal_ascii(n / 10);
        let p = decimal(n / 10);
        assert forall|i: int| 0 <= i < decimal(n).len() implies ((#[trigger] decimal(n)[i]) as u32)
            < 128 by {
            if i < p.len() {
                assert(decimal(n)[i] == p[i]);
            }
        }
    }
}

proof fn lemma_bed_blocks_ascii(n: int)
    requires
        n <= 10,
    ensures
        all_ascii(bed_blocks(n)),
    decreases n,
{
    if n > 0 {
        lemma_bed_blocks_ascii(n - 1);
        let i = n - 1;
        let l1 = "  <audioChannelFormat audioChannelFormatID=\"AC_0001"@;
        let l2 = "\" audioChannelFormatName=\""@;
        let l3 = "\" typeLabel=\"0001\">\n    "@;
        let l4 = "<audioBlockFormat><speakerLabel>"@;
        let l5 = "</speakerLabel></audioBlockFormat>\n  </audioChannelFormat>\n"@;
        reveal_strlit("  <audioChannelFormat audioChannelFormatID=\"AC_0001");
        reveal_strlit("\" audioChannelFormatName=\"");
        reveal_strlit("\" typeLabel=\"0001\">\n    ");
        reveal_strlit("<audioBlockFormat><speakerLabel>");
        reveal_strlit("</speakerLabel></audioBlockFormat>\n  </audioChannelFormat>\n");
        reveal_strlit("000");
        reveal_strlit("RC_L");
        reveal_strlit("RC_R");
        reveal_strlit("RC_C");
        reveal_strlit("RC_LFE");
        reveal_strlit("RC_Lss");
        reveal_strlit("RC_Rss");
        reveal_strlit("RC_Lrs");
        reveal_strlit("RC_Rrs");
        reveal_strlit("RC_Ltf");
        reveal_strlit("RC_Rtf");
        let sp = bed_speaker(i);
        let hx = hex4((i + 1) as nat);
        assert(all_ascii(l1));
        assert(all_ascii(l2));
        assert(all_ascii(l3));
        assert(all_ascii(l4));
        assert(all_ascii(l5));
        assert(all_ascii(sp));
        assert(all_ascii(hx));
        lemma_ascii_join(bed_blocks(n - 1), l1);
        lemma_ascii_join(bed_blocks(n - 1) + l1, hx);
        lemma_ascii_join(bed_blocks(n - 1) + l1 + hx, l2);
        lemma_ascii_join(bed_blocks(n - 1) + l1 + hx + l2, sp);
        lemma_ascii_join(bed_blocks(n - 1) + l1 + hx + l2 + sp, l3);
        lemma_ascii_join(bed_blocks(n - 1) + l1 + hx + l2 + sp + l3, l4);
        lemma_ascii_join(bed_blocks(n - 1) + l1 + hx + l2 + sp + l3 + l4, sp);
        lemma_ascii_join(bed_blocks(n - 1) + l1 + hx + l2 + sp + l3 + l4 + sp, l5);
        assert(bed_blocks(n) =~= bed_blocks(n - 1) + l1 + hx + l2 + sp + l3 + l4 + sp + l5);
    }
}

proof fn lemma_object_block_ascii(o: int, az: Seq<char>)
    requires
        1 <= o <= 9,
        all_ascii(az),
    ensures
        all_ascii(object_block(o, az)),
{
    let l1 = "  <audioChannelFormat audioChannelFormatID=\"AC_0003"@;
    let l2 = "\" audioChannelFormatName=\"Object"@;
    let l3 = "\" typeLabel=\"0003\">\n    <audioBlockFormat><azimuth>"@;
    let l4 = "</azimuth><elevation>10</elevation><distance>0.5</distance></audioBlockFormat>\n  </audioChannelFormat>\n"@;
    reveal_strlit("  <audioChannelFormat audioChannelFormatID=\"AC_0003");
    reveal_strlit("\" audioChannelFormatName=\"Object");
    reveal_strlit("\" typeLabel=\"0003\">\n    <audioBlockFormat><azimuth>");
    reveal_strlit(
        "</azimuth><elevation>10</elevation><distance>0.5</distance></audioBlockFormat>\n  </audioChannelFormat>\n",
    );
    reveal_strlit("000");
    let hx = hex4(o as nat);
    let d = decimal(o as nat);
    lemma_decimal_ascii(o as nat);
    assert(all_ascii(l1));
    assert(all_ascii(l2));
    assert(all_ascii(l3));
    assert(all_ascii(l4));
    assert(all_ascii(hx));
    lemma_ascii_join(l1, hx);
    lemma_ascii_join(l1 + hx, l2);
    lemma_ascii_join(l1 + hx + l2, d);
    lemma_ascii_join(l1 + hx + l2 + d, l3);
    lemma_ascii_join(l1 + hx + l2 + d + l3, az);
    lemma_ascii_join(l1 + hx + l2 + d + l3 + az, l4);
}

/// The synthetic document is ASCII, so its bytes read back as its text.
proof fn lemma_xml_ascii()
    ensures
        all_ascii(synthetic_adm_xml_spec()),
        all_ascii_bytes(ascii_bytes(synthetic_adm_xml_spec())),
        ascii_bytes(synthetic_adm_xml_spec()).map_values(|x: u8| x as char)
            == synthetic_adm_xml_spec(),
{
    let l0 = "<?xml version=\"1.0\"?>\n<audioFormatExtended>\n  <audioProgramme audioProgrammeName=\"Main Mix\"/>\n"@;
    let le = "</audioFormatExtended>\n"@;
    reveal_strlit(
        "<?xml version=\"1.0\"?>\n<audioFormatExtended>\n  <audioProgramme audioProgrammeName=\"Main Mix\"/>\n",
    );
    reveal_strlit("</audioFormatExtended>\n");
    reveal_strlit("-30");
    reveal_strlit("30");
    assert(all_ascii(l0));
    assert(all_ascii(le));
    assert(all_ascii("-30"@));
    assert(all_ascii("30"@));
    lemma_bed_blocks_ascii(10);
    lemma_object_block_ascii(1, "-30"@);
    lemma_object_block_ascii(2, "30"@);
    lemma_ascii_join(l0, bed_blocks(10));
    lemma_ascii_join(l0 + bed_blocks(10), object_block(1, "-30"@));
    lemma_ascii_join(l0 + bed_blocks(10) + object_block(1, "-30"@), object_block(2, "30"@));
    lemma_ascii_join(l0 + bed_blocks(10) + object_block(1, "-30"@) + object_block(2, "30"@), le);
    let x = synthetic_adm_xml_spec();
    let b = ascii_bytes(x);
    assert forall|i: int| 0 <= i < b.len() implies #[trigger] b[i] < 128 && (b[i] as char) == x[i] by {
        let c = x[i];
        let u = c as u32;
        assert(u < 128);
        assert(b[i] == u as u8);
        assert(b[i] == u);
        vstd::utf8::char_u32_cast(c, u);
    }
    assert(b.map_values(|y: u8| y as char) =~= x);
}

} // verus!
