//! Display identification data: parsing the 128-byte EDID block into a
//! monitor fingerprint, and deriving a stable identifier from it.

use vstd::prelude::*;
use vstd::string::{StringExecFns, StrSliceExecFns, StringExecFnsIsAscii};
use vstd::utf8::encode_utf8;
use crate::bytes::{dec_bytes, hex_digit_val, is_ascii_ws, is_hex_digit, trim_bytes, trim_end, trim_start, u64_to_dec, utf8_to_string};

verus! {

/// Fingerprint data extracted from a monitor's EDID block.
#[derive(Debug)]
pub struct DisplayFingerprint {
    /// 3-character manufacturer id, such as "DEL" or "SAM".
    pub manufacturer_id: String,
    /// Product code.
    pub product_code: u16,
    /// Serial number; may be 0 if the monitor does not set one.
    pub serial_number: u32,
    /// Model name from the descriptor strings, possibly empty.
    pub model_name: String,
    /// Physical width in centimeters.
    pub width_cm: u32,
    /// Physical height in centimeters.
    pub height_cm: u32,
    /// Week of manufacture.
    pub manufacture_week: u8,
    /// Year of manufacture.
    pub manufacture_year: u16,
}

/// Mathematical image of a `DisplayFingerprint`.
pub ghost struct DisplayFingerprintView {
    pub manufacturer_id: Seq<char>,
    pub product_code: u16,
    pub serial_number: u32,
    pub model_name: Seq<char>,
    pub width_cm: u32,
    pub height_cm: u32,
    pub manufacture_week: u8,
    pub manufacture_year: u16,
}

impl View for DisplayFingerprint {
    type V = DisplayFingerprintView;

    open spec fn view(&self) -> DisplayFingerprintView {
        DisplayFingerprintView {
            manufacturer_id: self.manufacturer_id@,
            product_code: self.product_code,
            serial_number: self.serial_number,
            model_name: self.model_name@,
            width_cm: self.width_cm,
            height_cm: self.height_cm,
            manufacture_week: self.manufacture_week,
            manufacture_year: self.manufacture_year,
        }
    }
}

impl Clone for DisplayFingerprint {
    fn clone(&self) -> (res: Self)
        ensures
            res@ == self@,
    {
        DisplayFingerprint {
            manufacturer_id: self.manufacturer_id.clone(),
            product_code: self.product_code,
            serial_number: self.serial_number,
            model_name: self.model_name.clone(),
            width_cm: self.width_cm,
            height_cm: self.height_cm,
            manufacture_week: self.manufacture_week,
            manufacture_year: self.manufacture_year,
        }
    }
}

/// A valid EDID block: at least 128 bytes opening with the fixed header
/// 00 FF FF FF FF FF FF 00.
pub open spec fn edid_header_ok(s: Seq<u8>) -> bool {
    &&& s.len() >= 128
    &&& s[0] == 0x00
    &&& s[1] == 0xFF
    &&& s[2] == 0xFF
    &&& s[3] == 0xFF
    &&& s[4] == 0xFF
    &&& s[5] == 0xFF
    &&& s[6] == 0xFF
    &&& s[7] == 0x00
}

/// One letter of the manufacturer id: five bits select a letter, with 1
/// mapping to 'A'.
pub open spec fn mfg_letter(code: u16, shift: nat) -> char {
    ((((code as nat / pow2_small(shift)) % 32) + 64) as u8) as char
}

/// A small power of two used for field extraction.
pub open spec fn pow2_small(shift: nat) -> nat {
    if shift == 10 {
        1024
    } else if shift == 5 {
        32
    } else {
        1
    }
}

/// A byte that ends a model name: newline, NUL, or anything outside
/// printable ASCII.
pub open spec fn name_terminator(b: u8) -> bool {
    b == 0x0A || b == 0x00 || b >= 0x7F
}

/// Length of the name text inside a descriptor: the bytes before the first
/// terminator, at most 13.
pub open spec fn name_text_len(s: Seq<u8>, p: int, k: int) -> int
    decreases 13 - k,
{
    if k >= 13 {
        13
    } else if name_terminator(s[p + k]) {
        k
    } else {
        name_text_len(s, p, k + 1)
    }
}

/// Whether the descriptor block at `off` is a monitor name descriptor
/// (tag 0xFC behind three zero bytes).
pub open spec fn descriptor_is_name(s: Seq<u8>, off: int) -> bool {
    s[off] == 0x00 && s[off + 1] == 0x00 && s[off + 2] == 0x00 && s[off + 3] == 0xFC
}

/// The name text of the descriptor block at `off`, trimmed.
pub open spec fn descriptor_name(s: Seq<u8>, off: int) -> Seq<u8> {
    trim_bytes(s.subrange(off + 5, off + 5 + name_text_len(s, off + 5, 0)))
}

/// The model name bytes of an EDID block: the first name descriptor among
/// the four descriptor slots, or empty.
pub open spec fn spec_model_name_bytes(s: Seq<u8>) -> Seq<u8> {
    if descriptor_is_name(s, 54) {
        descriptor_name(s, 54)
    } else if descriptor_is_name(s, 72) {
        descriptor_name(s, 72)
    } else if descriptor_is_name(s, 90) {
        descriptor_name(s, 90)
    } else if descriptor_is_name(s, 108) {
        descriptor_name(s, 108)
    } else {
        Seq::empty()
    }
}

/// The two-byte big-endian manufacturer code of an EDID block.
pub open spec fn spec_mfg_code(s: Seq<u8>) -> u16 {
    (s[8] as u16 * 256 + s[9] as u16) as u16
}

/// A string holds exactly these ASCII bytes, one character per byte.
pub open spec fn chars_of_bytes(cs: Seq<char>, bs: Seq<u8>) -> bool {
    cs.len() == bs.len() && forall|i: int| 0 <= i < bs.len() ==> cs[i] == (#[trigger] bs[i]) as char
}

/// All fields of a fingerprint against the EDID block they came from.
pub open spec fn fingerprint_matches(s: Seq<u8>, fp: DisplayFingerprintView) -> bool {
    &&& fp.manufacturer_id.len() == 3
    &&& fp.manufacturer_id[0] == mfg_letter(spec_mfg_code(s), 10)
    &&& fp.manufacturer_id[1] == mfg_letter(spec_mfg_code(s), 5)
    &&& fp.manufacturer_id[2] == mfg_letter(spec_mfg_code(s), 0)
    &&& fp.product_code == s[11] as u16 * 256 + s[10] as u16
    &&& fp.serial_number == s[15] as u32 * 0x1000000 + s[14] as u32 * 0x10000
        + s[13] as u32 * 0x100 + s[12] as u32
    &&& fp.manufacture_week == s[16]
    &&& fp.manufacture_year == s[17] as u16 + 1990
    &&& fp.width_cm == s[21] as u32
    &&& fp.height_cm == s[22] as u32
    &&& chars_of_bytes(fp.model_name, spec_model_name_bytes(s))
}

/// Decode the 3-character manufacturer id from its 2-byte encoded value.
pub fn decode_manufacturer_id(encoded: u16) -> (r: String)
    ensures
        r@.len() == 3,
        r@[0] == mfg_letter(encoded, 10),
        r@[1] == mfg_letter(encoded, 5),
        r@[2] == mfg_letter(encoded, 0),
{
    let c1: u8 = ((encoded / 1024) % 32) as u8 + 64;
    let c2: u8 = ((encoded / 32) % 32) as u8 + 64;
    let c3: u8 = (encoded % 32) as u8 + 64;
    let mut v: Vec<u8> = Vec::new();
    v.push(c1);
    v.push(c2);
    v.push(c3);
    let r = utf8_to_string(v);
    match r {
        Some(s) => s,
        None => {
            proof {
                assert(false);
            }
            String::new()
        },
    }
}

/// The name text of the descriptor at `off`, trimmed, as bytes.
fn read_descriptor_name(edid: &[u8], off: usize) -> (r: Vec<u8>)
    requires
        54 <= off,
        off + 18 <= edid@.len(),
    ensures
        r@ == descriptor_name(edid@, off as int),
        forall|i: int| 0 <= i < r@.len() ==> !name_terminator(#[trigger] r@[i]),
{
    let edid_len: usize = edid.len();
    let mut collected: Vec<u8> = Vec::new();
    let mut k: usize = 0;
    let mut stopped: bool = false;
    proof {
        lemma_name_text_len_le(edid@, off as int + 5, 0);
    }
    while k < 13 && !stopped
        invariant
            0 <= k <= 13,
            54 <= off,
            off + 18 <= edid_len,
            edid_len == edid@.len(),
            collected@ == edid@.subrange(off + 5, off + 5 + k),
            forall|i: int| 0 <= i < k ==> !name_terminator(#[trigger] edid@[off + 5 + i]),
            name_text_len(edid@, off as int + 5, 0) >= k,
            stopped ==> name_text_len(edid@, off as int + 5, 0) == k,
        decreases 13 - k + (if stopped { 0int } else { 1int }),
    {
        let b = edid[off + 5 + k];
        if b == 0x0A || b == 0x00 || b >= 0x7F {
            proof {
                lemma_name_text_len_stops(edid@, off as int + 5, k as int);
            }
            stopped = true;
        } else {
            proof {
                lemma_name_text_len_continues(edid@, off as int + 5, k as int);
                assert(edid@.subrange(off + 5, off + 5 + (k + 1)) =~= edid@.subrange(
                    off + 5, off + 5 + k as int).push(edid@[off + 5 + k]));
            }
            collected.push(b);
            k = k + 1;
        }
    }
    proof {
        if !stopped {
            lemma_name_text_len_at_most(edid@, off as int + 5);
        }
        assert(name_text_len(edid@, off as int + 5, 0) == k);
        assert(collected@ == edid@.subrange(off + 5, off + 5 + name_text_len(edid@, off as int + 5, 0)));
    }
    // Trim whitespace at both ends.
    let clen: usize = collected.len();
    let mut start: usize = 0;
    let mut done_start: bool = false;
    proof {
        assert(collected@.subrange(0, clen as int) =~= collected@);
    }
    while start < clen && !done_start
        invariant
            0 <= start <= clen,
            clen == collected@.len(),
            trim_start(collected@) == trim_start(collected@.subrange(start as int, clen as int)),
            done_start ==> !is_ascii_ws(collected@[start as int]) && start < clen,
        decreases clen - start + (if done_start { 0int } else { 1int }),
    {
        let b = collected[start];
        if b == 0x20 || b == 0x09 || b == 0x0A || b == 0x0B || b == 0x0C || b == 0x0D {
            proof {
                assert(collected@.subrange(start as int, clen as int).drop_first()
                    =~= collected@.subrange(start as int + 1, clen as int));
            }
            start = start + 1;
        } else {
            done_start = true;
        }
    }
    proof {
        let tail = collected@.subrange(start as int, clen as int);
        if start < clen {
            assert(tail.first() == collected@[start as int]);
        }
        assert(trim_start(tail) == tail);
        assert(trim_start(collected@) == collected@.subrange(start as int, clen as int));
    }
    let mut end: usize = clen;
    let mut done_end: bool = false;
    proof {
        assert(trim_end(collected@.subrange(start as int, end as int))
            == trim_end(trim_start(collected@)));
    }
    while end > start && !done_end
        invariant
            0 <= start <= end <= clen,
            clen == collected@.len(),
            trim_end(collected@.subrange(start as int, end as int)) == trim_bytes(collected@),
            done_end ==> end > start && !is_ascii_ws(collected@[end - 1]),
        decreases end - start + (if done_end { 0int } else { 1int }),
    {
        let b = collected[end - 1];
        if b == 0x20 || b == 0x09 || b == 0x0A || b == 0x0B || b == 0x0C || b == 0x0D {
            proof {
                assert(collected@.subrange(start as int, end as int).drop_last()
                    =~= collected@.subrange(start as int, end as int - 1));
            }
            end = end - 1;
        } else {
            done_end = true;
        }
    }
    proof {
        let mid = collected@.subrange(start as int, end as int);
        if end > start {
            assert(mid.last() == collected@[end - 1]);
        }
        assert(trim_end(mid) == mid);
        assert(mid == trim_bytes(collected@));
    }
    let mut out: Vec<u8> = Vec::new();
    let mut i: usize = start;
    while i < end
        invariant
            start <= i <= end <= collected@.len(),
            out@ == collected@.subrange(start as int, i as int),
        decreases end - i,
    {
        proof {
            assert(collected@.subrange(start as int, i as int + 1)
                =~= collected@.subrange(start as int, i as int).push(collected@[i as int]));
        }
        out.push(collected[i]);
        i = i + 1;
    }
    proof {
        assert(out@ == trim_bytes(collected@));
        assert forall|i: int| 0 <= i < collected@.len()
            implies !name_terminator(#[trigger] collected@[i]) by {
            assert(collected@[i] == edid@[off + 5 + i]);
        }
        lemma_trim_keeps_non_terminators(collected@);
    }
    out
}

/// A trim drops bytes but adds none, so a sequence free of terminators
/// stays free of them.
proof fn lemma_trim_keeps_non_terminators(s: Seq<u8>)
    requires
        forall|i: int| 0 <= i < s.len() ==> !name_terminator(#[trigger] s[i]),
    ensures
        forall|i: int| 0 <= i < trim_bytes(s).len() ==> !name_terminator(#[trigger] trim_bytes(s)[i]),
{
    lemma_trim_start_subseq(s);
    let t = trim_start(s);
    assert(forall|i: int| 0 <= i < t.len() ==> !name_terminator(#[trigger] t[i]));
    lemma_trim_end_subseq(t);
}

/// `trim_start` returns a suffix of its input.
proof fn lemma_trim_start_subseq(s: Seq<u8>)
    ensures
        exists|k: int| 0 <= k <= s.len() && trim_start(s) =~= s.subrange(k, s.len() as int),
    decreases s.len(),
{
    if s.len() > 0 && is_ascii_ws(s.first()) {
        lemma_trim_start_subseq(s.drop_first());
        let k = choose|k: int|
            0 <= k <= s.drop_first().len() && trim_start(s.drop_first()) =~= s.drop_first().subrange(
                k, s.drop_first().len() as int);
        assert(s.drop_first().subrange(k, s.drop_first().len() as int)
            =~= s.subrange(k + 1, s.len() as int));
        assert(trim_start(s) =~= s.subrange(k + 1, s.len() as int));
    } else {
        assert(trim_start(s) =~= s.subrange(0, s.len() as int));
    }
}

/// `trim_end` returns a prefix of its input.
proof fn lemma_trim_end_subseq(s: Seq<u8>)
    ensures
        exists|k: int| 0 <= k <= s.len() && trim_end(s) =~= s.subrange(0, k),
    decreases s.len(),
{
    if s.len() > 0 && is_ascii_ws(s.last()) {
        lemma_trim_end_subseq(s.drop_last());
        let k = choose|k: int|
            0 <= k <= s.drop_last().len() && trim_end(s.drop_last()) =~= s.drop_last().subrange(0, k);
        assert(s.drop_last().subrange(0, k) =~= s.subrange(0, k));
        assert(trim_end(s) =~= s.subrange(0, k));
    } else {
        assert(trim_end(s) =~= s.subrange(0, s.len() as int));
    }
}

proof fn lemma_name_text_len_stops(s: Seq<u8>, p: int, k: int)
    requires
        0 <= k < 13,
        forall|i: int| 0 <= i < k ==> !name_terminator(#[trigger] s[p + i]),
        name_terminator(s[p + k]),
    ensures
        name_text_len(s, p, 0) == k,
{
    lemma_name_text_len_from(s, p, 0, k);
}

proof fn lemma_name_text_len_continues(s: Seq<u8>, p: int, k: int)
    requires
        0 <= k < 13,
        forall|i: int| 0 <= i <= k ==> !name_terminator(#[trigger] s[p + i]),
    ensures
        name_text_len(s, p, 0) >= k + 1,
    decreases k,
{
    lemma_name_text_len_ge(s, p, 0, k + 1);
}

/// From position `j`, if no terminator occurs before `k`, the scan reaches `k`.
proof fn lemma_name_text_len_ge(s: Seq<u8>, p: int, j: int, k: int)
    requires
        0 <= j <= k <= 13,
        forall|i: int| j <= i < k ==> !name_terminator(#[trigger] s[p + i]),
    ensures
        name_text_len(s, p, j) >= k,
    decreases k - j,
{
    if j < k {
        lemma_name_text_len_ge(s, p, j + 1, k);
    } else {
        lemma_name_text_len_le(s, p, j);
    }
}

/// From position `j`, a terminator at `k` with none before stops the scan at `k`.
proof fn lemma_name_text_len_from(s: Seq<u8>, p: int, j: int, k: int)
    requires
        0 <= j <= k < 13,
        forall|i: int| j <= i < k ==> !name_terminator(#[trigger] s[p + i]),
        name_terminator(s[p + k]),
    ensures
        name_text_len(s, p, j) == k,
    decreases k - j,
{
    if j < k {
        lemma_name_text_len_from(s, p, j + 1, k);
    }
}

/// The scan never exceeds 13.
proof fn lemma_name_text_len_at_most(s: Seq<u8>, p: int)
    ensures
        name_text_len(s, p, 0) <= 13,
{
    lemma_name_text_len_le(s, p, 0);
}

proof fn lemma_name_text_len_le(s: Seq<u8>, p: int, j: int)
    requires
        0 <= j <= 13,
    ensures
        j <= name_text_len(s, p, j) <= 13,
    decreases 13 - j,
{
    if j < 13 && !name_terminator(s[p + j]) {
        lemma_name_text_len_le(s, p, j + 1);
    }
}

/// Extract the model name from the EDID descriptor blocks: the first
/// monitor-name descriptor's text, trimmed; empty if none is present.
pub fn extract_model_name(edid_bytes: &[u8]) -> (r: String)
    requires
        edid_bytes@.len() >= 128,
    ensures
        chars_of_bytes(r@, spec_model_name_bytes(edid_bytes@)),
{
    let mut which: usize = 0;
    let mut found: bool = false;
    // Probe the four slots in order.
    if edid_bytes[54] == 0x00 && edid_bytes[55] == 0x00 && edid_bytes[56] == 0x00
        && edid_bytes[57] == 0xFC {
        which = 54;
        found = true;
    } else if edid_bytes[72] == 0x00 && edid_bytes[73] == 0x00 && edid_bytes[74] == 0x00
        && edid_bytes[75] == 0xFC {
        which = 72;
        found = true;
    } else if edid_bytes[90] == 0x00 && edid_bytes[91] == 0x00 && edid_bytes[92] == 0x00
        && edid_bytes[93] == 0xFC {
        which = 90;
        found = true;
    } else if edid_bytes[108] == 0x00 && edid_bytes[109] == 0x00 && edid_bytes[110] == 0x00
        && edid_bytes[111] == 0xFC {
        which = 108;
        found = true;
    }
    if !found {
        let r = String::new();
        proof {
            assert(spec_model_name_bytes(edid_bytes@) =~= Seq::<u8>::empty());
        }
        return r;
    }
    let name_bytes = read_descriptor_name(edid_bytes, which);
    proof {
        assert(name_bytes@ == spec_model_name_bytes(edid_bytes@));
    }
    match utf8_to_string(name_bytes) {
        Some(s) => s,
        None => {
            proof {
                assert(false);
            }
            String::new()
        },
    }
}

/// A name for what uuid::Uuid::new_v5 returns on the DNS namespace and the
/// given name bytes: a digest that depends on those bytes alone.
pub uninterp spec fn uuid_v5_of(name: Seq<u8>) -> u128;

/// Relies on uuid::Uuid::new_v5 with the DNS namespace: a deterministic,
/// machine-independent digest of the name bytes.
#[verifier::external_body]
fn uuid_v5_dns(name: &[u8]) -> (r: u128)
    ensures
        r == uuid_v5_of(name@),
{
    uuid::Uuid::new_v5(&uuid::Uuid::NAMESPACE_DNS, name).as_u128()
}

/// The name a fingerprint is digested under: the identifying fields joined
/// by colons.
pub open spec fn fingerprint_name_bytes(fp: DisplayFingerprintView) -> Seq<u8> {
    encode_utf8(fp.manufacturer_id) + seq![0x3Au8] + dec_bytes(fp.product_code as nat)
        + seq![0x3Au8] + dec_bytes(fp.serial_number as nat) + seq![0x3Au8]
        + encode_utf8(fp.model_name)
}

impl DisplayFingerprint {
    /// A deterministic identifier for the physical monitor: the v5 digest of
    /// the fingerprint's identifying fields. The same fingerprint always
    /// yields the same identifier.
    pub fn to_uuid(&self) -> (r: u128)
        ensures
            r == uuid_v5_of(fingerprint_name_bytes(self@)),
    {
        let mut name: Vec<u8> = Vec::new();
        let mut part = self.manufacturer_id.as_str().as_bytes_vec();
        name.append(&mut part);
        name.push(0x3A);
        let mut part = u64_to_dec(self.product_code as u64);
        name.append(&mut part);
        name.push(0x3A);
        let mut part = u64_to_dec(self.serial_number as u64);
        name.append(&mut part);
        name.push(0x3A);
        let mut part = self.model_name.as_str().as_bytes_vec();
        name.append(&mut part);
        proof {
            assert(name@ =~= fingerprint_name_bytes(self@));
        }
        uuid_v5_dns(name.as_slice())
    }

    /// A human-readable display name: the model name, or the manufacturer id
    /// followed by " Display" when no model name is present.
    pub fn display_name(&self) -> (r: String)
        ensures
            self.model_name@.len() > 0 ==> r@ == self.model_name@,
            self.model_name@.len() == 0 ==> r@ == self.manufacturer_id@ + " Display"@,
    {
        if self.model_name.as_str().unicode_len() > 0 {
            self.model_name.clone()
        } else {
            self.manufacturer_id.clone().concat(" Display")
        }
    }
}

/// The space character stripped before hex decoding.
pub open spec fn strip_spaces(s: Seq<u8>) -> Seq<u8>
    decreases s.len(),
{
    if s.len() == 0 {
        Seq::empty()
    } else if s.last() == 0x20 {
        strip_spaces(s.drop_last())
    } else {
        strip_spaces(s.drop_last()).push(s.last())
    }
}

/// A decodable hex text: even length, hex digits only.
pub open spec fn hex_ok(s: Seq<u8>) -> bool {
    s.len() % 2 == 0 && forall|i: int| 0 <= i < s.len() ==> is_hex_digit(#[trigger] s[i])
}

/// The bytes a hex text decodes to, two digits per byte.
pub open spec fn hex_decoded(s: Seq<u8>) -> Seq<u8> {
    Seq::new((s.len() / 2) as nat, |i: int| (hex_digit_val(s[2 * i]) * 16 + hex_digit_val(
        s[2 * i + 1])) as u8)
}

/// Decode a hex string to bytes, ignoring spaces. Succeeds exactly when,
/// after the spaces are dropped, an even number of hex digits remains.
pub fn hex_to_bytes(hex: &str) -> (r: Result<Vec<u8>, String>)
    ensures
        r matches Ok(v) ==> hex_ok(strip_spaces(encode_utf8(hex@))) && v@ == hex_decoded(
            strip_spaces(encode_utf8(hex@))),
        r is Err <==> !hex_ok(strip_spaces(encode_utf8(hex@))),
{
    let raw = hex.as_bytes_vec();
    let mut digits: Vec<u8> = Vec::new();
    let mut i: usize = 0;
    while i < raw.len()
        invariant
            0 <= i <= raw@.len(),
            digits@ == strip_spaces(raw@.subrange(0, i as int)),
        decreases raw@.len() - i,
    {
        let b = raw[i];
        proof {
            assert(raw@.subrange(0, i as int + 1).drop_last() =~= raw@.subrange(0, i as int));
            assert(raw@.subrange(0, i as int + 1).last() == raw@[i as int]);
        }
        if b != 0x20 {
            digits.push(b);
        }
        i = i + 1;
    }
    proof {
        assert(raw@.subrange(0, raw@.len() as int) =~= raw@);
    }

    if digits.len() % 2 != 0 {
        return Err(String::from_str("Hex string has odd length"));
    }

    let mut out: Vec<u8> = Vec::new();
    let mut k: usize = 0;
    while k < digits.len() / 2
        invariant
            0 <= k <= digits@.len() / 2,
            digits@.len() % 2 == 0,
            digits@ == strip_spaces(encode_utf8(hex@)),
            out@.len() == k,
            forall|j: int| 0 <= j < 2 * k ==> is_hex_digit(#[trigger] digits@[j]),
            forall|j: int| 0 <= j < k ==> out@[j] == (hex_digit_val(digits@[2 * j]) * 16
                + hex_digit_val(digits@[2 * j + 1])) as u8,
        decreases digits@.len() - 2 * k,
    {
        let a = digits[2 * k];
        let b = digits[2 * k + 1];
        let av: u8;
        let bv: u8;
        if 0x30 <= a && a <= 0x39 {
            av = a - 0x30;
        } else if 0x41 <= a && a <= 0x46 {
            av = a - 0x41 + 10;
        } else if 0x61 <= a && a <= 0x66 {
            av = a - 0x61 + 10;
        } else {
            proof {
                assert(!is_hex_digit(digits@[2 * k as int]));
            }
            return Err(String::from_str("Invalid hex digit"));
        }
        if 0x30 <= b && b <= 0x39 {
            bv = b - 0x30;
        } else if 0x41 <= b && b <= 0x46 {
            bv = b - 0x41 + 10;
        } else if 0x61 <= b && b <= 0x66 {
            bv = b - 0x61 + 10;
        } else {
            proof {
                assert(!is_hex_digit(digits@[2 * k as int + 1]));
            }
            return Err(String::from_str("Invalid hex digit"));
        }
        out.push(av * 16 + bv);
        k = k + 1;
    }
    proof {
        assert(out@ =~= hex_decoded(digits@));
    }
    Ok(out)
}

/// Parse each EDID blob and pair every successful fingerprint with the
/// position of the blob it came from, in order.
pub fn get_display_fingerprints(edids: Vec<Vec<u8>>) -> (r: Vec<(i32, DisplayFingerprint)>)
    requires
        edids@.len() < 0x8000_0000,
    ensures
        forall|j: int| 0 <= j < r@.len() ==> {
            &&& 0 <= (#[trigger] r@[j]).0 < edids@.len()
            &&& edid_header_ok(edids@[r@[j].0 as int]@)
            &&& fingerprint_matches(edids@[r@[j].0 as int]@, r@[j].1@)
        },
        forall|j1: int, j2: int| 0 <= j1 < j2 < r@.len() ==> (#[trigger] r@[j1]).0 < (
        #[trigger] r@[j2]).0,
        forall|i: int| 0 <= i < edids@.len() && edid_header_ok(edids@[i]@) ==> exists|j: int|
            0 <= j < r@.len() && (#[trigger] r@[j]).0 == i,
{
    let mut results: Vec<(i32, DisplayFingerprint)> = Vec::new();
    let mut i: usize = 0;
    while i < edids.len()
        invariant
            0 <= i <= edids@.len(),
            edids@.len() < 0x8000_0000,
            forall|j: int| 0 <= j < results@.len() ==> {
                &&& 0 <= (#[trigger] results@[j]).0 < i
                &&& edid_header_ok(edids@[results@[j].0 as int]@)
                &&& fingerprint_matches(edids@[results@[j].0 as int]@, results@[j].1@)
            },
            forall|j1: int, j2: int| 0 <= j1 < j2 < results@.len() ==> (#[trigger] results@[j1]).0 < (
            #[trigger] results@[j2]).0,
            forall|k: int| 0 <= k < i && edid_header_ok(edids@[k]@) ==> exists|j: int|
                0 <= j < results@.len() && (#[trigger] results@[j]).0 == k,
        decreases edids@.len() - i,
    {
        let parsed = parse_edid(edids[i].as_slice());
        let ghost old_results = results@;
        match parsed {
            Some(fingerprint) => {
                results.push((i as i32, fingerprint));
                proof {
                    assert forall|k: int| 0 <= k < i + 1 && edid_header_ok(edids@[k]@)
                        implies exists|j: int| 0 <= j < results@.len()
                            && (#[trigger] results@[j]).0 == k by {
                        if k == i {
                            assert(results@[old_results.len() as int].0 == k);
                        } else {
                            let j = choose|j: int|
                                0 <= j < old_results.len() && (#[trigger] old_results[j]).0 == k;
                            assert(results@[j].0 == k);
                        }
                    }
                }
            },
            None => {
                proof {
                    assert(!edid_header_ok(edids@[i as int]@));
                }
            },
        }
        i = i + 1;
    }
    results
}

/// Parse EDID bytes into a fingerprint. Succeeds exactly on a block of at
/// least 128 bytes with the fixed EDID header, and then reports every field
/// read from its standard offset.
pub fn parse_edid(edid_bytes: &[u8]) -> (r: Option<DisplayFingerprint>)
    ensures
        r is Some <==> edid_header_ok(edid_bytes@),
        r matches Some(fp) ==> fingerprint_matches(edid_bytes@, fp@),
{
    if edid_bytes.len() < 128 {
        return None;
    }
    if !(edid_bytes[0] == 0x00 && edid_bytes[1] == 0xFF && edid_bytes[2] == 0xFF
        && edid_bytes[3] == 0xFF && edid_bytes[4] == 0xFF && edid_bytes[5] == 0xFF
        && edid_bytes[6] == 0xFF && edid_bytes[7] == 0x00) {
        return None;
    }

    let mfg_code: u16 = (edid_bytes[8] as u16) * 256 + (edid_bytes[9] as u16);
    let manufacturer_id = decode_manufacturer_id(mfg_code);

    let product_code: u16 = (edid_bytes[11] as u16) * 256 + (edid_bytes[10] as u16);

    let serial_number: u32 = (edid_bytes[15] as u32) * 0x1000000 + (edid_bytes[14] as u32) * 0x10000
        + (edid_bytes[13] as u32) * 0x100 + (edid_bytes[12] as u32);

    let manufacture_week = edid_bytes[16];
    let manufacture_year: u16 = (edid_bytes[17] as u16) + 1990;

    let width_cm: u32 = edid_bytes[21] as u32;
    let height_cm: u32 = edid_bytes[22] as u32;

    let model_name = extract_model_name(edid_bytes);

    Some(DisplayFingerprint {
        manufacturer_id,
        product_code,
        serial_number,
        model_name,
        width_cm,
        height_cm,
        manufacture_week,
        manufacture_year,
    })
}

} // verus!
