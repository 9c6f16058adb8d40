//! Multicast discovery of leader candidates: the discovered-leader record,
//! the parsing of advertisement metadata, and the collection of one browse
//! window's events into a deduplicated snapshot.

use vstd::prelude::*;
use vstd::string::StringExecFns;
use vstd::utf8::encode_utf8;
use crate::bytes::{dec_val, all_dec_digits, hex_digit_val, is_hex_digit, parse_u64_dec,
    parse_u8_dec, bytes_eq, utf8_to_string};
use crate::peer::Peer;
use crate::types::PeerType;

verus! {

/// A leader candidate learned from one advertisement.
#[derive(Debug)]
pub struct DiscoveredLeader {
    pub peer_id: u128,
    pub display_name: String,
    pub peer_type: PeerType,
    /// The advertised priority components: (device type score, startup time).
    pub priority: (u8, u64),
}

/// Mathematical image of a `DiscoveredLeader`.
pub ghost struct DiscoveredLeaderView {
    pub peer_id: u128,
    pub display_name: Seq<char>,
    pub peer_type: PeerType,
    pub priority: (u8, u64),
}

impl View for DiscoveredLeader {
    type V = DiscoveredLeaderView;

    open spec fn view(&self) -> DiscoveredLeaderView {
        DiscoveredLeaderView {
            peer_id: self.peer_id,
            display_name: self.display_name@,
            peer_type: self.peer_type,
            priority: self.priority,
        }
    }
}

impl Clone for DiscoveredLeader {
    fn clone(&self) -> (res: Self)
        ensures
            res@ == self@,
    {
        DiscoveredLeader {
            peer_id: self.peer_id,
            display_name: self.display_name.clone(),
            peer_type: self.peer_type,
            priority: self.priority,
        }
    }
}

/// 16 to the given power.
pub open spec fn pow16(n: nat) -> nat
    decreases n,
{
    if n == 0 {
        1
    } else {
        16 * pow16((n - 1) as nat)
    }
}

/// The value of a hex digit sequence, most significant digit first.
pub open spec fn hex_val_of(s: Seq<u8>) -> nat
    decreases s.len(),
{
    if s.len() == 0 {
        0
    } else {
        hex_val_of(s.drop_last()) * 16 + hex_digit_val(s.last()) as nat
    }
}

/// A hex digit sequence's value is bounded by 16 to its length.
pub proof fn lemma_hex_val_bound(s: Seq<u8>)
    requires
        forall|i: int| 0 <= i < s.len() ==> is_hex_digit(#[trigger] s[i]),
    ensures
        hex_val_of(s) < pow16(s.len()),
    decreases s.len(),
{
    if s.len() > 0 {
        assert(forall|i: int| 0 <= i < s.drop_last().len()
            ==> is_hex_digit(#[trigger] s.drop_last()[i]));
        lemma_hex_val_bound(s.drop_last());
        let prev = hex_val_of(s.drop_last());
        let p = pow16((s.len() - 1) as nat);
        assert(prev * 16 + 15 < p * 16) by (nonlinear_arith)
            requires
                prev < p,
        {
        }
        assert(hex_digit_val(s.last()) <= 15);
    }
}

/// 16 to the 32nd is exactly the count of 128-bit values.
pub proof fn lemma_pow16_32()
    ensures
        pow16(32) == 0x1_0000_0000_0000_0000_0000_0000_0000_0000nat,
{
    reveal_with_fuel(pow16, 33);
}

/// Parse 32 hex digits into their 128-bit value.
fn parse_hex128(digits: &[u8]) -> (r: Option<u128>)
    requires
        digits@.len() == 32,
    ensures
        r matches Some(v) ==> (forall|i: int| 0 <= i < 32 ==> is_hex_digit(#[trigger] digits@[i]))
            && v as nat == hex_val_of(digits@),
        r is None ==> exists|i: int| 0 <= i < 32 && !is_hex_digit(#[trigger] digits@[i]),
{
    let mut acc: u128 = 0;
    let mut i: usize = 0;
    proof {
        lemma_pow16_32();
    }
    while i < 32
        invariant
            0 <= i <= 32,
            digits@.len() == 32,
            forall|j: int| 0 <= j < i ==> is_hex_digit(#[trigger] digits@[j]),
            acc as nat == hex_val_of(digits@.subrange(0, i as int)),
            (acc as nat) < pow16(i as nat),
            pow16(32) == 0x1_0000_0000_0000_0000_0000_0000_0000_0000nat,
        decreases 32 - i,
    {
        let b = digits[i];
        let v: u8;
        if 0x30 <= b && b <= 0x39 {
            v = b - 0x30;
        } else if 0x41 <= b && b <= 0x46 {
            v = b - 0x41 + 10;
        } else if 0x61 <= b && b <= 0x66 {
            v = b - 0x61 + 10;
        } else {
            proof {
                assert(!is_hex_digit(digits@[i as int]));
            }
            return None;
        }
        proof {
            lemma_pow16_le(i as nat + 1, 32);
            assert(acc * 16 + v < pow16(i as nat) * 16) by (nonlinear_arith)
                requires
                    (acc as nat) < pow16(i as nat),
                    v < 16,
            {
            }
            assert(pow16(i as nat + 1) == 16 * pow16(i as nat));
            assert(digits@.subrange(0, i as int + 1).drop_last() =~= digits@.subrange(0, i as int));
            assert(digits@.subrange(0, i as int + 1).last() == digits@[i as int]);
            assert(hex_digit_val(digits@[i as int]) == v);
        }
        acc = acc * 16 + (v as u128);
        i = i + 1;
    }
    proof {
        assert(digits@.subrange(0, 32) =~= digits@);
    }
    Some(acc)
}

/// `pow16` is monotone.
proof fn lemma_pow16_le(a: nat, b: nat)
    requires
        a <= b,
    ensures
        pow16(a) <= pow16(b),
    decreases b,
{
    if a < b {
        lemma_pow16_le(a, (b - 1) as nat);
        assert(pow16((b - 1) as nat) <= 16 * pow16((b - 1) as nat)) by (nonlinear_arith)
            requires
                pow16((b - 1) as nat) >= 0,
        {
        }
    }
}

/// The source index of the k-th hex digit in a hyphenated identifier.
pub open spec fn uuid_digit_pos(i: int) -> int {
    if i < 8 {
        i
    } else if i < 12 {
        i + 1
    } else if i < 16 {
        i + 2
    } else if i < 20 {
        i + 3
    } else {
        i + 4
    }
}

/// The 32 digit bytes of a hyphenated identifier, in order.
pub open spec fn uuid_hyphen_digits(s: Seq<u8>) -> Seq<u8> {
    Seq::new(32, |i: int| s[uuid_digit_pos(i)])
}

/// The standard hyphenated form: 36 bytes, hyphens after the 8th, 12th,
/// 16th and 20th digit, hex digits elsewhere.
pub open spec fn uuid_hyphen_ok(s: Seq<u8>) -> bool {
    &&& s.len() == 36
    &&& s[8] == 0x2D
    &&& s[13] == 0x2D
    &&& s[18] == 0x2D
    &&& s[23] == 0x2D
    &&& forall|i: int| 0 <= i < 32 ==> is_hex_digit(#[trigger] s[uuid_digit_pos(i)])
}

/// The simple form: 32 hex digits.
pub open spec fn uuid_simple_ok(s: Seq<u8>) -> bool {
    s.len() == 32 && forall|i: int| 0 <= i < 32 ==> is_hex_digit(#[trigger] s[i])
}

/// The identifier a peer-id text denotes: the hyphenated or the simple
/// form, read as 32 hex digits.
pub open spec fn spec_parse_uuid(s: Seq<u8>) -> Option<u128> {
    if uuid_simple_ok(s) {
        Some(hex_val_of(s) as u128)
    } else if uuid_hyphen_ok(s) {
        Some(hex_val_of(uuid_hyphen_digits(s)) as u128)
    } else {
        None
    }
}

/// Parse a textual peer identifier: the hyphenated form or the plain
/// 32-digit form, and nothing else.
pub fn parse_uuid(s: &[u8]) -> (r: Option<u128>)
    ensures
        r == spec_parse_uuid(s@),
{
    if s.len() == 32 {
        let r = parse_hex128(s);
        proof {
            if r is Some {
                lemma_hex_val_bound(s@);
                lemma_pow16_32();
                assert(uuid_simple_ok(s@));
            } else {
                assert(!uuid_simple_ok(s@));
                assert(!uuid_hyphen_ok(s@));
            }
        }
        r
    } else if s.len() == 36 {
        if !(s[8] == 0x2D && s[13] == 0x2D && s[18] == 0x2D && s[23] == 0x2D) {
            proof {
                assert(!uuid_hyphen_ok(s@));
                assert(!uuid_simple_ok(s@));
            }
            return None;
        }
        let mut digits: Vec<u8> = Vec::new();
        let mut k: usize = 0;
        while k < 32
            invariant
                0 <= k <= 32,
                s@.len() == 36,
                digits@.len() == k,
                forall|j: int| 0 <= j < k ==> digits@[j] == s@[uuid_digit_pos(j)],
            decreases 32 - k,
        {
            let p: usize = if k < 8 {
                k
            } else if k < 12 {
                k + 1
            } else if k < 16 {
                k + 2
            } else if k < 20 {
                k + 3
            } else {
                k + 4
            };
            digits.push(s[p]);
            k = k + 1;
        }
        proof {
            assert(digits@ =~= uuid_hyphen_digits(s@));
        }
        let r = parse_hex128(digits.as_slice());
        proof {
            if r is Some {
                lemma_hex_val_bound(digits@);
                lemma_pow16_32();
                assert forall|i: int| 0 <= i < 32
                    implies is_hex_digit(#[trigger] s@[uuid_digit_pos(i)]) by {
                    assert(is_hex_digit(digits@[i]));
                }
                assert(uuid_hyphen_ok(s@));
            } else {
                let i = choose|i: int| 0 <= i < 32 && !is_hex_digit(#[trigger] digits@[i]);
                assert(!is_hex_digit(s@[uuid_digit_pos(i)]));
                assert(!uuid_hyphen_ok(s@));
                assert(!uuid_simple_ok(s@));
            }
        }
        r
    } else {
        proof {
            assert(!uuid_simple_ok(s@));
            assert(!uuid_hyphen_ok(s@));
        }
        None
    }
}

/// The metadata key "peer_id".
pub open spec fn key_peer_id() -> Seq<u8> {
    seq![0x70u8, 0x65u8, 0x65u8, 0x72u8, 0x5Fu8, 0x69u8, 0x64u8]
}

fn key_peer_id_bytes() -> (r: Vec<u8>)
    ensures
        r@ == key_peer_id(),
{
    let mut v: Vec<u8> = Vec::new();
    v.push(0x70);
    v.push(0x65);
    v.push(0x65);
    v.push(0x72);
    v.push(0x5F);
    v.push(0x69);
    v.push(0x64);
    proof {
        assert(v@ =~= key_peer_id());
    }
    v
}

/// The metadata key "display_name".
pub open spec fn key_display_name() -> Seq<u8> {
    seq![0x64u8, 0x69u8, 0x73u8, 0x70u8, 0x6Cu8, 0x61u8, 0x79u8, 0x5Fu8, 0x6Eu8, 0x61u8, 0x6Du8, 0x65u8]
}

fn key_display_name_bytes() -> (r: Vec<u8>)
    ensures
        r@ == key_display_name(),
{
    let mut v: Vec<u8> = Vec::new();
    v.push(0x64);
    v.push(0x69);
    v.push(0x73);
    v.push(0x70);
    v.push(0x6C);
    v.push(0x61);
    v.push(0x79);
    v.push(0x5F);
    v.push(0x6E);
    v.push(0x61);
    v.push(0x6D);
    v.push(0x65);
    proof {
        assert(v@ =~= key_display_name());
    }
    v
}

/// The metadata key "peer_type".
pub open spec fn key_peer_type() -> Seq<u8> {
    seq![0x70u8, 0x65u8, 0x65u8, 0x72u8, 0x5Fu8, 0x74u8, 0x79u8, 0x70u8, 0x65u8]
}

fn key_peer_type_bytes() -> (r: Vec<u8>)
    ensures
        r@ == key_peer_type(),
{
    let mut v: Vec<u8> = Vec::new();
    v.push(0x70);
    v.push(0x65);
    v.push(0x65);
    v.push(0x72);
    v.push(0x5F);
    v.push(0x74);
    v.push(0x79);
    v.push(0x70);
    v.push(0x65);
    proof {
        assert(v@ =~= key_peer_type());
    }
    v
}

/// The metadata key "priority_type".
pub open spec fn key_priority_type() -> Seq<u8> {
    seq![0x70u8, 0x72u8, 0x69u8, 0x6Fu8, 0x72u8, 0x69u8, 0x74u8, 0x79u8, 0x5Fu8, 0x74u8, 0x79u8, 0x70u8, 0x65u8]
}

fn key_priority_type_bytes() -> (r: Vec<u8>)
    ensures
        r@ == key_priority_type(),
{
    let mut v: Vec<u8> = Vec::new();
    v.push(0x70);
    v.push(0x72);
    v.push(0x69);
    v.push(0x6F);
    v.push(0x72);
    v.push(0x69);
    v.push(0x74);
    v.push(0x79);
    v.push(0x5F);
    v.push(0x74);
    v.push(0x79);
    v.push(0x70);
    v.push(0x65);
    proof {
        assert(v@ =~= key_priority_type());
    }
    v
}

/// The metadata key "priority_time".
pub open spec fn key_priority_time() -> Seq<u8> {
    seq![0x70u8, 0x72u8, 0x69u8, 0x6Fu8, 0x72u8, 0x69u8, 0x74u8, 0x79u8, 0x5Fu8, 0x74u8, 0x69u8, 0x6Du8, 0x65u8]
}

fn key_priority_time_bytes() -> (r: Vec<u8>)
    ensures
        r@ == key_priority_time(),
{
    let mut v: Vec<u8> = Vec::new();
    v.push(0x70);
    v.push(0x72);
    v.push(0x69);
    v.push(0x6F);
    v.push(0x72);
    v.push(0x69);
    v.push(0x74);
    v.push(0x79);
    v.push(0x5F);
    v.push(0x74);
    v.push(0x69);
    v.push(0x6D);
    v.push(0x65);
    proof {
        assert(v@ =~= key_priority_time());
    }
    v
}

/// The metadata value "controller".
pub open spec fn val_controller() -> Seq<u8> {
    seq![0x63u8, 0x6Fu8, 0x6Eu8, 0x74u8, 0x72u8, 0x6Fu8, 0x6Cu8, 0x6Cu8, 0x65u8, 0x72u8]
}

fn val_controller_bytes() -> (r: Vec<u8>)
    ensures
        r@ == val_controller(),
{
    let mut v: Vec<u8> = Vec::new();
    v.push(0x63);
    v.push(0x6F);
    v.push(0x6E);
    v.push(0x74);
    v.push(0x72);
    v.push(0x6F);
    v.push(0x6C);
    v.push(0x6C);
    v.push(0x65);
    v.push(0x72);
    proof {
        assert(v@ =~= val_controller());
    }
    v
}

/// The position of the first '=' in an entry at or after `k`; -1 if none.
pub open spec fn eq_pos(e: Seq<u8>, k: int) -> int
    decreases e.len() - k,
{
    if k < 0 || k >= e.len() {
        -1
    } else if e[k] == 0x3D {
        k
    } else {
        eq_pos(e, k + 1)
    }
}

/// The key of a "key=value" entry, if it has an '='.
pub open spec fn entry_key(e: Seq<u8>) -> Option<Seq<u8>> {
    if eq_pos(e, 0) >= 0 {
        Some(e.subrange(0, eq_pos(e, 0)))
    } else {
        None
    }
}

/// The value of a "key=value" entry.
pub open spec fn entry_val(e: Seq<u8>) -> Seq<u8> {
    e.subrange(eq_pos(e, 0) + 1, e.len() as int)
}

/// The value of the last entry carrying this key, as a map built in entry
/// order would hold it. Entries without an '=' are skipped.
pub open spec fn txt_lookup(entries: Seq<Seq<u8>>, key: Seq<u8>) -> Option<Seq<u8>>
    decreases entries.len(),
{
    if entries.len() == 0 {
        None
    } else if entry_key(entries.last()) == Some(key) {
        Some(entry_val(entries.last()))
    } else {
        txt_lookup(entries.drop_last(), key)
    }
}

proof fn lemma_eq_pos_none(e: Seq<u8>, j: int)
    requires
        0 <= j,
        forall|i: int| j <= i < e.len() ==> e[i] != 0x3D,
    ensures
        eq_pos(e, j) == -1,
    decreases e.len() - j,
{
    if j < e.len() {
        lemma_eq_pos_none(e, j + 1);
    }
}

proof fn lemma_eq_pos_found(e: Seq<u8>, j: int, k: int)
    requires
        0 <= j <= k < e.len(),
        forall|i: int| j <= i < k ==> e[i] != 0x3D,
        e[k] == 0x3D,
    ensures
        eq_pos(e, j) == k,
    decreases k - j,
{
    if j < k {
        lemma_eq_pos_found(e, j + 1, k);
    }
}

/// Find the first '=' in an entry.
fn find_eq(e: &Vec<u8>) -> (r: Option<usize>)
    ensures
        r matches Some(p) ==> eq_pos(e@, 0) == p && p < e@.len(),
        r is None ==> eq_pos(e@, 0) == -1,
{
    let mut i: usize = 0;
    while i < e.len()
        invariant
            0 <= i <= e@.len(),
            forall|j: int| 0 <= j < i ==> e@[j] != 0x3D,
        decreases e@.len() - i,
    {
        if e[i] == 0x3D {
            proof {
                lemma_eq_pos_found(e@, 0, i as int);
            }
            return Some(i);
        }
        i = i + 1;
    }
    proof {
        lemma_eq_pos_none(e@, 0);
    }
    None
}

/// Copy a range of an entry.
fn copy_range(e: &Vec<u8>, from: usize, to: usize) -> (r: Vec<u8>)
    requires
        from <= to <= e@.len(),
    ensures
        r@ == e@.subrange(from as int, to as int),
{
    let mut out: Vec<u8> = Vec::new();
    let mut i: usize = from;
    while i < to
        invariant
            from <= i <= to <= e@.len(),
            out@ == e@.subrange(from as int, i as int),
        decreases to - i,
    {
        proof {
            assert(e@.subrange(from as int, i as int + 1)
                =~= e@.subrange(from as int, i as int).push(e@[i as int]));
        }
        out.push(e[i]);
        i = i + 1;
    }
    out
}

/// Look a key up among "key=value" entries; the last entry wins, as in a
/// map filled in entry order.
fn txt_lookup_exec(entries: &Vec<Vec<u8>>, key: &Vec<u8>) -> (r: Option<Vec<u8>>)
    ensures
        r is Some <==> txt_lookup(entries.deep_view(), key@) is Some,
        r matches Some(v) ==> txt_lookup(entries.deep_view(), key@) == Some(v@),
{
    let ghost ev = entries.deep_view();
    let mut i: usize = entries.len();
    proof {
        assert(ev.subrange(0, ev.len() as int) =~= ev);
        assert(entries@.len() == ev.len());
    }
    while i > 0
        invariant
            0 <= i <= entries@.len(),
            ev == entries.deep_view(),
            ev.len() == entries@.len(),
            txt_lookup(ev, key@) == txt_lookup(ev.subrange(0, i as int), key@),
        decreases i,
    {
        i = i - 1;
        let e = &entries[i];
        proof {
            assert(ev.subrange(0, i as int + 1).last() == ev[i as int]);
            assert(ev.subrange(0, i as int + 1).drop_last() =~= ev.subrange(0, i as int));
            assert(ev[i as int] == entries@[i as int]@);
        }
        match find_eq(e) {
            Some(p) => {
                let k = copy_range(e, 0, p);
                if bytes_eq(k.as_slice(), key.as_slice()) {
                    proof {
                        assert(entry_key(ev[i as int]) == Some(key@));
                        assert(txt_lookup(ev.subrange(0, i as int + 1), key@)
                            == Some(entry_val(ev[i as int])));
                    }
                    let elen = e.len();
                    let v = copy_range(e, p + 1, elen);
                    proof {
                        assert(v@ == entry_val(ev[i as int]));
                    }
                    return Some(v);
                }
                proof {
                    assert(entry_key(ev[i as int]) != Some(key@));
                }
            },
            None => {
                proof {
                    assert(entry_key(ev[i as int]) is None);
                }
            },
        }
    }
    proof {
        assert(ev.subrange(0, 0) =~= Seq::<Seq<u8>>::empty());
    }
    None
}

/// An advertisement's entries name a parseable peer id.
pub open spec fn leader_parse_ok(entries: Seq<Seq<u8>>) -> bool {
    txt_lookup(entries, key_peer_id()) matches Some(v) && spec_parse_uuid(v) is Some
}

/// The peer id an advertisement names.
pub open spec fn parsed_leader_id(entries: Seq<Seq<u8>>) -> u128 {
    spec_parse_uuid(txt_lookup(entries, key_peer_id())->0)->0
}

/// The display name an advertisement carries: the decoded value, or
/// "Unknown" when absent or undecodable.
pub open spec fn display_name_matches(entries: Seq<Seq<u8>>, name: Seq<char>) -> bool {
    match txt_lookup(entries, key_display_name()) {
        Some(v) => {
            &&& (exists|cs: Seq<char>| encode_utf8(cs) == v) ==> encode_utf8(name) == v
            &&& !(exists|cs: Seq<char>| encode_utf8(cs) == v) ==> name == "Unknown"@
        },
        None => name == "Unknown"@,
    }
}

/// The peer type an advertisement carries; anything but "controller" reads
/// as a display.
pub open spec fn spec_peer_type_of(entries: Seq<Seq<u8>>) -> PeerType {
    match txt_lookup(entries, key_peer_type()) {
        Some(v) => if v == val_controller() {
            PeerType::Controller
        } else {
            PeerType::Display
        },
        None => PeerType::Display,
    }
}

/// The advertised device score; 1 when absent or unreadable.
pub open spec fn spec_priority_type_of(entries: Seq<Seq<u8>>) -> u8 {
    match txt_lookup(entries, key_priority_type()) {
        Some(v) => if all_dec_digits(v) && dec_val(v) <= u8::MAX {
            dec_val(v) as u8
        } else {
            1
        },
        None => 1,
    }
}

/// The advertised startup time; 0 when absent or unreadable.
pub open spec fn spec_priority_time_of(entries: Seq<Seq<u8>>) -> u64 {
    match txt_lookup(entries, key_priority_time()) {
        Some(v) => if all_dec_digits(v) && dec_val(v) <= u64::MAX {
            dec_val(v) as u64
        } else {
            0
        },
        None => 0,
    }
}

/// All fields of a discovered leader against the advertisement it came
/// from.
pub open spec fn leader_matches(entries: Seq<Seq<u8>>, d: DiscoveredLeaderView) -> bool {
    &&& leader_parse_ok(entries)
    &&& d.peer_id == parsed_leader_id(entries)
    &&& display_name_matches(entries, d.display_name)
    &&& d.peer_type == spec_peer_type_of(entries)
    &&& d.priority.0 == spec_priority_type_of(entries)
    &&& d.priority.1 == spec_priority_time_of(entries)
}

/// Parse one advertisement's "key=value" entries into a leader candidate.
/// Succeeds exactly when a parseable peer id is present; every other field
/// falls back to its default.
pub fn parse_leader_from_txt(entries: &Vec<Vec<u8>>) -> (r: Option<DiscoveredLeader>)
    ensures
        r is Some <==> leader_parse_ok(entries.deep_view()),
        r matches Some(d) ==> leader_matches(entries.deep_view(), d@),
{
    let key = key_peer_id_bytes();
    let peer_id = match txt_lookup_exec(entries, &key) {
        Some(v) => {
            match parse_uuid(v.as_slice()) {
                Some(id) => id,
                None => {
                    return None;
                },
            }
        },
        None => {
            return None;
        },
    };

    let key = key_display_name_bytes();
    let display_name = match txt_lookup_exec(entries, &key) {
        Some(v) => {
            match utf8_to_string(v) {
                Some(s) => s,
                None => String::from_str("Unknown"),
            }
        },
        None => String::from_str("Unknown"),
    };

    let key = key_peer_type_bytes();
    let ctrl = val_controller_bytes();
    let peer_type = match txt_lookup_exec(entries, &key) {
        Some(v) => {
            if bytes_eq(v.as_slice(), ctrl.as_slice()) {
                PeerType::Controller
            } else {
                PeerType::Display
            }
        },
        None => PeerType::Display,
    };

    let key = key_priority_type_bytes();
    let priority_type: u8 = match txt_lookup_exec(entries, &key) {
        Some(v) => {
            match parse_u8_dec(v.as_slice()) {
                Some(x) => x,
                None => 1,
            }
        },
        None => 1,
    };

    let key = key_priority_time_bytes();
    let priority_time: u64 = match txt_lookup_exec(entries, &key) {
        Some(v) => {
            match parse_u64_dec(v.as_slice()) {
                Some(x) => x,
                None => 0,
            }
        },
        None => 0,
    };

    Some(DiscoveredLeader {
        peer_id,
        display_name,
        peer_type,
        priority: (priority_type, priority_time),
    })
}

/// A snapshot has pairwise distinct peer ids.
pub open spec fn leaders_distinct(r: Seq<DiscoveredLeader>) -> bool {
    forall|i: int, j: int| 0 <= i < j < r.len()
        ==> (#[trigger] r[i]).peer_id != (#[trigger] r[j]).peer_id
}

/// Every snapshot entry comes from one of the events.
pub open spec fn sound_snapshot(ev: Seq<Seq<Seq<u8>>>, r: Seq<DiscoveredLeader>) -> bool {
    forall|k: int| 0 <= k < r.len() ==> exists|n: int|
        0 <= n < ev.len() && leader_matches(#[trigger] ev[n], (#[trigger] r[k])@)
}

/// Every parseable event's peer id appears in the snapshot.
pub open spec fn complete_snapshot(ev: Seq<Seq<Seq<u8>>>, r: Seq<DiscoveredLeader>) -> bool {
    forall|n: int| 0 <= n < ev.len() && leader_parse_ok(#[trigger] ev[n]) ==> exists|k: int|
        0 <= k < r.len() && (#[trigger] r[k]).peer_id == parsed_leader_id(ev[n])
}

/// Collect one browse window's advertisement events into a deduplicated
/// snapshot: each event's entries are parsed, the first advertisement of
/// each peer id wins, and no event ever fails the collection. Zero events
/// give an empty snapshot.
pub fn collect_leaders(events: &Vec<Vec<Vec<u8>>>) -> (r: Vec<DiscoveredLeader>)
    ensures
        events@.len() == 0 ==> r@.len() == 0,
        leaders_distinct(r@),
        sound_snapshot(events.deep_view(), r@),
        complete_snapshot(events.deep_view(), r@),
{
    let ghost ev = events.deep_view();
    let mut leaders: Vec<DiscoveredLeader> = Vec::new();
    let mut i: usize = 0;
    proof {
        assert(ev.len() == events@.len());
        assert(ev.subrange(0, 0) =~= Seq::<Seq<Seq<u8>>>::empty());
    }
    while i < events.len()
        invariant
            0 <= i <= events@.len(),
            ev == events.deep_view(),
            ev.len() == events@.len(),
            leaders@.len() <= i,
            leaders_distinct(leaders@),
            sound_snapshot(ev, leaders@),
            complete_snapshot(ev.subrange(0, i as int), leaders@),
        decreases events@.len() - i,
    {
        proof {
            assert(ev[i as int] == events@[i as int].deep_view());
        }
        let parsed = parse_leader_from_txt(&events[i]);
        let ghost old_leaders = leaders@;
        match parsed {
            Some(leader) => {
                let ghost lview = leader@;
                proof {
                    assert(leader_matches(ev[i as int], lview));
                    assert(lview.peer_id == parsed_leader_id(ev[i as int]));
                }
                let mut present = false;
                let mut k: usize = 0;
                while k < leaders.len()
                    invariant
                        0 <= k <= leaders@.len(),
                        present <==> exists|j: int| 0 <= j < k
                            && (#[trigger] leaders@[j]).peer_id == leader.peer_id,
                        leader@ == lview,
                    decreases leaders@.len() - k,
                {
                    if leaders[k].peer_id == leader.peer_id {
                        present = true;
                    }
                    k = k + 1;
                }
                if !present {
                    leaders.push(leader);
                    proof {
                        assert(leaders@.last()@ == lview);
                        assert forall|k2: int, j2: int| 0 <= k2 < j2 < leaders@.len()
                            implies (#[trigger] leaders@[k2]).peer_id
                                != (#[trigger] leaders@[j2]).peer_id by {
                            if j2 == leaders@.len() - 1 {
                                assert(old_leaders[k2].peer_id != lview.peer_id);
                            }
                        }
                        assert forall|k2: int| 0 <= k2 < leaders@.len() implies exists|n: int|
                            0 <= n < ev.len() && leader_matches(#[trigger] ev[n],
                                (#[trigger] leaders@[k2])@) by {
                            if k2 == leaders@.len() - 1 {
                                assert(leader_matches(ev[i as int], leaders@[k2]@));
                            } else {
                                assert(exists|n: int| 0 <= n < ev.len() && leader_matches(
                                    #[trigger] ev[n], (old_leaders[k2])@));
                                let n = choose|n: int|
                                    0 <= n < ev.len() && leader_matches(#[trigger] ev[n],
                                        (old_leaders[k2])@);
                                assert(leader_matches(ev[n], leaders@[k2]@));
                            }
                        }
                    }
                }
                proof {
                    assert(exists|k2: int| 0 <= k2 < leaders@.len()
                        && (#[trigger] leaders@[k2]).peer_id == parsed_leader_id(ev[i as int]))
                        by {
                        if present {
                            let j = choose|j: int| 0 <= j < old_leaders.len()
                                && (#[trigger] old_leaders[j]).peer_id == lview.peer_id;
                            assert(leaders@[j].peer_id == parsed_leader_id(ev[i as int]));
                        } else {
                            assert(leaders@[leaders@.len() - 1].peer_id
                                == parsed_leader_id(ev[i as int]));
                        }
                    }
                    assert forall|n: int| 0 <= n < ev.subrange(0, i as int + 1).len()
                        && leader_parse_ok(#[trigger] ev.subrange(0, i as int + 1)[n])
                        implies exists|k2: int| 0 <= k2 < leaders@.len()
                            && (#[trigger] leaders@[k2]).peer_id == parsed_leader_id(
                            ev.subrange(0, i as int + 1)[n]) by {
                        assert(ev.subrange(0, i as int + 1)[n] == ev[n]);
                        if n < i {
                            assert(ev.subrange(0, i as int)[n] == ev[n]);
                            assert(leader_parse_ok(ev.subrange(0, i as int)[n]));
                            let k2 = choose|k2: int|
                                0 <= k2 < old_leaders.len() && (#[trigger] old_leaders[k2]).peer_id
                                    == parsed_leader_id(ev.subrange(0, i as int)[n]);
                            assert(leaders@[k2].peer_id == parsed_leader_id(ev[n]));
                        }
                    }
                }
            },
            None => {
                proof {
                    assert(!leader_parse_ok(ev[i as int]));
                    assert forall|n: int| 0 <= n < ev.subrange(0, i as int + 1).len()
                        && leader_parse_ok(#[trigger] ev.subrange(0, i as int + 1)[n])
                        implies exists|k2: int| 0 <= k2 < leaders@.len()
                            && (#[trigger] leaders@[k2]).peer_id == parsed_leader_id(
                            ev.subrange(0, i as int + 1)[n]) by {
                        assert(ev.subrange(0, i as int + 1)[n] == ev[n]);
                        assert(n < i);
                        assert(ev.subrange(0, i as int)[n] == ev[n]);
                        assert(leader_parse_ok(ev.subrange(0, i as int)[n]));
                        let k2 = choose|k2: int|
                            0 <= k2 < leaders@.len() && (#[trigger] leaders@[k2]).peer_id
                                == parsed_leader_id(ev.subrange(0, i as int)[n]);
                        assert(leaders@[k2].peer_id == parsed_leader_id(ev[n]));
                    }
                }
            },
        }
        i = i + 1;
    }
    proof {
        assert(ev.subrange(0, i as int) =~= ev);
    }
    leaders
}

/// An ASCII lowercase hex digit for a nibble.
pub open spec fn hex_digit_char(v: u8) -> u8 {
    if v < 10 {
        (0x30 + v) as u8
    } else {
        (0x61 + v - 10) as u8
    }
}

/// The last `k` nibbles of a number, as lowercase hex, most significant
/// first.
pub open spec fn hex_fixed_bytes(n: u128, k: nat) -> Seq<u8>
    decreases k,
{
    if k == 0 {
        Seq::empty()
    } else {
        hex_fixed_bytes(n / 16, (k - 1) as nat).push(hex_digit_char((n % 16) as u8))
    }
}

/// Fixed-width hex renderings hold hex digits only.
pub proof fn lemma_hex_fixed_digits(n: u128, k: nat)
    ensures
        hex_fixed_bytes(n, k).len() == k,
        forall|i: int| 0 <= i < k ==> is_hex_digit(#[trigger] hex_fixed_bytes(n, k)[i]),
    decreases k,
{
    if k > 0 {
        lemma_hex_fixed_digits(n / 16, (k - 1) as nat);
        let d = hex_fixed_bytes(n, k);
        assert forall|i: int| 0 <= i < k implies is_hex_digit(#[trigger] d[i]) by {
            if i < k - 1 {
                assert(d[i] == hex_fixed_bytes(n / 16, (k - 1) as nat)[i]);
            } else {
                assert(d[i] == hex_digit_char((n % 16) as u8));
            }
        }
    }
}

/// Reading a fixed-width hex rendering back gives the number, modulo the
/// width.
pub proof fn lemma_hex_fixed_round_trip(n: u128, k: nat)
    ensures
        hex_val_of(hex_fixed_bytes(n, k)) == (n as nat) % pow16(k),
    decreases k,
{
    if k == 0 {
        assert(pow16(0) == 1);
    } else {
        lemma_hex_fixed_round_trip(n / 16, (k - 1) as nat);
        let v = (n % 16) as u8;
        assert(hex_digit_val(hex_digit_char(v)) == v);
        let p = pow16((k - 1) as nat);
        lemma_pow16_le(0, (k - 1) as nat);
        assert(p >= 1);
        assert(pow16(k) == 16 * p);
        let nn = n as int;
        let pp = p as int;
        let q = (nn / 16) / pp;
        let r = (nn / 16) % pp;
        vstd::arithmetic::div_mod::lemma_fundamental_div_mod(nn / 16, pp);
        vstd::arithmetic::div_mod::lemma_fundamental_div_mod(nn, 16);
        vstd::arithmetic::div_mod::lemma_mod_division_less_than_divisor(nn / 16, pp);
        assert(nn == q * (16 * pp) + (r * 16 + nn % 16)) by (nonlinear_arith)
            requires
                nn == 16 * (nn / 16) + nn % 16,
                nn / 16 == pp * q + r,
        {
        }
        assert(0 <= r * 16 + nn % 16 < 16 * pp) by (nonlinear_arith)
            requires
                0 <= r < pp,
                0 <= nn % 16 < 16,
        {
        }
        vstd::arithmetic::div_mod::lemma_fundamental_div_mod_converse_mod(
            nn, 16 * pp, q, r * 16 + nn % 16);
        assert((n as nat) % (16 * p) == ((n / 16) as nat % p) * 16 + (n as nat) % 16);
        assert(hex_fixed_bytes(n, k).drop_last() =~= hex_fixed_bytes(n / 16, (k - 1) as nat));
        assert(hex_fixed_bytes(n, k).last() == hex_digit_char((n % 16) as u8));
        assert(hex_val_of(hex_fixed_bytes(n, k)) == hex_val_of(hex_fixed_bytes(
            n / 16, (k - 1) as nat)) * 16 + v as nat);
    }
}

/// The canonical hyphenated text of a 128-bit identifier, as bytes.
pub open spec fn uuid_text_bytes(id: u128) -> Seq<u8> {
    let d = hex_fixed_bytes(id, 32);
    d.subrange(0, 8) + seq![0x2Du8] + d.subrange(8, 12) + seq![0x2Du8] + d.subrange(12, 16)
        + seq![0x2Du8] + d.subrange(16, 20) + seq![0x2Du8] + d.subrange(20, 32)
}

/// The canonical text of an identifier is 36 ASCII bytes and parses back
/// to exactly that identifier.
pub proof fn lemma_uuid_text_parses_back(id: u128)
    ensures
        uuid_text_bytes(id).len() == 36,
        forall|j: int| 0 <= j < 36 ==> #[trigger] uuid_text_bytes(id)[j] < 128,
        spec_parse_uuid(uuid_text_bytes(id)) == Some(id),
{
    let d = hex_fixed_bytes(id, 32);
    let text = uuid_text_bytes(id);
    lemma_hex_fixed_digits(id, 32);
    lemma_hex_fixed_round_trip(id, 32);
    lemma_pow16_32();
    assert(text.len() == 36);
    assert forall|j: int| 0 <= j < 32 implies text[uuid_digit_pos(j)] == d[j] by {
        if j < 8 {
        } else if j < 12 {
            assert(text[j + 1] == d.subrange(8, 12)[j - 8]);
        } else if j < 16 {
            assert(text[j + 2] == d.subrange(12, 16)[j - 12]);
        } else if j < 20 {
            assert(text[j + 3] == d.subrange(16, 20)[j - 16]);
        } else {
            assert(text[j + 4] == d.subrange(20, 32)[j - 20]);
        }
    }
    assert(uuid_hyphen_digits(text) =~= d);
    assert forall|j: int| 0 <= j < 32 implies is_hex_digit(#[trigger] text[uuid_digit_pos(j)]) by {
        assert(text[uuid_digit_pos(j)] == d[j]);
    }
    assert(text[8] == 0x2D && text[13] == 0x2D && text[18] == 0x2D && text[23] == 0x2D);
    assert(uuid_hyphen_ok(text));
    assert(!uuid_simple_ok(text));
    assert((id as nat) % pow16(32) == id as nat);
    assert(hex_val_of(uuid_hyphen_digits(text)) == id as nat);
    assert forall|j: int| 0 <= j < 36 implies #[trigger] text[j] < 128 by {
        if j == 8 || j == 13 || j == 18 || j == 23 {
        } else if j < 8 {
            assert(text[uuid_digit_pos(j)] == d[j]);
            assert(is_hex_digit(d[j]));
        } else if j < 13 {
            assert(text[uuid_digit_pos(j - 1)] == d[j - 1]);
            assert(is_hex_digit(d[j - 1]));
        } else if j < 18 {
            assert(text[uuid_digit_pos(j - 2)] == d[j - 2]);
            assert(is_hex_digit(d[j - 2]));
        } else if j < 23 {
            assert(text[uuid_digit_pos(j - 3)] == d[j - 3]);
            assert(is_hex_digit(d[j - 3]));
        } else {
            assert(text[uuid_digit_pos(j - 4)] == d[j - 4]);
            assert(is_hex_digit(d[j - 4]));
        }
    }
}

/// Render an identifier in the canonical hyphenated lowercase form. The
/// text parses back to exactly the identifier it came from.
pub fn uuid_text(id: u128) -> (r: String)
    ensures
        encode_utf8(r@) == uuid_text_bytes(id),
        spec_parse_uuid(uuid_text_bytes(id)) == Some(id),
{
    let mut digits: Vec<u8> = Vec::new();
    let mut m: u128 = id;
    let mut i: usize = 0;
    proof {
        assert(hex_fixed_bytes(id, 32) =~= hex_fixed_bytes(id, 32) + Seq::<u8>::empty());
    }
    while i < 32
        invariant
            0 <= i <= 32,
            hex_fixed_bytes(id, 32) == hex_fixed_bytes(m, (32 - i) as nat) + digits@,
            digits@.len() == i,
        decreases 32 - i,
    {
        let d: u8 = if (m % 16) < 10 {
            (m % 16) as u8 + 0x30
        } else {
            (m % 16) as u8 + 0x61 - 10
        };
        let ghost digits_old = digits@;
        let ghost m_old = m;
        digits.insert(0, d);
        m = m / 16;
        i = i + 1;
        proof {
            assert(d == hex_digit_char((m_old % 16) as u8));
            assert(digits@ =~= seq![d] + digits_old);
            assert(hex_fixed_bytes(m_old, (32 - (i - 1)) as nat)
                =~= hex_fixed_bytes(m, (32 - i) as nat) + seq![d]);
            assert(hex_fixed_bytes(m, (32 - i) as nat) + (seq![d] + digits_old)
                =~= (hex_fixed_bytes(m, (32 - i) as nat) + seq![d]) + digits_old);
        }
    }
    proof {
        assert(hex_fixed_bytes(m, 0) =~= Seq::<u8>::empty());
        assert(Seq::<u8>::empty() + digits@ =~= digits@);
        assert(digits@ == hex_fixed_bytes(id, 32));
    }

    let mut out: Vec<u8> = Vec::new();
    let mut k: usize = 0;
    while k < 32
        invariant
            0 <= k <= 32,
            digits@ == hex_fixed_bytes(id, 32),
            digits@.len() == 32,
            out@.len() == k + (if k > 20 { 4int } else if k > 16 { 3int } else if k > 12 {
                2int } else if k > 8 { 1int } else { 0int }),
            forall|j: int| 0 <= j < k ==> out@[uuid_digit_pos(j)] == digits@[j],
            k > 8 ==> out@[8] == 0x2D,
            k > 12 ==> out@[13] == 0x2D,
            k > 16 ==> out@[18] == 0x2D,
            k > 20 ==> out@[23] == 0x2D,
        decreases 32 - k,
    {
        if k == 8 || k == 12 || k == 16 || k == 20 {
            out.push(0x2D);
        }
        out.push(digits[k]);
        k = k + 1;
    }
    proof {
        lemma_hex_fixed_digits(id, 32);
        assert(out@ =~= uuid_text_bytes(id)) by {
            assert forall|j: int| 0 <= j < 36 implies out@[j] == uuid_text_bytes(id)[j] by {
                let d = hex_fixed_bytes(id, 32);
                if j == 8 || j == 13 || j == 18 || j == 23 {
                } else if j < 8 {
                    assert(out@[uuid_digit_pos(j)] == d[j]);
                } else if j < 13 {
                    assert(out@[uuid_digit_pos(j - 1)] == d[j - 1]);
                } else if j < 18 {
                    assert(out@[uuid_digit_pos(j - 2)] == d[j - 2]);
                } else if j < 23 {
                    assert(out@[uuid_digit_pos(j - 3)] == d[j - 3]);
                } else {
                    assert(out@[uuid_digit_pos(j - 4)] == d[j - 4]);
                }
            }
        }
        lemma_uuid_text_parses_back(id);
    }
    match utf8_to_string(out) {
        Some(s) => s,
        None => {
            proof {
                assert(false);
            }
            String::new()
        },
    }
}

/// Discovery service: remembers the announced local peer and turns one
/// browse window's advertisement events into a candidate snapshot. The
/// multicast session itself runs outside this crate; its events are handed
/// in as data.
pub struct DiscoveryService {
    pub self_peer: Option<Peer>,
}

impl DiscoveryService {
    pub fn new() -> (r: Self)
        ensures
            r.self_peer is None,
    {
        DiscoveryService { self_peer: None }
    }

    /// Record the local peer as the announced leader candidate. Best-effort:
    /// publication failures outside this crate are non-fatal and do not
    /// change this state.
    pub fn announce(&mut self, peer: &Peer)
        ensures
            final(self).self_peer matches Some(p) && p@ == peer@,
    {
        self.self_peer = Some(peer.clone());
    }

    /// Browse for existing leaders: turn the advertisement events gathered
    /// in one bounded listen window into a deduplicated candidate snapshot.
    /// Zero events are a valid outcome and give an empty snapshot; nothing
    /// here can fail.
    pub fn browse_for_leaders(&self, events: &Vec<Vec<Vec<u8>>>) -> (r: Vec<DiscoveredLeader>)
        ensures
            events@.len() == 0 ==> r@.len() == 0,
            leaders_distinct(r@),
            sound_snapshot(events.deep_view(), r@),
            complete_snapshot(events.deep_view(), r@),
    {
        collect_leaders(events)
    }

    /// Forget the announced peer.
    pub fn stop_announcing(&mut self)
        ensures
            final(self).self_peer is None,
    {
        self.self_peer = None;
    }
}

} // verus!
