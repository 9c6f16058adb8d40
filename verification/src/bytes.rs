//! Byte-level helpers shared by the wire and metadata parsers: decimal
//! rendering and parsing, hex digits, and the bridge from checked bytes to
//! `String`.

use vstd::prelude::*;
use vstd::utf8::encode_utf8;

verus! {

/// An ASCII decimal digit.
pub open spec fn is_dec_digit(b: u8) -> bool {
    0x30 <= b <= 0x39
}

/// An ASCII hex digit, either case.
pub open spec fn is_hex_digit(b: u8) -> bool {
    ||| 0x30 <= b <= 0x39
    ||| 0x41 <= b <= 0x46
    ||| 0x61 <= b <= 0x66
}

/// The value of an ASCII hex digit.
pub open spec fn hex_digit_val(b: u8) -> u8 {
    if 0x30 <= b <= 0x39 {
        (b - 0x30) as u8
    } else if 0x41 <= b <= 0x46 {
        (b - 0x41 + 10) as u8
    } else {
        (b - 0x61 + 10) as u8
    }
}

/// The decimal rendering of a number, most significant digit first.
pub open spec fn dec_bytes(n: nat) -> Seq<u8>
    decreases n,
{
    if n < 10 {
        seq![(0x30 + n) as u8]
    } else {
        dec_bytes(n / 10).push((0x30 + n % 10) as u8)
    }
}

/// The numeric value of a digit sequence, most significant digit first.
pub open spec fn dec_val(s: Seq<u8>) -> nat
    decreases s.len(),
{
    if s.len() == 0 {
        0
    } else {
        dec_val(s.drop_last()) * 10 + (s.last() - 0x30) as nat
    }
}

/// A nonempty, all-digit sequence.
pub open spec fn all_dec_digits(s: Seq<u8>) -> bool {
    s.len() > 0 && forall|i: int| 0 <= i < s.len() ==> is_dec_digit(#[trigger] s[i])
}

/// Extending a digit sequence never lowers its value.
pub proof fn lemma_dec_val_prefix_le(s: Seq<u8>, i: int)
    requires
        0 <= i <= s.len(),
    ensures
        dec_val(s.subrange(0, i)) <= dec_val(s),
    decreases s.len() - i,
{
    if i < s.len() {
        lemma_dec_val_prefix_le(s.drop_last(), i);
        assert(s.drop_last().subrange(0, i) =~= s.subrange(0, i));
    } else {
        assert(s.subrange(0, i) =~= s);
    }
}

/// Render a number in decimal, matching `dec_bytes`.
pub fn u64_to_dec(n: u64) -> (r: Vec<u8>)
    ensures
        r@ == dec_bytes(n as nat),
{
    let mut acc: Vec<u8> = Vec::new();
    let mut m: u64 = n;
    proof {
        assert(dec_bytes(n as nat) =~= dec_bytes(n as nat) + Seq::<u8>::empty());
    }
    while m > 0
        invariant
            m > 0 ==> dec_bytes(n as nat) == dec_bytes(m as nat) + acc@,
            m == 0 && acc@.len() > 0 ==> dec_bytes(n as nat) == acc@,
            m == 0 ==> (acc@.len() > 0 || n == 0),
        decreases m,
    {
        let d: u8 = (m % 10) as u8 + 0x30;
        let ghost acc_old = acc@;
        let ghost m_old = m as nat;
        acc.insert(0, d);
        m = m / 10;
        proof {
            assert(acc@ =~= seq![d] + acc_old);
            if m_old >= 10 {
                assert(dec_bytes(m_old) =~= dec_bytes(m_old / 10) + seq![d]);
                assert(dec_bytes(m_old / 10) + (seq![d] + acc_old)
                    =~= (dec_bytes(m_old / 10) + seq![d]) + acc_old);
                assert(dec_bytes(n as nat) == dec_bytes(m as nat) + acc@);
            } else {
                assert(dec_bytes(m_old) =~= seq![d]);
                assert(dec_bytes(n as nat) == acc@);
            }
        }
    }
    if acc.len() == 0 {
        acc.push(0x30);
        proof {
            assert(acc@ =~= dec_bytes(0));
        }
    }
    acc
}

/// Parse a decimal number: succeeds on a nonempty all-digit sequence whose
/// value fits in a `u64`, and on nothing else.
pub fn parse_u64_dec(s: &[u8]) -> (r: Option<u64>)
    ensures
        r matches Some(v) ==> all_dec_digits(s@) && v as nat == dec_val(s@),
        r is None ==> !all_dec_digits(s@) || dec_val(s@) > u64::MAX,
{
    if s.len() == 0 {
        return None;
    }
    let mut acc: u64 = 0;
    let mut i: usize = 0;
    while i < s.len()
        invariant
            0 <= i <= s@.len(),
            s@.len() > 0,
            forall|j: int| 0 <= j < i ==> is_dec_digit(#[trigger] s@[j]),
            acc as nat == dec_val(s@.subrange(0, i as int)),
        decreases s@.len() - i,
    {
        let b = s[i];
        if !(0x30 <= b && b <= 0x39) {
            return None;
        }
        let d: u64 = (b - 0x30) as u64;
        proof {
            assert(s@.subrange(0, i as int + 1).drop_last() =~= s@.subrange(0, i as int));
            assert(s@.subrange(0, i as int + 1).last() == s@[i as int]);
        }
        if acc > (u64::MAX - d) / 10 {
            proof {
                assert(acc * 10 + d > u64::MAX) by (nonlinear_arith)
                    requires
                        acc > (u64::MAX - d) / 10,
                        d < 10,
                {
                }
                lemma_dec_val_prefix_le(s@, i as int + 1);
            }
            return None;
        }
        proof {
            assert(acc * 10 + d <= u64::MAX) by (nonlinear_arith)
                requires
                    acc <= (u64::MAX - d) / 10,
                    d < 10,
            {
            }
        }
        acc = acc * 10 + d;
        i = i + 1;
    }
    proof {
        assert(s@.subrange(0, s@.len() as int) =~= s@);
    }
    Some(acc)
}

/// Parse a decimal number into a `u8`: succeeds exactly when the digits'
/// value fits.
pub fn parse_u8_dec(s: &[u8]) -> (r: Option<u8>)
    ensures
        r matches Some(v) ==> all_dec_digits(s@) && v as nat == dec_val(s@),
        r is None ==> !all_dec_digits(s@) || dec_val(s@) > u8::MAX,
{
    match parse_u64_dec(s) {
        Some(v) => {
            if v <= 255 {
                Some(v as u8)
            } else {
                None
            }
        },
        None => None,
    }
}

/// Whether two byte slices hold the same bytes.
pub fn bytes_eq(a: &[u8], b: &[u8]) -> (r: bool)
    ensures
        r == (a@ == b@),
{
    if a.len() != b.len() {
        proof {
            assert(a@.len() != b@.len());
        }
        return false;
    }
    let mut i: usize = 0;
    while i < a.len()
        invariant
            0 <= i <= a@.len(),
            a@.len() == b@.len(),
            forall|j: int| 0 <= j < i ==> a@[j] == b@[j],
        decreases a@.len() - i,
    {
        if a[i] != b[i] {
            return false;
        }
        i = i + 1;
    }
    proof {
        assert(a@ =~= b@);
    }
    true
}

/// ASCII whitespace trimmed from text fields.
pub open spec fn is_ascii_ws(b: u8) -> bool {
    b == 0x20 || b == 0x09 || b == 0x0A || b == 0x0B || b == 0x0C || b == 0x0D
}

/// Drop leading whitespace.
pub open spec fn trim_start(s: Seq<u8>) -> Seq<u8>
    decreases s.len(),
{
    if s.len() > 0 && is_ascii_ws(s.first()) {
        trim_start(s.drop_first())
    } else {
        s
    }
}

/// Drop trailing whitespace.
pub open spec fn trim_end(s: Seq<u8>) -> Seq<u8>
    decreases s.len(),
{
    if s.len() > 0 && is_ascii_ws(s.last()) {
        trim_end(s.drop_last())
    } else {
        s
    }
}

/// Drop whitespace at both ends.
pub open spec fn trim_bytes(s: Seq<u8>) -> Seq<u8> {
    trim_end(trim_start(s))
}

/// Trim ASCII whitespace at both ends of a byte vector.
pub fn trim_vec(v: &Vec<u8>) -> (r: Vec<u8>)
    ensures
        r@ == trim_bytes(v@),
{
    let vlen: usize = v.len();
    let mut start: usize = 0;
    let mut done_start: bool = false;
    proof {
        assert(v@.subrange(0, vlen as int) =~= v@);
    }
    while start < vlen && !done_start
        invariant
            0 <= start <= vlen,
            vlen == v@.len(),
            trim_start(v@) == trim_start(v@.subrange(start as int, vlen as int)),
            done_start ==> !is_ascii_ws(v@[start as int]) && start < vlen,
        decreases vlen - start + (if done_start { 0int } else { 1int }),
    {
        let b = v[start];
        if b == 0x20 || b == 0x09 || b == 0x0A || b == 0x0B || b == 0x0C || b == 0x0D {
            proof {
                assert(v@.subrange(start as int, vlen as int).drop_first()
                    =~= v@.subrange(start as int + 1, vlen as int));
            }
            start = start + 1;
        } else {
            done_start = true;
        }
    }
    proof {
        let tail = v@.subrange(start as int, vlen as int);
        if start < vlen {
            assert(tail.first() == v@[start as int]);
        }
        assert(trim_start(tail) == tail);
        assert(trim_start(v@) == v@.subrange(start as int, vlen as int));
    }
    let mut end: usize = vlen;
    let mut done_end: bool = false;
    proof {
        assert(trim_end(v@.subrange(start as int, end as int)) == trim_end(trim_start(v@)));
    }
    while end > start && !done_end
        invariant
            0 <= start <= end <= vlen,
            vlen == v@.len(),
            trim_end(v@.subrange(start as int, end as int)) == trim_bytes(v@),
            done_end ==> end > start && !is_ascii_ws(v@[end - 1]),
        decreases end - start + (if done_end { 0int } else { 1int }),
    {
        let b = v[end - 1];
        if b == 0x20 || b == 0x09 || b == 0x0A || b == 0x0B || b == 0x0C || b == 0x0D {
            proof {
                assert(v@.subrange(start as int, end as int).drop_last()
                    =~= v@.subrange(start as int, end as int - 1));
            }
            end = end - 1;
        } else {
            done_end = true;
        }
    }
    proof {
        let mid = v@.subrange(start as int, end as int);
        if end > start {
            assert(mid.last() == v@[end - 1]);
        }
        assert(trim_end(mid) == mid);
        assert(mid == trim_bytes(v@));
    }
    let mut out: Vec<u8> = Vec::new();
    let mut i: usize = start;
    while i < end
        invariant
            start <= i <= end <= v@.len(),
            out@ == v@.subrange(start as int, i as int),
        decreases end - i,
    {
        proof {
            assert(v@.subrange(start as int, i as int + 1)
                =~= v@.subrange(start as int, i as int).push(v@[i as int]));
        }
        out.push(v[i]);
        i = i + 1;
    }
    proof {
        assert(out@ == trim_bytes(v@));
    }
    out
}

/// Relies on String::from_utf8: it succeeds exactly on valid UTF-8, the
/// decoded characters re-encode to the input bytes, and ASCII bytes decode
/// one character per byte.
#[verifier::external_body]
pub fn utf8_to_string(bytes: Vec<u8>) -> (r: Option<String>)
    ensures
        r matches Some(s) ==> encode_utf8(s@) == bytes@,
        r is None ==> !(exists|cs: Seq<char>| encode_utf8(cs) == bytes@),
        r is None ==> exists|i: int| 0 <= i < bytes@.len() && bytes@[i] >= 128,
        r matches Some(s) ==> ((forall|i: int| 0 <= i < bytes@.len() ==> bytes@[i] < 128)
            ==> s@.len() == bytes@.len()
                && (forall|i: int| 0 <= i < bytes@.len() ==> s@[i] == bytes@[i] as char)),
{
    match String::from_utf8(bytes) {
        Ok(s) => Some(s),
        Err(_) => None,
    }
}

/// The bytes of a string slice, as a vector.
pub fn str_bytes(s: &str) -> (r: Vec<u8>)
    ensures
        r@ == encode_utf8(s@),
{
    s.as_bytes_vec()
}

} // verus!
