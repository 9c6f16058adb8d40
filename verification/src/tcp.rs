//! TCP point-to-point transport: the message vocabulary, the 4-byte
//! big-endian length framing with its sanity ceilings, and the connection
//! registry with the duplex-loop decisions. The sockets themselves run
//! outside this crate; every frame and registry decision is made here.

use vstd::prelude::*;
use vstd::string::{StringExecFns, StrSliceExecFns};
use vstd::utf8::encode_utf8;
use crate::types::PeerInfo;

verus! {

/// Messages exchanged over the direct transport.
#[derive(Debug)]
pub enum TcpMessage {
    /// Register this connection with a peer id; must be the first frame.
    Register { peer_id: u128 },
    /// Data payload.
    Data { message: String },
    /// Keepalive.
    Ping,
    /// Keepalive response.
    Pong,
}

impl Clone for TcpMessage {
    fn clone(&self) -> (res: Self)
        ensures
            match self {
                TcpMessage::Register { peer_id } => res matches TcpMessage::Register {
                    peer_id: p } && p == peer_id,
                TcpMessage::Data { message } => res matches TcpMessage::Data { message: m }
                    && m@ == message@,
                TcpMessage::Ping => res is Ping,
                TcpMessage::Pong => res is Pong,
            },
    {
        match self {
            TcpMessage::Register { peer_id } => TcpMessage::Register { peer_id: *peer_id },
            TcpMessage::Data { message } => TcpMessage::Data { message: message.clone() },
            TcpMessage::Ping => TcpMessage::Ping,
            TcpMessage::Pong => TcpMessage::Pong,
        }
    }
}

/// Ceiling on the first (registration) frame of a connection.
pub const REGISTER_FRAME_LIMIT: u32 = 10000;

/// Ceiling on any later frame; a larger declared length ends the connection.
pub const DATA_FRAME_LIMIT: u32 = 10_000_000;

/// The four big-endian bytes of a 32-bit length.
pub open spec fn be32_bytes(n: u32) -> Seq<u8> {
    seq![
        (n / 0x1000000) as u8,
        ((n / 0x10000) % 256) as u8,
        ((n / 256) % 256) as u8,
        (n % 256) as u8,
    ]
}

/// The value of four big-endian bytes.
pub open spec fn be32_val(s: Seq<u8>) -> int {
    s[0] * 0x1000000 + s[1] * 0x10000 + s[2] * 256 + s[3]
}

/// A 32-bit length survives the trip through its big-endian bytes.
pub proof fn lemma_be32_round_trip(n: u32)
    ensures
        be32_val(be32_bytes(n)) == n,
{
}

/// Frame a payload: the 4-byte big-endian length, then the payload bytes.
pub fn encode_frame(payload: &[u8]) -> (r: Vec<u8>)
    requires
        payload@.len() <= 0xFFFF_FFFF,
    ensures
        r@ == be32_bytes(payload@.len() as u32) + payload@,
{
    let len: u32 = payload.len() as u32;
    let mut out: Vec<u8> = Vec::new();
    out.push((len / 0x1000000) as u8);
    out.push(((len / 0x10000) % 256) as u8);
    out.push(((len / 256) % 256) as u8);
    out.push((len % 256) as u8);
    let mut i: usize = 0;
    while i < payload.len()
        invariant
            0 <= i <= payload@.len(),
            out@ == be32_bytes(payload@.len() as u32) + payload@.subrange(0, i as int),
        decreases payload@.len() - i,
    {
        proof {
            assert((be32_bytes(payload@.len() as u32) + payload@.subrange(0, i as int)).push(
                payload@[i as int]) =~= be32_bytes(payload@.len() as u32) + payload@.subrange(
                0, i as int + 1));
        }
        out.push(payload[i]);
        i = i + 1;
    }
    proof {
        assert(payload@.subrange(0, payload@.len() as int) =~= payload@);
    }
    out
}

/// Read a frame's declared length from its 4 header bytes.
pub fn parse_frame_len(header: &[u8]) -> (r: u32)
    requires
        header@.len() == 4,
    ensures
        r == be32_val(header@),
{
    (header[0] as u32) * 0x1000000 + (header[1] as u32) * 0x10000 + (header[2] as u32) * 256
        + (header[3] as u32)
}

/// A framed payload parses back to its own length and bytes.
pub proof fn lemma_frame_round_trip(payload: Seq<u8>)
    requires
        payload.len() <= 0xFFFF_FFFF,
    ensures
        ({
            let f = be32_bytes(payload.len() as u32) + payload;
            &&& f.len() == payload.len() + 4
            &&& be32_val(f.subrange(0, 4)) == payload.len()
            &&& f.subrange(4, f.len() as int) == payload
        }),
{
    let f = be32_bytes(payload.len() as u32) + payload;
    lemma_be32_round_trip(payload.len() as u32);
    assert(f.subrange(0, 4) =~= be32_bytes(payload.len() as u32));
    assert(f.subrange(4, f.len() as int) =~= payload);
}


/// One byte of a JSON string body: quotes and backslashes are escaped,
/// control bytes become a \u escape, everything else passes through.
pub open spec fn json_escaped_byte(b: u8) -> Seq<u8> {
    if b == 0x22 {
        seq![0x5Cu8, 0x22u8]
    } else if b == 0x5C {
        seq![0x5Cu8, 0x5Cu8]
    } else if b < 0x20 {
        seq![0x5Cu8, 0x75u8, 0x30u8, 0x30u8, json_hex_char((b / 16) as u8), json_hex_char((b % 16) as u8)]
    } else {
        seq![b]
    }
}

/// A lowercase hex digit for an escape.
pub open spec fn json_hex_char(v: u8) -> u8 {
    if v < 10 {
        (0x30 + v) as u8
    } else {
        (0x61 + v - 10) as u8
    }
}

/// A byte text escaped for a JSON string body.
pub open spec fn json_escaped(s: Seq<u8>) -> Seq<u8>
    decreases s.len(),
{
    if s.len() == 0 {
        Seq::empty()
    } else {
        json_escaped(s.drop_last()) + json_escaped_byte(s.last())
    }
}

/// The opening bytes of a registration body.
pub open spec fn register_json_prefix() -> Seq<u8> {
    seq![0x7Bu8, 0x22u8, 0x52u8, 0x65u8, 0x67u8, 0x69u8, 0x73u8, 0x74u8, 0x65u8, 0x72u8, 0x22u8, 0x3Au8, 0x7Bu8, 0x22u8, 0x70u8, 0x65u8, 0x65u8, 0x72u8, 0x5Fu8, 0x69u8, 0x64u8, 0x22u8, 0x3Au8, 0x22u8]
}

/// The opening bytes of a data body.
pub open spec fn data_json_prefix() -> Seq<u8> {
    seq![0x7Bu8, 0x22u8, 0x44u8, 0x61u8, 0x74u8, 0x61u8, 0x22u8, 0x3Au8, 0x7Bu8, 0x22u8, 0x6Du8, 0x65u8, 0x73u8, 0x73u8, 0x61u8, 0x67u8, 0x65u8, 0x22u8, 0x3Au8, 0x22u8]
}

/// The JSON body of a registration frame.
pub open spec fn tcp_register_json(peer_id: u128) -> Seq<u8> {
    register_json_prefix() + crate::discovery::uuid_text_bytes(peer_id)
        + seq![0x22u8, 0x7Du8, 0x7Du8]
}

/// The JSON body of a data frame.
pub open spec fn tcp_data_json(message: Seq<u8>) -> Seq<u8> {
    data_json_prefix() + json_escaped(message) + seq![0x22u8, 0x7Du8, 0x7Du8]
}

/// The JSON body of a keepalive.
pub open spec fn tcp_ping_json() -> Seq<u8> {
    seq![0x22u8, 0x50u8, 0x69u8, 0x6Eu8, 0x67u8, 0x22u8]
}

/// The JSON body of a keepalive response.
pub open spec fn tcp_pong_json() -> Seq<u8> {
    seq![0x22u8, 0x50u8, 0x6Fu8, 0x6Eu8, 0x67u8, 0x22u8]
}

fn push_register_prefix(v: &mut Vec<u8>)
    ensures
        final(v)@ == old(v)@ + register_json_prefix(),
{
    let ghost old_v = v@;
    v.push(0x7B);
    v.push(0x22);
    v.push(0x52);
    v.push(0x65);
    v.push(0x67);
    v.push(0x69);
    v.push(0x73);
    v.push(0x74);
    v.push(0x65);
    v.push(0x72);
    v.push(0x22);
    v.push(0x3A);
    v.push(0x7B);
    v.push(0x22);
    v.push(0x70);
    v.push(0x65);
    v.push(0x65);
    v.push(0x72);
    v.push(0x5F);
    v.push(0x69);
    v.push(0x64);
    v.push(0x22);
    v.push(0x3A);
    v.push(0x22);
    proof {
        assert(v@ =~= old_v + register_json_prefix());
    }
}

fn push_data_prefix(v: &mut Vec<u8>)
    ensures
        final(v)@ == old(v)@ + data_json_prefix(),
{
    let ghost old_v = v@;
    v.push(0x7B);
    v.push(0x22);
    v.push(0x44);
    v.push(0x61);
    v.push(0x74);
    v.push(0x61);
    v.push(0x22);
    v.push(0x3A);
    v.push(0x7B);
    v.push(0x22);
    v.push(0x6D);
    v.push(0x65);
    v.push(0x73);
    v.push(0x73);
    v.push(0x61);
    v.push(0x67);
    v.push(0x65);
    v.push(0x22);
    v.push(0x3A);
    v.push(0x22);
    proof {
        assert(v@ =~= old_v + data_json_prefix());
    }
}

fn push_close(v: &mut Vec<u8>)
    ensures
        final(v)@ == old(v)@ + seq![0x22u8, 0x7Du8, 0x7Du8],
{
    let ghost old_v = v@;
    v.push(0x22);
    v.push(0x7D);
    v.push(0x7D);
    proof {
        assert(v@ =~= old_v + seq![0x22u8, 0x7Du8, 0x7Du8]);
    }
}

/// Escape a byte text for a JSON string body.
pub fn json_escape_bytes(s: &[u8]) -> (r: Vec<u8>)
    ensures
        r@ == json_escaped(s@),
{
    let mut out: Vec<u8> = Vec::new();
    let mut i: usize = 0;
    proof {
        assert(s@.subrange(0, 0) =~= Seq::<u8>::empty());
    }
    while i < s.len()
        invariant
            0 <= i <= s@.len(),
            out@ == json_escaped(s@.subrange(0, i as int)),
        decreases s@.len() - i,
    {
        let b = s[i];
        let ghost old_out = out@;
        if b == 0x22 {
            out.push(0x5C);
            out.push(0x22);
        } else if b == 0x5C {
            out.push(0x5C);
            out.push(0x5C);
        } else if b < 0x20 {
            out.push(0x5C);
            out.push(0x75);
            out.push(0x30);
            out.push(0x30);
            let hi = b / 16;
            let lo = b % 16;
            out.push(if hi < 10 { hi + 0x30 } else { hi + 0x61 - 10 });
            out.push(if lo < 10 { lo + 0x30 } else { lo + 0x61 - 10 });
        } else {
            out.push(b);
        }
        proof {
            assert(s@.subrange(0, i as int + 1).drop_last() =~= s@.subrange(0, i as int));
            assert(s@.subrange(0, i as int + 1).last() == s@[i as int]);
            assert(out@ =~= old_out + json_escaped_byte(s@[i as int]));
        }
        i = i + 1;
    }
    proof {
        assert(s@.subrange(0, s@.len() as int) =~= s@);
    }
    out
}

/// Encode a transport message as its JSON wire body, exactly as the
/// protocol writes it behind the length prefix.
pub fn encode_tcp_message(msg: &TcpMessage) -> (r: Vec<u8>)
    ensures
        match msg {
            TcpMessage::Register { peer_id } => r@ == tcp_register_json(*peer_id),
            TcpMessage::Data { message } => r@ == tcp_data_json(encode_utf8(message@)),
            TcpMessage::Ping => r@ == tcp_ping_json(),
            TcpMessage::Pong => r@ == tcp_pong_json(),
        },
{
    match msg {
        TcpMessage::Register { peer_id } => {
            let mut out: Vec<u8> = Vec::new();
            push_register_prefix(&mut out);
            let text = crate::discovery::uuid_text(*peer_id);
            let mut id_bytes = text.as_str().as_bytes_vec();
            out.append(&mut id_bytes);
            push_close(&mut out);
            proof {
                assert(out@ =~= tcp_register_json(*peer_id));
            }
            out
        },
        TcpMessage::Data { message } => {
            let mut out: Vec<u8> = Vec::new();
            push_data_prefix(&mut out);
            let raw = message.as_str().as_bytes_vec();
            let mut escaped = json_escape_bytes(raw.as_slice());
            out.append(&mut escaped);
            push_close(&mut out);
            proof {
                assert(out@ =~= tcp_data_json(encode_utf8(message@)));
            }
            out
        },
        TcpMessage::Ping => {
            let mut v: Vec<u8> = Vec::new();
            v.push(0x22);
            v.push(0x50);
            v.push(0x69);
            v.push(0x6E);
            v.push(0x67);
            v.push(0x22);
            proof {
                assert(v@ =~= tcp_ping_json());
            }
            v
        },
        TcpMessage::Pong => {
            let mut v: Vec<u8> = Vec::new();
            v.push(0x22);
            v.push(0x50);
            v.push(0x6F);
            v.push(0x6E);
            v.push(0x67);
            v.push(0x22);
            proof {
                assert(v@ =~= tcp_pong_json());
            }
            v
        },
    }
}

/// The canonical JSON body a message writes: the soundness anchor for the
/// decoder.
pub open spec fn tcp_message_json(m: TcpMessage) -> Seq<u8> {
    match m {
        TcpMessage::Register { peer_id } => tcp_register_json(peer_id),
        TcpMessage::Data { message } => tcp_data_json(encode_utf8(message@)),
        TcpMessage::Ping => tcp_ping_json(),
        TcpMessage::Pong => tcp_pong_json(),
    }
}

/// A payload with no byte the JSON string body must escape.
pub open spec fn plain_json_bytes(s: Seq<u8>) -> bool {
    forall|i: int| 0 <= i < s.len() ==> #[trigger] s[i] != 0x22 && s[i] != 0x5C && s[i] >= 0x20
}

/// Escaping a plain payload changes nothing.
pub proof fn lemma_plain_escape(s: Seq<u8>)
    requires
        plain_json_bytes(s),
    ensures
        json_escaped(s) == s,
    decreases s.len(),
{
    if s.len() > 0 {
        assert(plain_json_bytes(s.drop_last()));
        lemma_plain_escape(s.drop_last());
        assert(json_escaped_byte(s.last()) =~= seq![s.last()]);
        assert(json_escaped(s) =~= s);
    }
}

/// An escaped text free of backslashes came from a plain payload and
/// equals it.
pub proof fn lemma_escape_without_backslash(s: Seq<u8>)
    requires
        forall|i: int| 0 <= i < json_escaped(s).len() ==> #[trigger] json_escaped(s)[i] != 0x5C,
    ensures
        json_escaped(s) == s,
    decreases s.len(),
{
    if s.len() > 0 {
        let e = json_escaped(s);
        let prev = json_escaped(s.drop_last());
        let b = s.last();
        if b == 0x22 || b == 0x5C || b < 0x20 {
            assert(e[prev.len() as int] == 0x5C);
        } else {
            assert forall|i: int| 0 <= i < prev.len() implies #[trigger] prev[i] != 0x5C by {
                assert(e[i] == prev[i]);
            }
            lemma_escape_without_backslash(s.drop_last());
            assert(json_escaped(s) =~= s);
        }
    }
}

/// Decode a JSON wire body. Strict: it accepts exactly the canonical form
/// the encoder writes, so whatever it returns re-encodes to the very bytes
/// it read, and every canonical body (with a plain payload, for data)
/// decodes successfully; anything else is rejected and the frame dropped.
pub fn decode_tcp_message(bytes: &[u8]) -> (r: Option<TcpMessage>)
    ensures
        r matches Some(m) ==> bytes@ == tcp_message_json(m),
        bytes@ == tcp_ping_json() ==> (r matches Some(m) && m is Ping),
        bytes@ == tcp_pong_json() ==> (r matches Some(m) && m is Pong),
        forall|id: u128| bytes@ == tcp_register_json(id) ==> (r matches Some(m) && m == (
        TcpMessage::Register { peer_id: id })),
        forall|cs: Seq<char>| bytes@ == tcp_data_json(encode_utf8(cs)) && plain_json_bytes(
            encode_utf8(cs)) ==> (r matches Some(m) && (m matches TcpMessage::Data { message }
            && message@ == cs)),
{
    let n = bytes.len();
    proof {
        assert forall|id: u128| bytes@ == tcp_register_json(id)
            implies bytes@.len() == 63 by {
            crate::discovery::lemma_uuid_text_parses_back(id);
        }
        assert forall|cs: Seq<char>| bytes@ == tcp_data_json(encode_utf8(cs))
            && plain_json_bytes(encode_utf8(cs)) implies bytes@.len() >= 23
                && bytes@[2] == 0x44 by {
            lemma_plain_escape(encode_utf8(cs));
        }
    }
    if n == 6 {
        let ping = {
            let mut v: Vec<u8> = Vec::new();
            v.push(0x22);
            v.push(0x50);
            v.push(0x69);
            v.push(0x6E);
            v.push(0x67);
            v.push(0x22);
            proof {
                assert(v@ =~= tcp_ping_json());
            }
            v
        };
        if crate::bytes::bytes_eq(bytes, ping.as_slice()) {
            return Some(TcpMessage::Ping);
        }
        let pong = {
            let mut v: Vec<u8> = Vec::new();
            v.push(0x22);
            v.push(0x50);
            v.push(0x6F);
            v.push(0x6E);
            v.push(0x67);
            v.push(0x22);
            proof {
                assert(v@ =~= tcp_pong_json());
            }
            v
        };
        if crate::bytes::bytes_eq(bytes, pong.as_slice()) {
            return Some(TcpMessage::Pong);
        }
        return None;
    }
    let reg_prefix = {
        let mut v: Vec<u8> = Vec::new();
        push_register_prefix(&mut v);
        v
    };
    let mut reg_ok: bool = n == 63;
    if reg_ok {
        let mut i: usize = 0;
        while i < 24
            invariant
                0 <= i <= 24,
                bytes@.len() == 63,
                reg_prefix@.len() == 24,
                reg_prefix@ == register_json_prefix(),
                reg_ok <==> (forall|j: int| 0 <= j < i ==> bytes@[j] == reg_prefix@[j]),
            decreases 24 - i,
        {
            if bytes[i] != reg_prefix[i] {
                reg_ok = false;
            }
            i = i + 1;
        }
    }
    if reg_ok {
        // A registration body: prefix, 36 identifier bytes, closing quote
        // and braces. The prefix rules out every other canonical form.
        proof {
            assert forall|cs: Seq<char>| !(bytes@ == tcp_data_json(encode_utf8(cs))
                && plain_json_bytes(encode_utf8(cs))) by {
                if bytes@ == tcp_data_json(encode_utf8(cs)) && plain_json_bytes(
                    encode_utf8(cs)) {
                    lemma_plain_escape(encode_utf8(cs));
                    assert(bytes@[2] == 0x44);
                    assert(bytes@[2] == reg_prefix@[2]);
                }
            }
        }
        if !(bytes[60] == 0x22 && bytes[61] == 0x7D && bytes[62] == 0x7D) {
            proof {
                assert forall|id: u128| !(bytes@ == tcp_register_json(id)) by {
                    if bytes@ == tcp_register_json(id) {
                        crate::discovery::lemma_uuid_text_parses_back(id);
                        assert(bytes@[60] == 0x22 && bytes@[61] == 0x7D && bytes@[62] == 0x7D);
                    }
                }
            }
            return None;
        }
        let mut id_bytes: Vec<u8> = Vec::new();
        let mut k: usize = 24;
        while k < 60
            invariant
                24 <= k <= 60,
                bytes@.len() == 63,
                id_bytes@ == bytes@.subrange(24, k as int),
            decreases 60 - k,
        {
            proof {
                assert(bytes@.subrange(24, k as int + 1)
                    =~= bytes@.subrange(24, k as int).push(bytes@[k as int]));
            }
            id_bytes.push(bytes[k]);
            k = k + 1;
        }
        proof {
            assert forall|id: u128| bytes@ == tcp_register_json(id)
                implies id_bytes@ == crate::discovery::uuid_text_bytes(id) by {
                crate::discovery::lemma_uuid_text_parses_back(id);
                assert(id_bytes@ =~= crate::discovery::uuid_text_bytes(id));
            }
        }
        let id = match crate::discovery::parse_uuid(id_bytes.as_slice()) {
            Some(id) => id,
            None => {
                proof {
                    assert forall|id2: u128| !(bytes@ == tcp_register_json(id2)) by {
                        if bytes@ == tcp_register_json(id2) {
                            crate::discovery::lemma_uuid_text_parses_back(id2);
                        }
                    }
                }
                return None;
            },
        };
        // Only the canonical lowercase hyphenated text decodes back to its
        // own identifier; re-rendering confirms the bytes.
        let canonical = crate::discovery::uuid_text(id);
        let canonical_bytes = canonical.as_str().as_bytes_vec();
        if !crate::bytes::bytes_eq(id_bytes.as_slice(), canonical_bytes.as_slice()) {
            proof {
                assert forall|id2: u128| !(bytes@ == tcp_register_json(id2)) by {
                    if bytes@ == tcp_register_json(id2) {
                        crate::discovery::lemma_uuid_text_parses_back(id2);
                        assert(id2 == id);
                    }
                }
            }
            return None;
        }
        proof {
            assert(bytes@.subrange(0, 24) =~= reg_prefix@) by {
                assert(forall|j: int| 0 <= j < 24 ==> bytes@[j] == reg_prefix@[j]);
            }
            assert(bytes@.subrange(60, 63) =~= seq![0x22u8, 0x7Du8, 0x7Du8]);
            assert(bytes@ =~= bytes@.subrange(0, 24) + bytes@.subrange(24, 60)
                + bytes@.subrange(60, 63));
            assert(bytes@ =~= tcp_register_json(id));
            assert forall|id2: u128| bytes@ == tcp_register_json(id2) implies id2 == id by {
                crate::discovery::lemma_uuid_text_parses_back(id2);
                crate::discovery::lemma_uuid_text_parses_back(id);
                assert(crate::discovery::uuid_text_bytes(id2) =~= crate::discovery::uuid_text_bytes(id));
            }
        }
        return Some(TcpMessage::Register { peer_id: id });
    }
    // A data body: prefix, escaped payload, closing quote and braces.
    proof {
        assert forall|id: u128| !(bytes@ == tcp_register_json(id)) by {
            if bytes@ == tcp_register_json(id) {
                crate::discovery::lemma_uuid_text_parses_back(id);
                assert(forall|j: int| 0 <= j < 24 ==> bytes@[j] == reg_prefix@[j]);
            }
        }
    }
    if n < 23 {
        return None;
    }
    let data_prefix = {
        let mut v: Vec<u8> = Vec::new();
        push_data_prefix(&mut v);
        v
    };
    let mut i: usize = 0;
    while i < 20
        invariant
            0 <= i <= 20,
            bytes@.len() == n >= 23,
            data_prefix@.len() == 20,
            data_prefix@ == data_json_prefix(),
            forall|j: int| 0 <= j < i ==> bytes@[j] == data_prefix@[j],
            forall|id: u128| !(bytes@ == tcp_register_json(id)),
        decreases 20 - i,
    {
        if bytes[i] != data_prefix[i] {
            proof {
                assert forall|cs: Seq<char>| !(bytes@ == tcp_data_json(encode_utf8(cs))
                    && plain_json_bytes(encode_utf8(cs))) by {
                    if bytes@ == tcp_data_json(encode_utf8(cs)) && plain_json_bytes(
                        encode_utf8(cs)) {
                        lemma_plain_escape(encode_utf8(cs));
                        assert(bytes@[i as int] == data_prefix@[i as int]);
                    }
                }
            }
            return None;
        }
        i = i + 1;
    }
    proof {
        assert forall|cs: Seq<char>| bytes@ == tcp_data_json(encode_utf8(cs))
            && plain_json_bytes(encode_utf8(cs))
            implies bytes@.subrange(20, n - 3) == encode_utf8(cs)
                && bytes@[n - 3] == 0x22 && bytes@[n - 2] == 0x7D && bytes@[n - 1] == 0x7D by {
            lemma_plain_escape(encode_utf8(cs));
            assert(bytes@.subrange(20, n - 3) =~= encode_utf8(cs));
        }
    }
    if !(bytes[n - 3] == 0x22 && bytes[n - 2] == 0x7D && bytes[n - 1] == 0x7D) {
        return None;
    }
    let mut out: Vec<u8> = Vec::new();
    let mut p: usize = 20;
    let stop: usize = n - 3;
    while p < stop
        invariant
            20 <= p <= stop,
            stop == n - 3,
            bytes@.len() == n >= 23,
            bytes@.subrange(20, p as int) == json_escaped(out@),
            out@.len() <= p - 20,
            forall|cs: Seq<char>| bytes@ == tcp_data_json(encode_utf8(cs)) && plain_json_bytes(
                encode_utf8(cs)) ==> bytes@.subrange(20, n - 3) == encode_utf8(cs),
            forall|id: u128| !(bytes@ == tcp_register_json(id)),
        decreases stop - p,
    {
        let b = bytes[p];
        let ghost old_out = out@;
        let ghost old_p = p as int;
        proof {
            assert forall|cs: Seq<char>| bytes@ == tcp_data_json(encode_utf8(cs))
                && plain_json_bytes(encode_utf8(cs))
                implies bytes@[p as int] != 0x22 && bytes@[p as int] != 0x5C
                    && bytes@[p as int] >= 0x20 by {
                assert(bytes@[p as int] == bytes@.subrange(20, n - 3)[p - 20]);
                assert(bytes@.subrange(20, n - 3)[p - 20] == encode_utf8(cs)[p - 20]);
            }
        }
        if b == 0x22 {
            // A bare quote never appears inside a canonical body.
            return None;
        } else if b == 0x5C {
            if p + 1 >= stop {
                return None;
            }
            let e = bytes[p + 1];
            if e == 0x22 {
                out.push(0x22);
                p = p + 2;
            } else if e == 0x5C {
                out.push(0x5C);
                p = p + 2;
            } else if e == 0x75 {
                if p + 5 >= stop {
                    return None;
                }
                if !(bytes[p + 2] == 0x30 && bytes[p + 3] == 0x30) {
                    return None;
                }
                let h1 = bytes[p + 4];
                let h2 = bytes[p + 5];
                let hi: u8;
                let lo: u8;
                if 0x30 <= h1 && h1 <= 0x39 {
                    hi = h1 - 0x30;
                } else if 0x61 <= h1 && h1 <= 0x66 {
                    hi = h1 - 0x61 + 10;
                } else {
                    return None;
                }
                if 0x30 <= h2 && h2 <= 0x39 {
                    lo = h2 - 0x30;
                } else if 0x61 <= h2 && h2 <= 0x66 {
                    lo = h2 - 0x61 + 10;
                } else {
                    return None;
                }
                let v = hi * 16 + lo;
                if v >= 0x20 {
                    // Canonical bodies reserve \u escapes for controls.
                    return None;
                }
                out.push(v);
                p = p + 6;
            } else {
                return None;
            }
        } else if b < 0x20 {
            // A bare control byte never appears inside a canonical body.
            return None;
        } else {
            out.push(b);
            p = p + 1;
        }
        proof {
            assert(out@.drop_last() =~= old_out);
            assert(json_escaped(out@) =~= json_escaped(old_out) + json_escaped_byte(out@.last()));
            let nb = out@.last();
            if nb < 0x20 {
                assert(json_hex_char(nb / 16) == bytes@[old_p + 4]);
                assert(json_hex_char(nb % 16) == bytes@[old_p + 5]);
            }
            assert(bytes@.subrange(old_p, p as int) =~= json_escaped_byte(nb));
            assert(bytes@.subrange(20, p as int) =~= bytes@.subrange(20, old_p)
                + bytes@.subrange(old_p, p as int));
        }
    }
    proof {
        assert forall|cs: Seq<char>| bytes@ == tcp_data_json(encode_utf8(cs))
            && plain_json_bytes(encode_utf8(cs)) implies out@ == encode_utf8(cs) by {
            let s = encode_utf8(cs);
            assert(json_escaped(out@) == s);
            assert forall|j: int| 0 <= j < json_escaped(out@).len()
                implies #[trigger] json_escaped(out@)[j] != 0x5C by {
                assert(json_escaped(out@)[j] == s[j]);
            }
            lemma_escape_without_backslash(out@);
        }
    }
    let ghost out_view = out@;
    let message = match crate::bytes::utf8_to_string(out) {
        Some(s) => s,
        None => {
            proof {
                assert forall|cs: Seq<char>| !(bytes@ == tcp_data_json(encode_utf8(cs))
                    && plain_json_bytes(encode_utf8(cs))) by {
                    if bytes@ == tcp_data_json(encode_utf8(cs)) && plain_json_bytes(
                        encode_utf8(cs)) {
                        assert(encode_utf8(cs) == out_view);
                    }
                }
            }
            return None;
        },
    };
    proof {
        assert(bytes@.subrange(0, 20) =~= data_prefix@) by {
            assert(forall|j: int| 0 <= j < 20 ==> bytes@[j] == data_prefix@[j]);
        }
        assert(bytes@.subrange(stop as int, n as int) =~= seq![0x22u8, 0x7Du8, 0x7Du8]);
        assert(bytes@ =~= bytes@.subrange(0, 20) + bytes@.subrange(20, stop as int)
            + bytes@.subrange(stop as int, n as int));
        assert(bytes@ =~= tcp_data_json(encode_utf8(message@)));
        assert forall|cs: Seq<char>| bytes@ == tcp_data_json(encode_utf8(cs))
            && plain_json_bytes(encode_utf8(cs)) implies message@ == cs by {
            assert(encode_utf8(message@) == out_view && encode_utf8(cs) == out_view);
            vstd::utf8::encode_utf8_decode_utf8(message@);
            vstd::utf8::encode_utf8_decode_utf8(cs);
        }
    }
    Some(TcpMessage::Data { message })
}

/// What the duplex loop does with one incoming frame.
#[derive(Debug)]
pub enum TcpAction {
    /// Hand the payload to the message callback.
    Deliver { message: String },
    /// Answer a keepalive.
    SendPong,
    /// Nothing to do.
    Ignore,
}

/// The duplex-loop decision for a decoded frame: data is delivered, a ping
/// is answered with a pong, everything else is ignored.
pub fn handle_frame(msg: TcpMessage) -> (r: TcpAction)
    ensures
        match msg {
            TcpMessage::Data { message } => r matches TcpAction::Deliver { message: m }
                && m@ == message@,
            TcpMessage::Ping => r is SendPong,
            TcpMessage::Pong => r is Ignore,
            TcpMessage::Register { .. } => r is Ignore,
        },
{
    match msg {
        TcpMessage::Data { message } => TcpAction::Deliver { message },
        TcpMessage::Ping => TcpAction::SendPong,
        TcpMessage::Pong => TcpAction::Ignore,
        TcpMessage::Register { .. } => TcpAction::Ignore,
    }
}

/// The first frame of an inbound connection must be a registration; any
/// other message rejects the connection.
pub fn expect_register(msg: &TcpMessage) -> (r: Result<u128, String>)
    ensures
        msg matches TcpMessage::Register { peer_id } <==> r == Ok::<u128, String>(
            msg->Register_peer_id),
        !(msg is Register) ==> r is Err,
{
    match msg {
        TcpMessage::Register { peer_id } => Ok(*peer_id),
        _ => Err(String::from_str("First message must be Register")),
    }
}

/// An active connection: the remote peer and its projection. The outbound
/// queue for the peer is keyed by this id outside the crate.
#[derive(Debug)]
pub struct TcpPeerConnection {
    pub peer_id: u128,
    pub peer_info: PeerInfo,
}

/// Registry of live point-to-point connections for one process.
#[derive(Debug)]
pub struct TcpP2pManager {
    pub connections: Vec<TcpPeerConnection>,
    pub my_peer_id: u128,
    pub my_peer_info: Option<PeerInfo>,
    /// Requested server port; 0 asks the system for one.
    pub server_port: u16,
}

/// A peer id is present in a connection list.
pub open spec fn has_conn(conns: Seq<TcpPeerConnection>, id: u128) -> bool {
    exists|i: int| 0 <= i < conns.len() && (#[trigger] conns[i]).peer_id == id
}

/// Connection lists hold at most one entry per peer.
pub open spec fn conns_wf(conns: Seq<TcpPeerConnection>) -> bool {
    forall|i: int, j: int| 0 <= i < j < conns.len()
        ==> (#[trigger] conns[i]).peer_id != (#[trigger] conns[j]).peer_id
}

/// What `connect_to_peer` asks of the caller.
#[derive(Debug, Clone, Copy, PartialEq, Eq, Structural)]
pub enum ConnectAction {
    /// A live connection already exists; nothing to open.
    AlreadyConnected,
    /// The connection was recorded; open the socket and send the
    /// registration frame.
    OpenAndRegister,
}

impl TcpP2pManager {
    pub fn new(my_peer_id: u128, server_port: u16) -> (r: Self)
        ensures
            r.connections@.len() == 0,
            r.my_peer_id == my_peer_id,
            r.my_peer_info is None,
            r.server_port == server_port,
            conns_wf(r.connections@),
    {
        TcpP2pManager {
            connections: Vec::new(),
            my_peer_id,
            my_peer_info: None,
            server_port,
        }
    }

    /// Record this process's own projection.
    pub fn set_my_info(&mut self, info: PeerInfo)
        ensures
            final(self).my_peer_info matches Some(p) && p@ == info@,
            final(self).connections == old(self).connections,
            final(self).my_peer_id == old(self).my_peer_id,
            final(self).server_port == old(self).server_port,
    {
        self.my_peer_info = Some(info);
    }

    /// The index of a peer's connection, if any.
    fn find_conn(&self, peer_id: u128) -> (r: Option<usize>)
        ensures
            r matches Some(i) ==> i < self.connections@.len()
                && self.connections@[i as int].peer_id == peer_id,
            r is None ==> !has_conn(self.connections@, peer_id),
    {
        let mut i: usize = 0;
        while i < self.connections.len()
            invariant
                0 <= i <= self.connections@.len(),
                forall|j: int| 0 <= j < i ==> (#[trigger] self.connections@[j]).peer_id != peer_id,
            decreases self.connections@.len() - i,
        {
            if self.connections[i].peer_id == peer_id {
                return Some(i);
            }
            i = i + 1;
        }
        None
    }

    /// Whether a live connection to the peer exists.
    pub fn is_connected(&self, peer_id: u128) -> (r: bool)
        ensures
            r == has_conn(self.connections@, peer_id),
    {
        match self.find_conn(peer_id) {
            Some(_) => true,
            None => false,
        }
    }

    /// Record an inbound connection once its registration frame arrived. A
    /// stale entry under the same id is replaced.
    pub fn register_inbound(&mut self, peer_id: u128, peer_info: PeerInfo)
        requires
            conns_wf(old(self).connections@),
        ensures
            conns_wf(final(self).connections@),
            has_conn(final(self).connections@, peer_id),
            forall|id: u128| id != peer_id ==> has_conn(final(self).connections@, id)
                == has_conn(old(self).connections@, id),
            exists|i: int| 0 <= i < final(self).connections@.len()
                && (#[trigger] final(self).connections@[i]).peer_id == peer_id
                && final(self).connections@[i].peer_info@ == peer_info@,
            final(self).my_peer_id == old(self).my_peer_id,
            final(self).server_port == old(self).server_port,
    {
        let ghost old_conns = self.connections@;
        match self.find_conn(peer_id) {
            Some(i) => {
                self.connections.remove(i);
                proof {
                    assert forall|id: u128| has_conn(self.connections@, id)
                        implies has_conn(old_conns, id) by {
                        let j = choose|j: int|
                            0 <= j < self.connections@.len() && (#[trigger] self.connections@[j]).peer_id
                                == id;
                        if j < i {
                            assert(old_conns[j].peer_id == id);
                        } else {
                            assert(old_conns[j + 1].peer_id == id);
                        }
                    }
                    assert(!has_conn(self.connections@, peer_id));
                    assert forall|id: u128| id != peer_id && has_conn(old_conns, id)
                        implies has_conn(self.connections@, id) by {
                        let j = choose|j: int|
                            0 <= j < old_conns.len() && (#[trigger] old_conns[j]).peer_id == id;
                        if j < i {
                            assert(self.connections@[j].peer_id == id);
                        } else {
                            assert(self.connections@[j - 1].peer_id == id);
                        }
                    }
                }
            },
            None => {
            },
        }
        let ghost mid_conns = self.connections@;
        self.connections.push(TcpPeerConnection { peer_id, peer_info });
        proof {
            assert(self.connections@[mid_conns.len() as int].peer_id == peer_id);
            assert forall|id: u128| id != peer_id
                implies has_conn(self.connections@, id) == has_conn(mid_conns, id) by {
                if has_conn(self.connections@, id) {
                    let j = choose|j: int|
                        0 <= j < self.connections@.len() && (#[trigger] self.connections@[j]).peer_id
                            == id;
                    assert(j < mid_conns.len());
                    assert(mid_conns[j].peer_id == id);
                }
                if has_conn(mid_conns, id) {
                    let j = choose|j: int|
                        0 <= j < mid_conns.len() && (#[trigger] mid_conns[j]).peer_id == id;
                    assert(self.connections@[j].peer_id == id);
                }
            }
        }
    }

    /// Decide a controller-side connect: nothing to do when a live
    /// connection exists, otherwise record the peer and ask the caller to
    /// open the socket and send the registration frame.
    pub fn connect_to_peer(&mut self, peer_id: u128, peer_info: PeerInfo) -> (r: ConnectAction)
        requires
            conns_wf(old(self).connections@),
        ensures
            conns_wf(final(self).connections@),
            r == ConnectAction::AlreadyConnected <==> has_conn(old(self).connections@, peer_id),
            r == ConnectAction::AlreadyConnected ==> final(self).connections
                == old(self).connections,
            r == ConnectAction::OpenAndRegister ==> final(self).connections@
                == old(self).connections@.push(TcpPeerConnection { peer_id, peer_info }),
            final(self).my_peer_id == old(self).my_peer_id,
    {
        match self.find_conn(peer_id) {
            Some(_) => ConnectAction::AlreadyConnected,
            None => {
                self.connections.push(TcpPeerConnection { peer_id, peer_info });
                proof {
                    assert forall|i: int, j: int| 0 <= i < j < self.connections@.len()
                        implies (#[trigger] self.connections@[i]).peer_id != (
                        #[trigger] self.connections@[j]).peer_id by {
                        if j == self.connections@.len() - 1 {
                            assert(old(self).connections@[i].peer_id != peer_id);
                        }
                    }
                }
                ConnectAction::OpenAndRegister
            },
        }
    }

    /// Accept a message for a peer's outbound queue: returns it for the
    /// queue exactly when the peer is connected, and fails with an error
    /// otherwise. The caller falls back to hub relay on the error.
    pub fn send_message(&self, peer_id: u128, message: String) -> (r: Result<String, String>)
        ensures
            has_conn(self.connections@, peer_id) ==> (r matches Ok(m) && m@ == message@),
            !has_conn(self.connections@, peer_id) ==> r is Err,
    {
        match self.find_conn(peer_id) {
            Some(_) => Ok(message),
            None => Err(String::from_str("Peer not connected")),
        }
    }

    /// Address a message to every connected peer, in registry order.
    pub fn broadcast(&self, message: String) -> (r: Vec<(u128, String)>)
        ensures
            r@.len() == self.connections@.len(),
            forall|i: int| 0 <= i < r@.len() ==> (#[trigger] r@[i]).0
                == self.connections@[i].peer_id && r@[i].1@ == message@,
    {
        let mut out: Vec<(u128, String)> = Vec::new();
        let mut i: usize = 0;
        while i < self.connections.len()
            invariant
                0 <= i <= self.connections@.len(),
                out@.len() == i,
                forall|j: int| 0 <= j < i ==> (#[trigger] out@[j]).0
                    == self.connections@[j].peer_id && out@[j].1@ == message@,
            decreases self.connections@.len() - i,
        {
            out.push((self.connections[i].peer_id, message.clone()));
            i = i + 1;
        }
        out
    }

    /// All connected peers' projections, in registry order.
    pub fn get_connected_peers(&self) -> (r: Vec<PeerInfo>)
        ensures
            r@.len() == self.connections@.len(),
            forall|i: int| 0 <= i < r@.len() ==> (#[trigger] r@[i])@
                == self.connections@[i].peer_info@,
    {
        let mut out: Vec<PeerInfo> = Vec::new();
        let mut i: usize = 0;
        while i < self.connections.len()
            invariant
                0 <= i <= self.connections@.len(),
                out@.len() == i,
                forall|j: int| 0 <= j < i ==> (#[trigger] out@[j])@
                    == self.connections@[j].peer_info@,
            decreases self.connections@.len() - i,
        {
            out.push(self.connections[i].peer_info.clone());
            i = i + 1;
        }
        out
    }

    /// Drop a peer's registry entry. Returns whether it was present, so the
    /// disconnect callback fires exactly once per live connection.
    pub fn disconnect(&mut self, peer_id: u128) -> (r: bool)
        requires
            conns_wf(old(self).connections@),
        ensures
            conns_wf(final(self).connections@),
            r == has_conn(old(self).connections@, peer_id),
            !has_conn(final(self).connections@, peer_id),
            forall|id: u128| id != peer_id ==> has_conn(final(self).connections@, id)
                == has_conn(old(self).connections@, id),
            !r ==> final(self).connections == old(self).connections,
            final(self).my_peer_id == old(self).my_peer_id,
    {
        let ghost old_conns = self.connections@;
        match self.find_conn(peer_id) {
            Some(i) => {
                self.connections.remove(i);
                proof {
                    assert forall|id: u128| has_conn(self.connections@, id)
                        implies has_conn(old_conns, id) by {
                        let j = choose|j: int|
                            0 <= j < self.connections@.len() && (#[trigger] self.connections@[j]).peer_id
                                == id;
                        if j < i {
                            assert(old_conns[j].peer_id == id);
                        } else {
                            assert(old_conns[j + 1].peer_id == id);
                        }
                    }
                    assert(!has_conn(self.connections@, peer_id));
                    assert forall|id: u128| id != peer_id && has_conn(old_conns, id)
                        implies has_conn(self.connections@, id) by {
                        let j = choose|j: int|
                            0 <= j < old_conns.len() && (#[trigger] old_conns[j]).peer_id == id;
                        if j < i {
                            assert(self.connections@[j].peer_id == id);
                        } else {
                            assert(self.connections@[j - 1].peer_id == id);
                        }
                    }
                    assert(has_conn(old_conns, peer_id));
                }
                true
            },
            None => false,
        }
    }
}

} // verus!
