//! Local-network plumbing decisions: which interface addresses to
//! advertise and in what order, their dotted-decimal text, and the UDP
//! broadcast discovery protocol used where multicast is blocked.

use vstd::prelude::*;
use vstd::string::StringExecFns;
use vstd::utf8::encode_utf8;
use crate::bytes::{all_dec_digits, dec_bytes, dec_val, trim_bytes, trim_vec, parse_u64_dec,
    u64_to_dec, utf8_to_string};

verus! {

/// A local IPv4 address, by its four octets.
pub type Ipv4Octets = (u8, u8, u8, u8);

/// The 127.0.0.0/8 loopback range.
pub open spec fn is_loopback(o: Ipv4Octets) -> bool {
    o.0 == 127
}

/// The 169.254.0.0/16 link-local range.
pub open spec fn is_link_local(o: Ipv4Octets) -> bool {
    o.0 == 169 && o.1 == 254
}

/// The 0.0.0.0 unspecified address.
pub open spec fn is_unspecified(o: Ipv4Octets) -> bool {
    o.0 == 0 && o.1 == 0 && o.2 == 0 && o.3 == 0
}

/// The loopback addresses of an interface list, in order.
pub open spec fn loopback_addrs(s: Seq<Option<Ipv4Octets>>) -> Seq<Ipv4Octets>
    decreases s.len(),
{
    if s.len() == 0 {
        Seq::empty()
    } else {
        let prefix = loopback_addrs(s.drop_last());
        match s.last() {
            Some(o) => if is_loopback(o) {
                prefix.push(o)
            } else {
                prefix
            },
            None => prefix,
        }
    }
}

/// The routable (non-loopback, non-link-local) addresses of an interface
/// list, in order.
pub open spec fn network_addrs(s: Seq<Option<Ipv4Octets>>) -> Seq<Ipv4Octets>
    decreases s.len(),
{
    if s.len() == 0 {
        Seq::empty()
    } else {
        let prefix = network_addrs(s.drop_last());
        match s.last() {
            Some(o) => if !is_loopback(o) && !is_link_local(o) {
                prefix.push(o)
            } else {
                prefix
            },
            None => prefix,
        }
    }
}

/// The advertised address order: loopback first for same-machine
/// discovery, then every routable address.
pub open spec fn ordered_addrs(s: Seq<Option<Ipv4Octets>>) -> Seq<Ipv4Octets> {
    loopback_addrs(s) + network_addrs(s)
}

/// The dotted-decimal text of an IPv4 address, as bytes.
pub open spec fn ipv4_bytes(o: Ipv4Octets) -> Seq<u8> {
    dec_bytes(o.0 as nat) + seq![0x2Eu8] + dec_bytes(o.1 as nat) + seq![0x2Eu8]
        + dec_bytes(o.2 as nat) + seq![0x2Eu8] + dec_bytes(o.3 as nat)
}

/// Relies on if_addrs::get_if_addrs: the machine's current interfaces,
/// each as its name and its IPv4 octets, or no octets for another address
/// family. The result depends on the machine, so nothing is promised of
/// it; an enumeration failure reads as no interfaces.
#[verifier::external_body]
fn local_interfaces() -> Vec<(String, Option<(u8, u8, u8, u8)>)> {
    let ifaces = if_addrs::get_if_addrs().unwrap_or_default();
    ifaces
        .into_iter()
        .map(|iface| match iface.addr {
            if_addrs::IfAddr::V4(v4) => {
                let o = v4.ip.octets();
                (iface.name, Some((o[0], o[1], o[2], o[3])))
            },
            if_addrs::IfAddr::V6(_) => (iface.name, None),
        })
        .collect()
}

/// Order an interface list's IPv4 addresses for advertising: loopback
/// addresses first, then the routable ones, skipping link-local addresses.
pub fn order_ip_addresses(ifaces: &Vec<(String, Option<(u8, u8, u8, u8)>)>) -> (r: Vec<Ipv4Octets>)
    ensures
        r@ == ordered_addrs(addrs_of(ifaces@)),
        forall|k: int| 0 <= k < r@.len() ==> !is_link_local(#[trigger] r@[k]),
{
    let ghost av = addrs_of(ifaces@);
    let mut loopbacks: Vec<Ipv4Octets> = Vec::new();
    let mut network: Vec<Ipv4Octets> = Vec::new();
    let mut i: usize = 0;
    proof {
        assert(av.subrange(0, 0) =~= Seq::<Option<Ipv4Octets>>::empty());
    }
    while i < ifaces.len()
        invariant
            0 <= i <= ifaces@.len(),
            av == addrs_of(ifaces@),
            av.len() == ifaces@.len(),
            loopbacks@ == loopback_addrs(av.subrange(0, i as int)),
            network@ == network_addrs(av.subrange(0, i as int)),
            forall|k: int| 0 <= k < loopbacks@.len() ==> !is_link_local(#[trigger] loopbacks@[k]),
            forall|k: int| 0 <= k < network@.len() ==> !is_link_local(#[trigger] network@[k]),
        decreases ifaces@.len() - i,
    {
        proof {
            assert(av.subrange(0, i as int + 1).drop_last() =~= av.subrange(0, i as int));
            assert(av.subrange(0, i as int + 1).last() == av[i as int]);
            assert(av[i as int] == ifaces@[i as int].1);
        }
        match &ifaces[i].1 {
            Some(o) => {
                if o.0 == 127 {
                    loopbacks.push(*o);
                } else if !(o.0 == 169 && o.1 == 254) {
                    network.push(*o);
                }
            },
            None => {
            },
        }
        i = i + 1;
    }
    proof {
        assert(av.subrange(0, ifaces@.len() as int) =~= av);
    }
    let mut out = loopbacks;
    let mut rest = network;
    out.append(&mut rest);
    out
}

/// The address column of an interface list.
pub open spec fn addrs_of(s: Seq<(String, Option<Ipv4Octets>)>) -> Seq<Option<Ipv4Octets>> {
    Seq::new(s.len(), |i: int| s[i].1)
}

/// The dotted-decimal text of an address.
pub fn ipv4_to_string(o: Ipv4Octets) -> (r: String)
    ensures
        encode_utf8(r@) == ipv4_bytes(o),
{
    let mut bytes = u64_to_dec(o.0 as u64);
    bytes.push(0x2E);
    let mut part = u64_to_dec(o.1 as u64);
    bytes.append(&mut part);
    bytes.push(0x2E);
    let mut part = u64_to_dec(o.2 as u64);
    bytes.append(&mut part);
    bytes.push(0x2E);
    let mut part = u64_to_dec(o.3 as u64);
    bytes.append(&mut part);
    proof {
        assert(bytes@ =~= ipv4_bytes(o));
        lemma_dec_bytes_ascii(o.0 as nat);
        lemma_dec_bytes_ascii(o.1 as nat);
        lemma_dec_bytes_ascii(o.2 as nat);
        lemma_dec_bytes_ascii(o.3 as nat);
    }
    match utf8_to_string(bytes) {
        Some(s) => s,
        None => {
            proof {
                assert(false);
            }
            String::new()
        },
    }
}

/// Decimal renderings are ASCII digits.
pub proof fn lemma_dec_bytes_ascii(n: nat)
    ensures
        forall|i: int| 0 <= i < dec_bytes(n).len() ==> 0x30 <= #[trigger] dec_bytes(n)[i] <= 0x39,
    decreases n,
{
    if n >= 10 {
        lemma_dec_bytes_ascii(n / 10);
        assert forall|i: int| 0 <= i < dec_bytes(n).len()
            implies 0x30 <= #[trigger] dec_bytes(n)[i] <= 0x39 by {
            if i < dec_bytes(n).len() - 1 {
                assert(dec_bytes(n)[i] == dec_bytes(n / 10)[i]);
            }
        }
    }
}

/// Every entry is the dotted-decimal text of some non-link-local address.
pub open spec fn addr_texts_ok(r: Seq<String>) -> bool {
    forall|k: int| 0 <= k < r.len() ==> exists|o: Ipv4Octets|
        !is_link_local(o) && encode_utf8((#[trigger] r[k])@) == ipv4_bytes(o)
}

/// The machine's IPv4 addresses ordered for advertising, as dotted
/// decimal. Whatever the machine reports, every returned address is the
/// text of a non-link-local IPv4 address.
pub fn get_all_ip_addresses() -> (r: Vec<String>)
    ensures
        addr_texts_ok(r@),
{
    let ifaces = local_interfaces();
    let addrs = order_ip_addresses(&ifaces);
    let mut out: Vec<String> = Vec::new();
    let mut i: usize = 0;
    while i < addrs.len()
        invariant
            0 <= i <= addrs@.len(),
            forall|k: int| 0 <= k < addrs@.len() ==> !is_link_local(#[trigger] addrs@[k]),
            addr_texts_ok(out@),
        decreases addrs@.len() - i,
    {
        let o = addrs[i];
        let s = ipv4_to_string(o);
        let ghost old_out = out@;
        let ghost sv = s@;
        out.push(s);
        proof {
            assert(addr_texts_ok(old_out));
            assert forall|k: int| 0 <= k < out@.len() implies exists|o2: Ipv4Octets|
                !is_link_local(o2) && encode_utf8((#[trigger] out@[k])@) == ipv4_bytes(o2) by {
                if k == out@.len() - 1 {
                    assert(out@[k]@ == sv);
                    assert(!is_link_local(o) && encode_utf8(sv) == ipv4_bytes(o));
                } else {
                    assert(exists|o2: Ipv4Octets|
                        !is_link_local(o2) && encode_utf8((#[trigger] old_out[k])@)
                            == ipv4_bytes(o2));
                    let o2 = choose|o2: Ipv4Octets|
                        !is_link_local(o2) && encode_utf8((old_out[k])@) == ipv4_bytes(o2);
                    assert(encode_utf8(out@[k]@) == ipv4_bytes(o2));
                }
            }
            assert(addr_texts_ok(out@));
        }
        i = i + 1;
    }
    out
}

/// The first advertised address: loopback when one exists, for
/// same-machine discovery, else the first routable address.
pub fn get_local_ip_address() -> (r: Option<String>)
    ensures
        r matches Some(s) ==> exists|o: Ipv4Octets|
            !is_link_local(o) && encode_utf8(s@) == ipv4_bytes(o),
{
    let mut all = get_all_ip_addresses();
    if all.len() == 0 {
        None
    } else {
        let first = all.remove(0);
        Some(first)
    }
}

/// The UDP discovery request "MW-DISCOVER".
pub open spec fn broadcast_message() -> Seq<u8> {
    seq![0x4Du8, 0x57u8, 0x2Du8, 0x44u8, 0x49u8, 0x53u8, 0x43u8, 0x4Fu8, 0x56u8, 0x45u8, 0x52u8]
}

/// The UDP discovery response prefix "MW-HERE".
pub open spec fn response_prefix() -> Seq<u8> {
    seq![0x4Du8, 0x57u8, 0x2Du8, 0x48u8, 0x45u8, 0x52u8, 0x45u8]
}

/// The discovery request, as sent on the wire.
pub fn broadcast_message_bytes() -> (r: Vec<u8>)
    ensures
        r@ == broadcast_message(),
{
    let mut v: Vec<u8> = Vec::new();
    v.push(0x4D);
    v.push(0x57);
    v.push(0x2D);
    v.push(0x44);
    v.push(0x49);
    v.push(0x53);
    v.push(0x43);
    v.push(0x4F);
    v.push(0x56);
    v.push(0x45);
    v.push(0x52);
    proof {
        assert(v@ =~= broadcast_message());
    }
    v
}

/// Whether a datagram is exactly the discovery request.
pub fn is_discovery_request(buf: &[u8]) -> (r: bool)
    ensures
        r == (buf@ == broadcast_message()),
{
    let msg = broadcast_message_bytes();
    crate::bytes::bytes_eq(buf, msg.as_slice())
}

/// The response a display sends: the prefix followed by its channel port
/// in decimal.
pub fn discovery_response_bytes(ws_port: u16) -> (r: Vec<u8>)
    ensures
        r@ == response_prefix() + dec_bytes(ws_port as nat),
{
    let mut v: Vec<u8> = Vec::new();
    v.push(0x4D);
    v.push(0x57);
    v.push(0x2D);
    v.push(0x48);
    v.push(0x45);
    v.push(0x52);
    v.push(0x45);
    proof {
        assert(v@ =~= response_prefix());
    }
    let mut digits = u64_to_dec(ws_port as u64);
    v.append(&mut digits);
    v
}

/// The port a discovery response declares: the digits after the prefix,
/// trimmed; unreadable digits fall back to port 8080.
pub open spec fn spec_response_port(buf: Seq<u8>) -> u16 {
    let rest = trim_bytes(buf.subrange(7, buf.len() as int));
    if all_dec_digits(rest) && dec_val(rest) <= u16::MAX {
        dec_val(rest) as u16
    } else {
        8080
    }
}

/// Parse a discovery response: any datagram carrying the prefix yields a
/// port, and nothing else does.
pub fn parse_discovery_response(buf: &[u8]) -> (r: Option<u16>)
    ensures
        r is Some <==> buf@.len() >= 7 && buf@.subrange(0, 7) == response_prefix(),
        r matches Some(p) ==> p == spec_response_port(buf@),
{
    if buf.len() < 7 {
        return None;
    }
    let mut prefix: Vec<u8> = Vec::new();
    let mut i: usize = 0;
    while i < 7
        invariant
            0 <= i <= 7,
            buf@.len() >= 7,
            prefix@ == buf@.subrange(0, i as int),
        decreases 7 - i,
    {
        proof {
            assert(buf@.subrange(0, i as int + 1)
                =~= buf@.subrange(0, i as int).push(buf@[i as int]));
        }
        prefix.push(buf[i]);
        i = i + 1;
    }
    let expect = {
        let mut v: Vec<u8> = Vec::new();
        v.push(0x4D);
        v.push(0x57);
        v.push(0x2D);
        v.push(0x48);
        v.push(0x45);
        v.push(0x52);
        v.push(0x45);
        proof {
            assert(v@ =~= response_prefix());
        }
        v
    };
    if !crate::bytes::bytes_eq(prefix.as_slice(), expect.as_slice()) {
        return None;
    }
    let mut rest: Vec<u8> = Vec::new();
    let mut i: usize = 7;
    let buf_len = buf.len();
    while i < buf_len
        invariant
            7 <= i <= buf_len,
            buf_len == buf@.len(),
            rest@ == buf@.subrange(7, i as int),
        decreases buf_len - i,
    {
        proof {
            assert(buf@.subrange(7, i as int + 1)
                =~= buf@.subrange(7, i as int).push(buf@[i as int]));
        }
        rest.push(buf[i]);
        i = i + 1;
    }
    let trimmed = trim_vec(&rest);
    let port: u16 = match parse_u64_dec(trimmed.as_slice()) {
        Some(v) => {
            if v <= 65535 {
                v as u16
            } else {
                8080
            }
        },
        None => 8080,
    };
    Some(port)
}

/// The advertisement metadata a display publishes: its identifiers always,
/// and name, resolution and platform when known and nonempty.
pub fn advertisement_txt_records(
    display_id: String,
    device_id: String,
    display_name: Option<String>,
    width: Option<u32>,
    height: Option<u32>,
    platform: Option<String>,
) -> (r: Vec<(String, String)>)
    ensures
        ({
            let dn = match display_name {
                Some(s) => s@.len() > 0,
                None => false,
            };
            let pf = match platform {
                Some(s) => s@.len() > 0,
                None => false,
            };
            let wn = width is Some;
            let hn = height is Some;
            &&& r@.len() == 2 + (if dn { 1int } else { 0 }) + (if wn { 1int } else { 0 })
                + (if hn { 1int } else { 0 }) + (if pf { 1int } else { 0 })
            &&& r@[0].0@ == "display_id"@ && r@[0].1@ == display_id@
            &&& r@[1].0@ == "device_id"@ && r@[1].1@ == device_id@
            &&& dn ==> r@[2].0@ == "display_name"@ && r@[2].1@ == display_name->0@
            &&& wn ==> {
                let k = 2 + (if dn { 1int } else { 0 });
                r@[k].0@ == "width"@ && encode_utf8(r@[k].1@) == dec_bytes(width->0 as nat)
            }
            &&& hn ==> {
                let k = 2 + (if dn { 1int } else { 0 }) + (if wn { 1int } else { 0 });
                r@[k].0@ == "height"@ && encode_utf8(r@[k].1@) == dec_bytes(height->0 as nat)
            }
            &&& pf ==> {
                let k = 2 + (if dn { 1int } else { 0 }) + (if wn { 1int } else { 0 })
                    + (if hn { 1int } else { 0 });
                r@[k].0@ == "platform"@ && r@[k].1@ == platform->0@
            }
        }),
{
    let mut records: Vec<(String, String)> = Vec::new();
    records.push((String::from_str("display_id"), display_id));
    records.push((String::from_str("device_id"), device_id));
    match display_name {
        Some(s) => {
            if s.as_str().unicode_len() > 0 {
                records.push((String::from_str("display_name"), s));
            }
        },
        None => {
        },
    }
    match width {
        Some(w) => {
            let digits = u64_to_dec(w as u64);
            proof {
                lemma_dec_bytes_ascii(w as nat);
            }
            match utf8_to_string(digits) {
                Some(text) => {
                    records.push((String::from_str("width"), text));
                },
                None => {
                    proof {
                        assert(false);
                    }
                },
            }
        },
        None => {
        },
    }
    match height {
        Some(h) => {
            let digits = u64_to_dec(h as u64);
            proof {
                lemma_dec_bytes_ascii(h as nat);
            }
            match utf8_to_string(digits) {
                Some(text) => {
                    records.push((String::from_str("height"), text));
                },
                None => {
                    proof {
                        assert(false);
                    }
                },
            }
        },
        None => {
        },
    }
    match platform {
        Some(s) => {
            if s.as_str().unicode_len() > 0 {
                records.push((String::from_str("platform"), s));
            }
        },
        None => {
        },
    }
    records
}

} // verus!
