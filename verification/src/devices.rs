//! Display-device discovery: turning resolved service advertisements into
//! device records, with per-display identification, address selection and
//! deduplication. The multicast browser runs outside this crate and hands
//! its resolved services in as data.

use vstd::prelude::*;
use vstd::string::{StringExecFns, StrSliceExecFns};
use vstd::utf8::encode_utf8;
use crate::bytes::{all_dec_digits, dec_val, parse_u64_dec};
use crate::messages::DiscoveredDevice;
use crate::net::{ipv4_bytes, ipv4_to_string, is_loopback, is_unspecified, Ipv4Octets};

verus! {

/// One resolved service advertisement, as the multicast browser reports it.
#[derive(Debug)]
pub struct ResolvedService {
    pub fullname: String,
    pub hostname: String,
    pub port: u16,
    /// The advertised IPv4 addresses, in report order.
    pub v4_addrs: Vec<Ipv4Octets>,
    /// The advertisement metadata, in report order.
    pub props: Vec<(String, String)>,
}

/// The first usable IPv4 address of an advertisement: neither loopback nor
/// unspecified. Loopback is useless across machines and 0.0.0.0 routes
/// nowhere.
pub open spec fn spec_pick_v4(addrs: Seq<Ipv4Octets>, k: int) -> Option<Ipv4Octets>
    decreases addrs.len() - k,
{
    if k < 0 || k >= addrs.len() {
        None
    } else if !is_loopback(addrs[k]) && !is_unspecified(addrs[k]) {
        Some(addrs[k])
    } else {
        spec_pick_v4(addrs, k + 1)
    }
}

/// Pick the advertisement's usable IPv4 address, if any.
pub fn extract_ipv4_address(addrs: &Vec<Ipv4Octets>) -> (r: Option<Ipv4Octets>)
    ensures
        r == spec_pick_v4(addrs@, 0),
{
    let mut i: usize = 0;
    while i < addrs.len()
        invariant
            0 <= i <= addrs@.len(),
            spec_pick_v4(addrs@, 0) == spec_pick_v4(addrs@, i as int),
        decreases addrs@.len() - i,
    {
        let a = addrs[i];
        if !(a.0 == 127) && !(a.0 == 0 && a.1 == 0 && a.2 == 0 && a.3 == 0) {
            return Some(a);
        }
        i = i + 1;
    }
    None
}

/// The value of the first metadata entry with this key, as the browser's
/// property lookup returns it.
pub open spec fn spec_prop_first(props: Seq<(String, String)>, key: Seq<char>, k: int) -> Option<Seq<char>>
    decreases props.len() - k,
{
    if k < 0 || k >= props.len() {
        None
    } else if props[k].0@ == key {
        Some(props[k].1@)
    } else {
        spec_prop_first(props, key, k + 1)
    }
}

/// Look a key up in the advertisement metadata; the first entry wins.
fn prop_first(props: &Vec<(String, String)>, key: &String) -> (r: Option<String>)
    ensures
        r matches Some(v) ==> spec_prop_first(props@, key@, 0) == Some(v@),
        r is None ==> spec_prop_first(props@, key@, 0) is None,
{
    let mut i: usize = 0;
    while i < props.len()
        invariant
            0 <= i <= props@.len(),
            spec_prop_first(props@, key@, 0) == spec_prop_first(props@, key@, i as int),
        decreases props@.len() - i,
    {
        if props[i].0.eq(key) {
            return Some(props[i].1.clone());
        }
        i = i + 1;
    }
    None
}

/// A resolution number read from metadata: digits whose value fits a `u32`,
/// and nothing else.
fn parse_u32_prop(v: &String) -> (r: Option<u32>)
    ensures
        r matches Some(x) ==> all_dec_digits(encode_utf8(v@)) && x as nat == dec_val(
            encode_utf8(v@)),
        r is None ==> !all_dec_digits(encode_utf8(v@)) || dec_val(encode_utf8(v@)) > u32::MAX,
{
    let bytes = v.as_str().as_bytes_vec();
    match parse_u64_dec(bytes.as_slice()) {
        Some(x) => {
            if x <= 0xFFFF_FFFF {
                Some(x as u32)
            } else {
                None
            }
        },
        None => None,
    }
}

/// One byte text opens with another.
pub open spec fn has_prefix(s: Seq<u8>, p: Seq<u8>) -> bool {
    s.len() >= p.len() && s.subrange(0, p.len() as int) == p
}

/// Whether the text starts with the prefix, by bytes.
fn starts_with_bytes(s: &String, prefix: &str) -> (r: bool)
    ensures
        r == has_prefix(encode_utf8(s@), encode_utf8(prefix@)),
{
    let sb = s.as_str().as_bytes_vec();
    let pb = prefix.as_bytes_vec();
    if sb.len() < pb.len() {
        return false;
    }
    let mut i: usize = 0;
    while i < pb.len()
        invariant
            0 <= i <= pb@.len() <= sb@.len(),
            sb@ == encode_utf8(s@),
            pb@ == encode_utf8(prefix@),
            forall|j: int| 0 <= j < i ==> sb@[j] == pb@[j],
        decreases pb@.len() - i,
    {
        if sb[i] != pb[i] {
            proof {
                assert(encode_utf8(s@).subrange(0, pb@.len() as int)[i as int] != pb@[i as int]);
            }
            return false;
        }
        i = i + 1;
    }
    proof {
        assert(encode_utf8(s@).subrange(0, pb@.len() as int) =~= pb@);
    }
    true
}

/// A fallback address a device record may use: not IPv6 link-local, not
/// IPv4 loopback, not the IPv6 loopback.
pub open spec fn usable_fallback(a: Seq<char>) -> bool {
    &&& !has_prefix(encode_utf8(a), encode_utf8("fe80::"@))
    &&& !has_prefix(encode_utf8(a), encode_utf8("127."@))
    &&& !has_prefix(encode_utf8(a), encode_utf8("::1"@))
}

/// The first advertised address text that is not link-local or loopback,
/// and nothing when every address is.
pub fn pick_fallback_address(addrs: &Vec<String>) -> (r: Option<String>)
    ensures
        r matches Some(s) ==> exists|k: int| 0 <= k < addrs@.len() && s@ == (
        #[trigger] addrs@[k])@ && usable_fallback(s@) && (forall|j: int| 0 <= j < k
            ==> !usable_fallback((#[trigger] addrs@[j])@)),
        r is None ==> forall|k: int| 0 <= k < addrs@.len()
            ==> !usable_fallback((#[trigger] addrs@[k])@),
{
    let mut i: usize = 0;
    while i < addrs.len()
        invariant
            0 <= i <= addrs@.len(),
            forall|j: int| 0 <= j < i ==> !usable_fallback((#[trigger] addrs@[j])@),
        decreases addrs@.len() - i,
    {
        let a = &addrs[i];
        if !starts_with_bytes(a, "fe80::") && !starts_with_bytes(a, "127.")
            && !starts_with_bytes(a, "::1") {
            let picked = a.clone();
            proof {
                assert(picked@ == addrs@[i as int]@);
                assert(usable_fallback(picked@));
            }
            return Some(picked);
        }
        proof {
            assert(a@ == addrs@[i as int]@);
            assert(!usable_fallback(addrs@[i as int]@));
        }
        i = i + 1;
    }
    None
}

/// An advertisement names at least one identifier for the display.
pub open spec fn device_parse_ok(svc: ResolvedService) -> bool {
    ||| spec_prop_first(svc.props@, "display_id"@, 0) is Some
    ||| spec_prop_first(svc.props@, "device_id"@, 0) is Some
}

/// A device record against the advertisement it came from.
pub open spec fn device_matches(svc: ResolvedService, d: DiscoveredDevice) -> bool {
    &&& d.name@ == svc.fullname@
    &&& d.port == svc.port
    &&& d.service_type@ == "_mw-display._tcp.local."@
    &&& match spec_prop_first(svc.props@, "display_id"@, 0) {
        Some(v) => d.display_id@ == v,
        None => Some(d.display_id@) == spec_prop_first(svc.props@, "device_id"@, 0),
    }
    &&& match spec_prop_first(svc.props@, "device_id"@, 0) {
        Some(v) => d.device_id matches Some(x) && x@ == v,
        None => d.device_id is None,
    }
    &&& match spec_pick_v4(svc.v4_addrs@, 0) {
        Some(o) => encode_utf8(d.host@) == ipv4_bytes(o),
        None => d.host@ == svc.hostname@,
    }
    &&& match spec_prop_first(svc.props@, "display_name"@, 0) {
        Some(v) => d.display_name matches Some(x) && x@ == v,
        None => d.display_name is None,
    }
    &&& match spec_prop_first(svc.props@, "width"@, 0) {
        Some(v) => if all_dec_digits(encode_utf8(v)) && dec_val(encode_utf8(v)) <= u32::MAX {
            d.width == Some(dec_val(encode_utf8(v)) as u32)
        } else {
            d.width is None
        },
        None => d.width is None,
    }
    &&& match spec_prop_first(svc.props@, "height"@, 0) {
        Some(v) => if all_dec_digits(encode_utf8(v)) && dec_val(encode_utf8(v)) <= u32::MAX {
            d.height == Some(dec_val(encode_utf8(v)) as u32)
        } else {
            d.height is None
        },
        None => d.height is None,
    }
    &&& match spec_prop_first(svc.props@, "platform"@, 0) {
        Some(v) => d.platform matches Some(x) && x@ == v,
        None => d.platform is None,
    }
}

/// Build one device record from a resolved advertisement. A device without
/// a display id falls back to its device id; one with neither is skipped.
/// The host is the first usable IPv4 address, else the advertised hostname.
pub fn build_discovered_device(svc: &ResolvedService) -> (r: Option<DiscoveredDevice>)
    ensures
        r is Some <==> device_parse_ok(*svc),
        r matches Some(d) ==> device_matches(*svc, d),
{
    let display_id_prop = prop_first(&svc.props, &String::from_str("display_id"));
    let device_id = prop_first(&svc.props, &String::from_str("device_id"));
    let display_id = match display_id_prop {
        Some(v) => v,
        None => {
            match &device_id {
                Some(v) => v.clone(),
                None => {
                    return None;
                },
            }
        },
    };

    let display_name = prop_first(&svc.props, &String::from_str("display_name"));
    let width = match prop_first(&svc.props, &String::from_str("width")) {
        Some(v) => parse_u32_prop(&v),
        None => None,
    };
    let height = match prop_first(&svc.props, &String::from_str("height")) {
        Some(v) => parse_u32_prop(&v),
        None => None,
    };
    let platform = prop_first(&svc.props, &String::from_str("platform"));

    let host = match extract_ipv4_address(&svc.v4_addrs) {
        Some(o) => ipv4_to_string(o),
        None => svc.hostname.clone(),
    };

    Some(DiscoveredDevice {
        name: svc.fullname.clone(),
        host,
        port: svc.port,
        service_type: String::from_str("_mw-display._tcp.local."),
        display_id,
        device_id,
        display_name,
        width,
        height,
        platform,
    })
}

/// Every collected record comes from one of the services.
pub open spec fn sound_devices(services: Seq<ResolvedService>, r: Seq<DiscoveredDevice>) -> bool {
    forall|k: int| 0 <= k < r.len() ==> exists|i: int|
        0 <= i < services.len() && device_matches(#[trigger] services[i], #[trigger] r[k])
}

/// Every identifiable service's fullname appears among the records.
pub open spec fn complete_devices(services: Seq<ResolvedService>, r: Seq<DiscoveredDevice>) -> bool {
    forall|i: int| 0 <= i < services.len() && device_parse_ok(#[trigger] services[i])
        ==> exists|k: int| 0 <= k < r.len() && (#[trigger] r[k]).name@ == services[i].fullname@
}

/// Collect one browse window's resolved services into device records,
/// keeping the first advertisement per service fullname.
pub fn collect_display_devices(services: &Vec<ResolvedService>) -> (r: Vec<DiscoveredDevice>)
    ensures
        services@.len() == 0 ==> r@.len() == 0,
        r@.len() <= services@.len(),
        forall|i: int, j: int| 0 <= i < j < r@.len() ==> (#[trigger] r@[i]).name@ != (
        #[trigger] r@[j]).name@,
        sound_devices(services@, r@),
        complete_devices(services@, r@),
{
    let mut devices: Vec<DiscoveredDevice> = Vec::new();
    let mut i: usize = 0;
    while i < services.len()
        invariant
            0 <= i <= services@.len(),
            devices@.len() <= i,
            forall|a: int, b: int| 0 <= a < b < devices@.len() ==> (#[trigger] devices@[a]).name@
                != (#[trigger] devices@[b]).name@,
            sound_devices(services@, devices@),
            complete_devices(services@.subrange(0, i as int), devices@),
        decreases services@.len() - i,
    {
        let svc = &services[i];
        let mut seen = false;
        let mut k: usize = 0;
        while k < devices.len()
            invariant
                0 <= k <= devices@.len(),
                seen <==> exists|j: int| 0 <= j < k && (#[trigger] devices@[j]).name@
                    == svc.fullname@,
                svc == &services@[i as int],
            decreases devices@.len() - k,
        {
            if devices[k].name.eq(&svc.fullname) {
                seen = true;
            }
            k = k + 1;
        }
        let ghost old_devices = devices@;
        if !seen {
            match build_discovered_device(svc) {
                Some(device) => {
                    let ghost dv = device;
                    devices.push(device);
                    proof {
                        assert(devices@.last() == dv);
                        assert(device_matches(services@[i as int], dv));
                        assert forall|a: int, b: int| 0 <= a < b < devices@.len()
                            implies (#[trigger] devices@[a]).name@
                                != (#[trigger] devices@[b]).name@ by {
                            if b == devices@.len() - 1 {
                                assert(old_devices[a].name@ != svc.fullname@);
                            }
                        }
                        assert forall|k2: int| 0 <= k2 < devices@.len() implies exists|n: int|
                            0 <= n < services@.len() && device_matches(#[trigger] services@[n],
                                #[trigger] devices@[k2]) by {
                            if k2 == devices@.len() - 1 {
                                assert(device_matches(services@[i as int], devices@[k2]));
                            } else {
                                assert(exists|n: int| 0 <= n < services@.len() && device_matches(
                                    #[trigger] services@[n], old_devices[k2]));
                                let n = choose|n: int|
                                    0 <= n < services@.len() && device_matches(
                                        #[trigger] services@[n], old_devices[k2]);
                                assert(device_matches(services@[n], devices@[k2]));
                            }
                        }
                    }
                },
                None => {
                },
            }
        }
        proof {
            assert forall|n: int| 0 <= n < services@.subrange(0, i as int + 1).len()
                && device_parse_ok(#[trigger] services@.subrange(0, i as int + 1)[n])
                implies exists|k2: int| 0 <= k2 < devices@.len()
                    && (#[trigger] devices@[k2]).name@ == services@.subrange(
                    0, i as int + 1)[n].fullname@ by {
                assert(services@.subrange(0, i as int + 1)[n] == services@[n]);
                if n < i {
                    assert(services@.subrange(0, i as int)[n] == services@[n]);
                    assert(device_parse_ok(services@.subrange(0, i as int)[n]));
                    let k2 = choose|k2: int|
                        0 <= k2 < old_devices.len() && (#[trigger] old_devices[k2]).name@
                            == services@.subrange(0, i as int)[n].fullname@;
                    assert(devices@[k2].name@ == services@[n].fullname@);
                } else {
                    if seen {
                        let j = choose|j: int|
                            0 <= j < old_devices.len() && (#[trigger] old_devices[j]).name@
                                == services@[i as int].fullname@;
                        assert(devices@[j].name@ == services@[n].fullname@);
                    } else {
                        assert(devices@[devices@.len() - 1].name@ == services@[n].fullname@);
                    }
                }
            }
        }
        i = i + 1;
    }
    proof {
        assert(services@.subrange(0, i as int) =~= services@);
    }
    devices
}

} // verus!
