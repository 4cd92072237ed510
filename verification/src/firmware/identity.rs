//! Who the device is, from its settings and its MAC address.

use vstd::prelude::*;
use vstd::string::*;

use crate::api::device;
use crate::api::device::Device;
use crate::api::noise;
use crate::firmware::crash;
use crate::firmware::settings::{Net, NetSettings};

verus! {

/// The node name: the device name and the last three bytes of the MAC, e.g. `relay6-47abb0`.
pub open spec fn node_name_of(name: Seq<char>, mac: Seq<u8>) -> Seq<char> {
    name + "-"@ + device::hex_text(mac.skip(3), 3)
}

pub fn node_name(name: &str, mac: &[u8; 6]) -> (r: String)
    ensures
        r@ == node_name_of(name@, mac@),
{
    let mut s = String::from_str(name);
    s.append("-");
    let ghost head = s@;
    proof {
        assert(head + device::hex_text(mac@.skip(3), 0) =~= head);
    }
    let mut i: usize = 0;
    while i < 3
        invariant
            i <= 3,
            s@ == head + device::hex_text(mac@.skip(3), i as nat),
        decreases 3 - i,
    {
        let ghost before = s@;
        let b: u8 = mac[3 + i];
        crash::push_hex(&mut s, b as u64, 2);
        proof {
            reveal_with_fuel(crash::hex, 3);
            let k = (i + 1) as nat;
            assert(mac@.skip(3)[i as int] == b);
            assert(crash::hex(b as nat, 2) =~= seq![
                device::hex_digit((b / 16) as u8),
                device::hex_digit((b % 16) as u8),
            ]);
            assert(s@ =~= head + device::hex_text(mac@.skip(3), k));
        }
        i += 1;
    }
    s
}

/// The identity is the one of these settings.
pub open spec fn identifies(d: Device, net: Net, mac: Seq<u8>, version: Seq<char>) -> bool {
    &&& d.name@ == node_name_of(net.name, mac)
    &&& d.friendly_name@ == net.friendly_name
    &&& d.mac_address@ == device::mac_text(mac, 6)
    &&& d.model@ == "esp32-s3-relay-6ch"@
    &&& d.manufacturer@ == "Waveshare"@
    &&& d.esphome_version@ == "2026.9.0"@
    &&& d.compilation_time@ == Seq::<char>::empty()
    &&& d.project_name@ == "cascalheira.relay6"@
    &&& d.project_version@ == version
    &&& d.suggested_area@ == Seq::<char>::empty()
    &&& d.encryption == (net.psk_b64.len() > 0)
}

pub fn identify(net: &NetSettings, mac: &[u8; 6], version: &str) -> (r: Device)
    ensures
        identifies(r, net@, mac@, version@),
{
    Device {
        name: node_name(net.name.as_str(), mac),
        friendly_name: net.friendly_name.clone(),
        mac_address: device::mac_from_bytes(mac),
        model: String::from_str("esp32-s3-relay-6ch"),
        manufacturer: String::from_str("Waveshare"),
        esphome_version: String::from_str("2026.9.0"),
        compilation_time: String::new(),
        project_name: String::from_str("cascalheira.relay6"),
        project_version: version.to_owned(),
        suggested_area: String::new(),
        encryption: !net.psk_b64.as_str().is_empty(),
    }
}

/// The key of the API, if there is one; `Err` if it cannot be used.
pub fn api_key(net: &NetSettings) -> (r: Result<Option<[u8; 32]>, String>)
    ensures
        net@.psk_b64.len() == 0 ==> r matches Ok(None),
        net@.psk_b64.len() > 0 ==> match noise::psk_of(net@.psk_b64) {
            Ok(k) => r matches Ok(Some(key)) && key@ == k,
            Err(e) => r is Err && r->Err_0@ == "bad NOISE_PSK: "@ + e,
        },
{
    if net.psk_b64.as_str().is_empty() {
        return Ok(None);
    }
    match noise::parse_psk(net.psk_b64.as_str()) {
        Ok(k) => Ok(Some(k)),
        Err(e) => {
            let mut s = String::from_str("bad NOISE_PSK: ");
            s.append(e.as_str());
            Err(s)
        },
    }
}

proof fn lemma_hex_text_is_its_bytes(a: Seq<u8>, b: Seq<u8>, n: nat)
    requires
        n <= a.len(),
        n <= b.len(),
        device::hex_text(a, n) == device::hex_text(b, n),
    ensures
        device::hex_text(a, n).len() == 2 * n,
        a.take(n as int) == b.take(n as int),
    decreases n,
{
    if n == 0 {
        assert(a.take(0) =~= b.take(0));
    } else {
        let m = (n - 1) as nat;
        let (p, q) = (device::hex_text(a, m), device::hex_text(b, m));
        let (s, t) = (device::hex_text(a, n), device::hex_text(b, n));
        assert(s.drop_last().drop_last() =~= p);
        assert(t.drop_last().drop_last() =~= q);
        lemma_hex_text_is_its_bytes(a, b, m);
        assert(s.last() == t.last());
        assert(s.drop_last().last() == t.drop_last().last());
        assert(a[n - 1] == b[n - 1]);
        assert forall|i: int| 0 <= i < n implies a.take(n as int)[i] == b.take(n as int)[i] by {
            if i < m {
                assert(a.take(m as int)[i] == b.take(m as int)[i]);
            }
        }
        assert(a.take(n as int) =~= b.take(n as int));
    }
}

/// Devices of one name are told apart by the last three bytes of their MAC addresses.
pub proof fn law_devices_of_one_name_are_told_apart(name: Seq<char>, a: Seq<u8>, b: Seq<u8>)
    requires
        a.len() == 6,
        b.len() == 6,
        node_name_of(name, a) == node_name_of(name, b),
    ensures
        a[3] == b[3],
        a[4] == b[4],
        a[5] == b[5],
        node_name_of(name, a).take(name.len() as int) == name,
{
    let (x, y) = (a.skip(3), b.skip(3));
    let head = name + "-"@;
    let (s, t) = (node_name_of(name, a), node_name_of(name, b));
    assert(s.skip(head.len() as int) =~= device::hex_text(x, 3));
    assert(t.skip(head.len() as int) =~= device::hex_text(y, 3));
    lemma_hex_text_is_its_bytes(x, y, 3);
    assert(x.take(3)[0] == y.take(3)[0]);
    assert(x.take(3)[1] == y.take(3)[1]);
    assert(x.take(3)[2] == y.take(3)[2]);
    assert(s.take(name.len() as int) =~= name);
}

} // verus!
