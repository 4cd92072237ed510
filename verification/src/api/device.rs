//! Static device identity, as reported in `DeviceInfoResponse` and advertised over mDNS.

use vstd::prelude::*;

use crate::api::message::{ApiMessage, Value};
use crate::api::proto;
use crate::text;

verus! {

pub const NOISE_CIPHER_NAME: &'static str = "Noise_NNpsk0_25519_ChaChaPoly_SHA256";

#[derive(Debug, Clone)]
pub struct Device {
    /// mDNS host name and ESPHome node name: lowercase, `[a-z0-9-]`, e.g. `relay6-47abb0`.
    pub name: String,
    pub friendly_name: String,
    /// `aa:bb:cc:dd:ee:ff`, lowercase. HA uses it as the unique id.
    pub mac_address: String,
    pub model: String,
    pub manufacturer: String,
    /// Reported as `esphome_version`. HA parses it as a version, so keep it `x.y.z`.
    pub esphome_version: String,
    pub compilation_time: String,
    pub project_name: String,
    pub project_version: String,
    pub suggested_area: String,
    /// Whether Noise encryption is available (a PSK is configured).
    pub encryption: bool,
}

/// The characters of `s` other than `c`, in order.
pub open spec fn without(s: Seq<char>, c: char) -> Seq<char>
    decreases s.len(),
{
    if s.len() == 0 {
        seq![]
    } else if s.last() == c {
        without(s.drop_last(), c)
    } else {
        without(s.drop_last(), c).push(s.last())
    }
}

/// A string without one of its characters.
fn remove_char(s: &str, c: char) -> (r: String)
    ensures
        r@ == without(s@, c),
{
    let v = text::chars_of(s);
    let mut out = String::new();
    let mut i: usize = 0;
    assert(out@ =~= without(v@.take(0), c));
    while i < v.len()
        invariant
            i <= v@.len(),
            out@ == without(v@.take(i as int), c),
        decreases v.len() - i,
    {
        assert(v@.take(i + 1).drop_last() =~= v@.take(i as int));
        if v[i] != c {
            out.push(v[i]);
        }
        i += 1;
    }
    assert(v@.take(i as int) =~= v@);
    out
}

impl Device {
    /// The fields of the answer to a `DeviceInfoRequest`, in order.
    pub open spec fn info(&self) -> Seq<Value> {
        seq![
            Value::Flag(false),
            Value::Text(self.name@),
            Value::Text(text::unicode_uppercase(self.mac_address@)),
            Value::Text(self.esphome_version@),
            Value::Text(self.compilation_time@),
            Value::Text(self.model@),
            Value::Flag(false),
            Value::Text(self.project_name@),
            Value::Text(self.project_version@),
            Value::Uint(0),
            Value::Text(self.manufacturer@),
            Value::Text(self.friendly_name@),
            Value::Text(self.suggested_area@),
            Value::Flag(self.encryption),
        ]
    }

    pub fn device_info(&self) -> (r: proto::DeviceInfoResponse)
        ensures
            r.values() == self.info(),
            text::ascii_only(self.mac_address@) ==> r.mac_address@ == text::ascii_upper(
                self.mac_address@,
            ),
    {
        proto::DeviceInfoResponse {
            uses_password: false,
            name: self.name.clone(),
            // HA stores this as the unique id; ESPHome sends it uppercase with colons.
            mac_address: text::to_uppercase(self.mac_address.as_str()),
            esphome_version: self.esphome_version.clone(),
            compilation_time: self.compilation_time.clone(),
            model: self.model.clone(),
            has_deep_sleep: false,
            project_name: self.project_name.clone(),
            project_version: self.project_version.clone(),
            webserver_port: 0,
            manufacturer: self.manufacturer.clone(),
            friendly_name: self.friendly_name.clone(),
            suggested_area: self.suggested_area.clone(),
            api_encryption_supported: self.encryption,
        }
    }

    /// The TXT records of the `_esphomelib._tcp` mDNS service, by name.
    pub open spec fn txt(&self) -> Seq<(Seq<char>, Seq<char>)> {
        (if self.encryption {
            seq![("api_encryption"@, NOISE_CIPHER_NAME@)]
        } else {
            seq![]
        }) + seq![
            ("board"@, self.model@),
            ("friendly_name"@, self.friendly_name@),
            ("mac"@, self.compact()),
            ("network"@, "wifi"@),
            ("platform"@, "ESP32"@),
            ("project_name"@, self.project_name@),
            ("project_version"@, self.project_version@),
            ("version"@, self.esphome_version@),
        ]
    }

    /// TXT records for the `_esphomelib._tcp` mDNS service, in the order of their names.
    pub fn mdns_txt(&self) -> (r: Vec<(&'static str, String)>)
        ensures
            r@.map_values(|x: (&'static str, String)| (x.0@, x.1@)) == self.txt(),
    {
        let mut t: Vec<(&'static str, String)> = Vec::new();
        if self.encryption {
            t.push(("api_encryption", NOISE_CIPHER_NAME.to_owned()));
        }
        t.push(("board", self.model.clone()));
        t.push(("friendly_name", self.friendly_name.clone()));
        t.push(("mac", self.mac_compact()));
        t.push(("network", "wifi".to_owned()));
        t.push(("platform", "ESP32".to_owned()));
        t.push(("project_name", self.project_name.clone()));
        t.push(("project_version", self.project_version.clone()));
        t.push(("version", self.esphome_version.clone()));
        assert(t@.map_values(|x: (&'static str, String)| (x.0@, x.1@)) =~= self.txt());
        t
    }

    /// The MAC without separators, lowercase.
    pub open spec fn compact(&self) -> Seq<char> {
        text::unicode_lowercase(without(self.mac_address@, ':'))
    }

    /// `mac` in the compact form HA expects in TXT records and unique ids.
    pub fn mac_compact(&self) -> (r: String)
        ensures
            r@ == self.compact(),
            text::ascii_only(without(self.mac_address@, ':')) ==> r@ == text::ascii_lower(
                without(self.mac_address@, ':'),
            ),
    {
        let s = remove_char(self.mac_address.as_str(), ':');
        text::to_lowercase(s.as_str())
    }
}

/// A hexadecimal digit, lowercase.
pub open spec fn hex_digit(d: u8) -> char {
    if d < 10 {
        (d + 48) as char
    } else {
        (d + 87) as char
    }
}

/// The first `n` bytes in hexadecimal, with colons between them.
pub open spec fn mac_text(mac: Seq<u8>, n: nat) -> Seq<char>
    decreases n,
{
    if n == 0 {
        seq![]
    } else {
        let before = mac_text(mac, (n - 1) as nat);
        (if n == 1 {
            before
        } else {
            before.push(':')
        }).push(hex_digit(mac[n - 1] / 16)).push(hex_digit(mac[n - 1] % 16))
    }
}

fn hex(d: u8) -> (r: char)
    requires
        d < 16,
    ensures
        r == hex_digit(d),
{
    if d < 10 {
        (d + 48) as char
    } else {
        (d + 87) as char
    }
}

pub fn mac_from_bytes(mac: &[u8; 6]) -> (r: String)
    ensures
        r@ == mac_text(mac@, 6),
{
    let mut out = String::new();
    let mut i: usize = 0;
    assert(out@ =~= mac_text(mac@, 0));
    while i < 6
        invariant
            i <= 6,
            out@ == mac_text(mac@, i as nat),
        decreases 6 - i,
    {
        if i > 0 {
            out.push(':');
        }
        out.push(hex(mac[i] / 16));
        out.push(hex(mac[i] % 16));
        i += 1;
    }
    out
}

/// The first `n` bytes in hexadecimal.
pub open spec fn hex_text(mac: Seq<u8>, n: nat) -> Seq<char>
    decreases n,
{
    if n == 0 {
        seq![]
    } else {
        hex_text(mac, (n - 1) as nat).push(hex_digit(mac[n - 1] / 16)).push(
            hex_digit(mac[n - 1] % 16),
        )
    }
}

/// The compact form of a MAC is its bytes in hexadecimal and nothing else: two lowercase digits
/// each.
pub proof fn law_compact_mac_is_its_hex_digits(mac: Seq<u8>, n: nat)
    requires
        n <= mac.len(),
    ensures
        without(mac_text(mac, n), ':') == hex_text(mac, n),
        hex_text(mac, n).len() == 2 * n,
        text::ascii_only(hex_text(mac, n)),
        text::ascii_lower(hex_text(mac, n)) == hex_text(mac, n),
    decreases n,
{
    if n > 0 {
        let m = (n - 1) as nat;
        law_compact_mac_is_its_hex_digits(mac, m);
        let before = mac_text(mac, m);
        let head = if n == 1 {
            before
        } else {
            before.push(':')
        };
        let (hi, lo) = (hex_digit(mac[n - 1] / 16), hex_digit(mac[n - 1] % 16));
        assert(before.push(':').drop_last() =~= before);
        assert(head.push(hi).drop_last() =~= head);
        assert(mac_text(mac, n).drop_last() =~= head.push(hi));
        assert(without(head.push(hi), ':') == without(head, ':').push(hi));
        assert(without(head, ':') == without(before, ':'));
    }
    assert(text::ascii_lower(hex_text(mac, n)) =~= hex_text(mac, n));
}

} // verus!
