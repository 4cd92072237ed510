//! Persistent settings: what is stored under which name, and which settings a device starts with.

use vstd::prelude::*;
use vstd::string::*;

verus! {

#[derive(Debug, Clone)]
pub struct NetSettings {
    pub ssid: String,
    pub pass: String,
    /// Base64 ESPHome API encryption key; empty = plaintext API.
    pub psk_b64: String,
    /// Device name prefix; the final node name is `<name>-<mac6>`.
    pub name: String,
    pub friendly_name: String,
}

/// [`NetSettings`], as contracts speak of them.
pub struct Net {
    pub ssid: Seq<char>,
    pub pass: Seq<char>,
    pub psk_b64: Seq<char>,
    pub name: Seq<char>,
    pub friendly_name: Seq<char>,
}

impl View for NetSettings {
    type V = Net;

    open spec fn view(&self) -> Net {
        Net {
            ssid: self.ssid@,
            pass: self.pass@,
            psk_b64: self.psk_b64@,
            name: self.name@,
            friendly_name: self.friendly_name@,
        }
    }
}

/// A text that may be missing.
pub open spec fn text_of(s: Option<String>) -> Option<Seq<char>> {
    match s {
        Some(s) => Some(s@),
        None => None,
    }
}

pub open spec fn or(s: Option<Seq<char>>, default: Seq<char>) -> Seq<char> {
    match s {
        Some(s) => s,
        None => default,
    }
}

/// The settings that stored texts make: none without a network name, and defaults for the rest.
pub open spec fn assembled(
    ssid: Option<Seq<char>>,
    pass: Option<Seq<char>>,
    psk: Option<Seq<char>>,
    name: Option<Seq<char>>,
    friendly: Option<Seq<char>>,
) -> Option<Net> {
    match ssid {
        Some(ssid) => Some(
            Net {
                ssid,
                pass: or(pass, seq![]),
                psk_b64: or(psk, seq![]),
                name: or(name, "relay6"@),
                friendly_name: or(friendly, "Relay board"@),
            },
        ),
        None => None,
    }
}

fn or_default(s: Option<String>, default: &str) -> (r: String)
    ensures
        r@ == or(text_of(s), default@),
{
    match s {
        Some(s) => s,
        None => default.to_owned(),
    }
}

impl NetSettings {
    /// The settings of a device that has none: no network, no key.
    pub fn unset() -> (r: NetSettings)
        ensures
            r@ == blank(),
    {
        NetSettings {
            ssid: String::new(),
            pass: String::new(),
            psk_b64: String::new(),
            name: String::from_str("relay6"),
            friendly_name: String::from_str("Relay board"),
        }
    }

    /// Settings from the stored texts, or from those compiled in.
    pub fn assemble(
        ssid: Option<String>,
        pass: Option<String>,
        psk: Option<String>,
        name: Option<String>,
        friendly: Option<String>,
    ) -> (r: Option<NetSettings>)
        ensures
            match assembled(
                text_of(ssid),
                text_of(pass),
                text_of(psk),
                text_of(name),
                text_of(friendly),
            ) {
                Some(n) => r is Some && (r->0)@ == n,
                None => r is None,
            },
    {
        let ssid = match ssid {
            Some(s) => s,
            None => return None,
        };
        let empty = "";
        proof {
            reveal_strlit("");
            assert(empty@ =~= seq![]);
        }
        Some(
            NetSettings {
                ssid,
                pass: or_default(pass, empty),
                psk_b64: or_default(psk, empty),
                name: or_default(name, "relay6"),
                friendly_name: or_default(friendly, "Relay board"),
            },
        )
    }

    /// The same settings again.
    pub fn copy(&self) -> (r: NetSettings)
        ensures
            r@ == self@,
    {
        NetSettings {
            ssid: self.ssid.clone(),
            pass: self.pass.clone(),
            psk_b64: self.psk_b64.clone(),
            name: self.name.clone(),
            friendly_name: self.friendly_name.clone(),
        }
    }

    /// What is stored under which name.
    pub fn entries(&self) -> (r: Vec<(&'static str, String)>)
        ensures
            r@.map_values(|x: (&'static str, String)| (x.0@, x.1@)) == stored(self@),
    {
        let mut v: Vec<(&'static str, String)> = Vec::new();
        v.push(("ssid", self.ssid.clone()));
        v.push(("pass", self.pass.clone()));
        v.push(("psk", self.psk_b64.clone()));
        v.push(("name", self.name.clone()));
        v.push(("friendly", self.friendly_name.clone()));
        assert(v@.map_values(|x: (&'static str, String)| (x.0@, x.1@)) =~= stored(self@));
        v
    }
}

/// What is stored under which name.
pub open spec fn stored(n: Net) -> Seq<(Seq<char>, Seq<char>)> {
    seq![
        ("ssid"@, n.ssid),
        ("pass"@, n.pass),
        ("psk"@, n.psk_b64),
        ("name"@, n.name),
        ("friendly"@, n.friendly_name),
    ]
}

/// The settings of a device without any.
pub open spec fn blank() -> Net {
    Net {
        ssid: seq![],
        pass: seq![],
        psk_b64: seq![],
        name: "relay6"@,
        friendly_name: "Relay board"@,
    }
}

/// The fingerprint of the compiled-in secrets differs from the recorded one. Without compiled-in
/// secrets it never does.
pub open spec fn differs(seed_hash: Option<Seq<char>>, recorded: Option<Seq<char>>) -> bool {
    seed_hash is Some && recorded != seed_hash
}

/// The settings to start with: the seed if it changed, else what is stored, else none.
pub open spec fn started(stored: Option<Net>, seed_changed: bool, seed: Option<Net>) -> Net {
    if seed_changed && seed is Some {
        seed->0
    } else {
        match stored {
            Some(n) => n,
            None => blank(),
        }
    }
}

/// The settings with the fresh key, if they have none.
pub open spec fn with_key(net: Net, fresh: Seq<char>) -> Net {
    if net.psk_b64.len() == 0 {
        Net { psk_b64: fresh, ..net }
    } else {
        net
    }
}

pub open spec fn net_of(s: Option<NetSettings>) -> Option<Net> {
    match s {
        Some(s) => Some(s@),
        None => None,
    }
}

/// The compiled-in secrets differ from the ones last seeded. Without compiled-in secrets they
/// never do.
pub fn seed_changed(seed_hash: Option<&str>, recorded: Option<&str>) -> (r: bool)
    ensures
        r == differs(
            match seed_hash {
                Some(h) => Some(h@),
                None => None,
            },
            match recorded {
                Some(x) => Some(x@),
                None => None,
            },
        ),
{
    match seed_hash {
        Some(h) => match recorded {
            Some(x) => !crate::text::same(x, h),
            None => true,
        },
        None => false,
    }
}

/// Which settings a device starts with.
#[derive(Debug)]
pub struct Start {
    pub net: NetSettings,
    /// They come from the compiled-in secrets, and are to be stored and marked as seeded.
    pub seeded: bool,
}

/// The seed is applied only while its fingerprint differs from the one recorded, that is on a
/// never-seeded device or after it changed. A factory reset records the current fingerprint, so
/// a wiped device stays wiped and opens the setup access point instead.
pub fn start_with(stored: Option<NetSettings>, seed_changed: bool, seed: Option<NetSettings>) -> (r:
    Start)
    ensures
        r.seeded == (seed_changed && seed is Some),
        r.net@ == started(net_of(stored), seed_changed, net_of(seed)),
{
    if seed_changed {
        if let Some(seed) = seed {
            return Start { net: seed, seeded: true };
        }
    }
    match stored {
        Some(net) => Start { net, seeded: false },
        None => Start { net: NetSettings::unset(), seeded: false },
    }
}

/// Never run without encryption: a device without a key gets the fresh one. The result says
/// whether it did, and then the settings are to be stored.
pub fn ensure_key(net: NetSettings, fresh: String) -> (r: (NetSettings, bool))
    ensures
        r.1 == (net@.psk_b64.len() == 0),
        r.0@ == with_key(net@, fresh@),
{
    if net.psk_b64.as_str().is_empty() {
        (NetSettings { psk_b64: fresh, ..net }, true)
    } else {
        (net, false)
    }
}

/// What a factory reset removes from the network settings: everything a new owner should not
/// inherit.
pub fn reset_net_keys() -> (r: Vec<&'static str>)
    ensures
        r@.map_values(|s: &'static str| s@) == seq![
            "ssid"@,
            "pass"@,
            "psk"@,
            "name"@,
            "friendly"@,
        ],
{
    let r: Vec<&'static str> = vec!["ssid", "pass", "psk", "name", "friendly"];
    assert(r@.map_values(|s: &'static str| s@) =~= seq![
        "ssid"@,
        "pass"@,
        "psk"@,
        "name"@,
        "friendly"@,
    ]);
    r
}

/// What a factory reset removes from the controller's settings: configuration, schedule and
/// timezone.
pub fn reset_relay_keys() -> (r: Vec<&'static str>)
    ensures
        r@.map_values(|s: &'static str| s@) == seq!["cfg"@, "sched"@, "tz"@],
{
    let r: Vec<&'static str> = vec!["cfg", "sched", "tz"];
    assert(r@.map_values(|s: &'static str| s@) =~= seq!["cfg"@, "sched"@, "tz"@]);
    r
}

/// A stored timezone counts unless it is empty.
pub fn stored_tz(tz: Option<String>) -> (r: Option<String>)
    ensures
        match tz {
            Some(t) => if t@.len() > 0 {
                r is Some && (r->0)@ == t@
            } else {
                r is None
            },
            None => r is None,
        },
{
    match tz {
        Some(t) => {
            if t.as_str().is_empty() {
                None
            } else {
                Some(t)
            }
        },
        None => None,
    }
}

/// The timezone to start with: the stored one, else that of the stored schedule, if it has one.
pub fn first_tz(stored: Option<String>, schedule_tz: &str) -> (r: Option<String>)
    ensures
        match stored {
            Some(t) if t@.len() > 0 => r is Some && (r->0)@ == t@,
            _ => if schedule_tz@.len() > 0 {
                r is Some && (r->0)@ == schedule_tz@
            } else {
                r is None
            },
        },
{
    match stored_tz(stored) {
        Some(t) => Some(t),
        None => if schedule_tz.is_empty() {
            None
        } else {
            Some(schedule_tz.to_owned())
        },
    }
}

/// Settings that were stored are read back the same.
pub proof fn law_settings_are_read_back(n: Net)
    ensures
        ({
            let s = stored(n);
            assembled(Some(s[0].1), Some(s[1].1), Some(s[2].1), Some(s[3].1), Some(s[4].1)) == Some(
                n,
            )
        }),
{
}

/// A device never runs without a key.
pub proof fn law_every_device_has_a_key(net: Net, fresh: Seq<char>)
    requires
        fresh.len() > 0,
    ensures
        with_key(net, fresh).psk_b64.len() > 0,
{
}

/// The seed is applied once: as long as the recorded fingerprint is that of the compiled-in
/// secrets, what is stored is kept.
pub proof fn law_the_seed_is_applied_once(
    net: Net,
    seed_hash: Option<Seq<char>>,
    seed: Option<Net>,
)
    ensures
        started(Some(net), differs(seed_hash, seed_hash), seed) == net,
{
}

/// A reset device stays blank: with its entries removed and the fingerprint recorded, it starts
/// without credentials, under the default names and with a new key, whatever was compiled in.
pub proof fn law_a_reset_device_starts_blank(
    seed_hash: Option<Seq<char>>,
    seed: Option<Net>,
    fresh: Seq<char>,
)
    ensures
        with_key(
            started(assembled(None, None, None, None, None), differs(seed_hash, seed_hash), seed),
            fresh,
        ) == (Net { psk_b64: fresh, ..blank() }),
{
}

} // verus!
