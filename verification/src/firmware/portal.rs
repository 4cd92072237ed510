//! Provisioning portal: who may read and change the settings, what a request is answered, and the
//! captive DNS responder that makes phones open the setup page.

use vstd::prelude::*;
use vstd::string::*;

use crate::api::noise;
use crate::firmware::settings::{Net, NetSettings};
use crate::firmware::wifi::AP_IP;
use crate::text;

verus! {

/// The largest body of a request to save settings.
pub const MAX_BODY: usize = 4096;

// ----- who asks --------------------------------------------------------------------------------------

/// The IPv4 address in a socket address of the peer, as the network stack lays it out: length,
/// family, port, then the address. An IPv6 address counts if it is IPv4-mapped
/// (`::ffff:a.b.c.d`).
pub open spec fn peer(raw: Seq<u8>, inet: u32, inet6: u32) -> Option<Seq<u8>> {
    if raw[1] == inet {
        Some(raw.subrange(4, 8))
    } else if raw[1] == inet6 && (forall|i: int| 8 <= i < 18 ==> #[trigger] raw[i] == 0) && raw[18]
        == 0xff && raw[19] == 0xff {
        Some(raw.subrange(20, 24))
    } else {
        None
    }
}

/// The peer's IPv4 address, from the raw socket address; `inet` and `inet6` are the numbers of
/// the two address families.
pub fn peer_ipv4(raw: &[u8; 32], inet: u32, inet6: u32) -> (r: Option<[u8; 4]>)
    ensures
        match peer(raw@, inet, inet6) {
            Some(ip) => r is Some && (r->0)@ == ip,
            None => r is None,
        },
{
    let family: u32 = raw[1] as u32;
    if family == inet {
        let ip = [raw[4], raw[5], raw[6], raw[7]];
        assert(ip@ =~= raw@.subrange(4, 8));
        Some(ip)
    } else if family == inet6 {
        let mut i: usize = 8;
        while i < 18
            invariant
                8 <= i <= 18,
                raw@[1] == inet6,
                raw@[1] != inet,
                forall|j: int| 8 <= j < i ==> #[trigger] raw@[j] == 0,
            decreases 18 - i,
        {
            if raw[i] != 0 {
                return None;
            }
            i += 1;
        }
        if raw[18] != 0xff || raw[19] != 0xff {
            return None;
        }
        let ip = [raw[20], raw[21], raw[22], raw[23]];
        assert(ip@ =~= raw@.subrange(20, 24));
        Some(ip)
    } else {
        None
    }
}

/// True when the request came in over the setup access point (client in 192.168.4.0/24). Goes by
/// the socket's peer address, which unlike the Host header cannot be spoofed from the LAN.
pub fn via_ap(peer: Option<[u8; 4]>) -> (r: bool)
    ensures
        r == (peer matches Some(ip) && ip@[0] == 192 && ip@[1] == 168 && ip@[2] == 4),
{
    match peer {
        Some(ip) => ip[0] == AP_IP[0] && ip[1] == AP_IP[1] && ip[2] == AP_IP[2],
        None => false,
    }
}

// ----- status ----------------------------------------------------------------------------------------

/// What the status page may show of the API key.
#[derive(Debug)]
pub struct KeyStatus {
    pub has_key: bool,
    /// The API key, only disclosed to clients connected through the setup access point.
    pub api_key: Option<String>,
}

/// What to show of the key to whoever asks.
pub fn key_status(current: &NetSettings, from_ap: bool, ap_active: bool) -> (r: KeyStatus)
    ensures
        r.has_key == (current@.psk_b64.len() > 0),
        match r.api_key {
            Some(k) => from_ap && ap_active && current@.psk_b64.len() > 0 && k@
                == current@.psk_b64,
            None => !from_ap || !ap_active || current@.psk_b64.len() == 0,
        },
{
    let has_key = !current.psk_b64.as_str().is_empty();
    let show_key = from_ap && ap_active && has_key;
    let api_key = if show_key {
        Some(current.psk_b64.clone())
    } else {
        None
    };
    KeyStatus { has_key, api_key }
}

// ----- saving ----------------------------------------------------------------------------------------

/// A request to save settings. What is left empty stays as it is.
#[derive(Debug)]
pub struct SaveRequest {
    pub ssid: String,
    pub password: String,
    pub name: String,
    pub friendly_name: String,
    pub api_key: String,
    pub current_key: String,
}

/// The length of a body is acceptable.
pub fn body_fits(len: usize) -> (r: bool)
    ensures
        r == (0 < len <= MAX_BODY),
{
    len > 0 && len <= MAX_BODY
}

/// What is left blank stays as it is.
pub open spec fn given(s: Seq<char>, current: Seq<char>) -> Seq<char> {
    if text::trimmed(s).len() == 0 {
        current
    } else {
        text::trimmed(s)
    }
}

/// Why a request is refused. `key_ok` says whether the new key can be used.
pub open spec fn refusal(req: SaveRequest, current: Net, from_ap: bool, key_ok: bool) -> Option<
    Seq<char>,
> {
    if !from_ap && current.psk_b64.len() > 0 && text::trimmed(req.current_key@)
        != current.psk_b64 {
        Some("current API key does not match"@)
    } else if text::trimmed(req.ssid@).len() == 0 {
        Some("ssid is required"@)
    } else if text::trimmed(req.api_key@).len() > 0 && !key_ok {
        Some("API key must be base64 of 32 bytes"@)
    } else {
        None
    }
}

/// `r` is what the settings become.
pub open spec fn saved(req: SaveRequest, current: Net, r: Net) -> bool {
    &&& r.ssid == text::trimmed(req.ssid@)
    &&& r.pass == req.password@
    &&& r.psk_b64 == given(req.api_key@, current.psk_b64)
    &&& r.friendly_name == given(req.friendly_name@, current.friendly_name)
    &&& r.name == (if text::trimmed(req.name@).len() == 0 {
        current.name
    } else {
        node_name(text::unicode_lowercase(text::trimmed(req.name@)))
    })
}

/// Over the LAN nothing is saved without the current key.
pub proof fn law_saving_over_the_lan_needs_the_key(req: SaveRequest, current: Net, key_ok: bool)
    requires
        current.psk_b64.len() > 0,
        text::trimmed(req.current_key@) != current.psk_b64,
    ensures
        refusal(req, current, false, key_ok) is Some,
{
}

/// Through the setup access point the current key is not asked for: whether a request is refused
/// does not depend on it.
pub proof fn law_the_setup_network_needs_no_key(
    req: SaveRequest,
    other: SaveRequest,
    current: Net,
    key_ok: bool,
)
    requires
        req.ssid == other.ssid,
        req.api_key == other.api_key,
    ensures
        refusal(req, current, true, key_ok) == refusal(other, current, true, key_ok),
{
}

fn given_or(s: &str, current: &String) -> (r: String)
    ensures
        r@ == given(s@, current@),
{
    let t = text::trim(s);
    if t.as_str().is_empty() {
        current.clone()
    } else {
        t
    }
}

/// What a request makes of the settings, if it may; `key_ok` says whether the new key can be
/// used. Over the LAN, changing settings requires the current API key. Through the setup access
/// point (physical button or factory reset) it is not required: whoever can press the button owns
/// the device, and the page shows the key there anyway.
pub fn decide_save(req: SaveRequest, current: &NetSettings, from_ap: bool, key_ok: bool) -> (r:
    Result<NetSettings, &'static str>)
    ensures
        match refusal(req, current@, from_ap, key_ok) {
            Some(e) => r is Err && r->Err_0@ == e,
            None => r is Ok && saved(req, current@, r->Ok_0@),
        },
{
    let current_key = text::trim(req.current_key.as_str());
    if !from_ap && !current.psk_b64.as_str().is_empty() && !text::same(
        current_key.as_str(),
        current.psk_b64.as_str(),
    ) {
        return Err("current API key does not match");
    }
    let ssid = text::trim(req.ssid.as_str());
    if ssid.as_str().is_empty() {
        return Err("ssid is required");
    }
    let api_key = text::trim(req.api_key.as_str());
    if !api_key.as_str().is_empty() && !key_ok {
        return Err("API key must be base64 of 32 bytes");
    }
    let name = text::trim(req.name.as_str());
    let psk_b64 = given_or(req.api_key.as_str(), &current.psk_b64);
    let friendly_name = given_or(req.friendly_name.as_str(), &current.friendly_name);
    let name = if name.as_str().is_empty() {
        current.name.clone()
    } else {
        sanitize_name(name.as_str())
    };
    Ok(NetSettings { ssid, pass: req.password, psk_b64, name, friendly_name })
}

/// What a request makes of the settings, or why it is refused.
pub fn save(req: SaveRequest, current: &NetSettings, from_ap: bool) -> (r: Result<
    NetSettings,
    &'static str,
>)
    ensures
        match refusal(
            req,
            current@,
            from_ap,
            noise::psk_of(text::trimmed(req.api_key@)) is Ok,
        ) {
            Some(e) => r is Err && r->Err_0@ == e,
            None => r is Ok && saved(req, current@, r->Ok_0@),
        },
{
    let key = text::trim(req.api_key.as_str());
    let key_ok = noise::parse_psk(key.as_str()).is_ok();
    decide_save(req, current, from_ap, key_ok)
}

/// The body of the answer to a request that is refused.
pub fn refusal_body(why: &str) -> (r: String)
    ensures
        r@ == "{\"ok\":false,\"error\":\""@ + why@ + "\"}"@,
{
    let mut s = String::from_str("{\"ok\":false,\"error\":\"");
    s.append(why);
    s.append("\"}");
    s
}

// ----- node names ------------------------------------------------------------------------------------

pub open spec fn is_plain(c: char) -> bool {
    ('0' <= c && c <= '9') || ('a' <= c && c <= 'z') || ('A' <= c && c <= 'Z')
}

/// Everything but letters and digits becomes a dash, and no dash stands at the start or beside
/// another.
pub open spec fn dashed(s: Seq<char>) -> Seq<char>
    decreases s.len(),
{
    if s.len() == 0 {
        seq![]
    } else {
        let p = dashed(s.drop_last());
        if is_plain(s.last()) {
            p.push(s.last())
        } else if p.len() == 0 || p.last() == '-' {
            p
        } else {
            p.push('-')
        }
    }
}

/// The node name of a text in lowercase: at most 24 characters, and not empty.
pub open spec fn node_name(low: Seq<char>) -> Seq<char> {
    let d = dashed(low);
    let t = if d.len() > 0 && d.last() == '-' {
        d.drop_last()
    } else {
        d
    };
    let n = if t.len() > 24 {
        t.take(24)
    } else {
        t
    };
    if n.len() == 0 {
        "relay6"@
    } else {
        n
    }
}

/// The name can be used as a host name.
pub open spec fn hostname_safe(n: Seq<char>) -> bool {
    &&& 0 < n.len() <= 24
    &&& n[0] != '-'
    &&& forall|i: int|
        0 <= i < n.len() ==> ('a' <= #[trigger] n[i] && n[i] <= 'z') || ('0' <= n[i] && n[i] <= '9')
            || n[i] == '-'
    &&& forall|i: int| 0 <= i < n.len() - 1 ==> !(#[trigger] n[i] == '-' && n[i + 1] == '-')
}

proof fn lemma_dashed(s: Seq<char>)
    requires
        forall|i: int| 0 <= i < s.len() ==> !('A' <= #[trigger] s[i] && s[i] <= 'Z'),
    ensures
        ({
            let d = dashed(s);
            &&& d.len() > 0 ==> d[0] != '-'
            &&& forall|i: int|
                0 <= i < d.len() ==> ('a' <= #[trigger] d[i] && d[i] <= 'z') || ('0' <= d[i] && d[i]
                    <= '9') || d[i] == '-'
            &&& forall|i: int| 0 <= i < d.len() - 1 ==> !(#[trigger] d[i] == '-' && d[i + 1] == '-')
        }),
    decreases s.len(),
{
    if s.len() > 0 {
        let h = s.drop_last();
        assert forall|i: int| 0 <= i < h.len() implies !('A' <= #[trigger] h[i] && h[i] <= 'Z') by {
            assert(h[i] == s[i]);
        }
        lemma_dashed(h);
        let (p, d) = (dashed(h), dashed(s));
        assert forall|i: int| 0 <= i < d.len() implies ('a' <= #[trigger] d[i] && d[i] <= 'z') || (
        '0' <= d[i] && d[i] <= '9') || d[i] == '-' by {
            if i < p.len() {
                assert(d[i] == p[i]);
            }
        }
        assert forall|i: int| 0 <= i < d.len() - 1 implies !(#[trigger] d[i] == '-' && d[i + 1]
            == '-') by {
            assert(d[i] == p[i]);
            if i + 1 < p.len() {
                assert(d[i + 1] == p[i + 1]);
            }
        }
        if p.len() > 0 {
            assert(d[0] == p[0]);
        }
    }
}

/// Node names must be hostname-safe: lowercase letters, digits and dashes, max 24 chars.
pub fn sanitize_name(s: &str) -> (r: String)
    ensures
        r@ == node_name(text::unicode_lowercase(s@)),
        hostname_safe(r@),
{
    let low = text::to_lowercase(s);
    let chars = text::chars_of(low.as_str());
    let mut out: Vec<char> = Vec::new();
    let mut i: usize = 0;
    while i < chars.len()
        invariant
            i <= chars@.len(),
            out@ == dashed(chars@.take(i as int)),
            out@.len() <= i,
        decreases chars.len() - i,
    {
        assert(chars@.take(i + 1).drop_last() =~= chars@.take(i as int));
        let c: char = chars[i];
        if (c >= '0' && c <= '9') || (c >= 'a' && c <= 'z') || (c >= 'A' && c <= 'Z') {
            out.push(c);
        } else if out.len() > 0 && out[out.len() - 1] != '-' {
            out.push('-');
        }
        i += 1;
    }
    assert(chars@.take(i as int) =~= low@);
    proof {
        lemma_dashed(low@);
    }
    let ghost d = out@;
    let mut n: usize = out.len();
    if n > 0 && out[n - 1] == '-' {
        n -= 1;
    }
    if n > 24 {
        n = 24;
    }
    if n == 0 {
        proof {
            reveal_strlit("relay6");
        }
        return String::from_str("relay6");
    }
    let r = text::string_of(&out, 0, n);
    proof {
        assert(r@ =~= node_name(low@));
        assert forall|j: int| 0 <= j < r@.len() implies ('a' <= #[trigger] r@[j] && r@[j] <= 'z')
            || ('0' <= r@[j] && r@[j] <= '9') || r@[j] == '-' by {
            assert(r@[j] == d[j]);
        }
        assert forall|j: int| 0 <= j < r@.len() - 1 implies !(#[trigger] r@[j] == '-' && r@[j + 1]
            == '-') by {
            assert(r@[j] == d[j] && r@[j + 1] == d[j + 1]);
        }
    }
    r
}

// ----- captive portal --------------------------------------------------------------------------------

/// The paths by which phones and laptops probe for a captive portal.
pub open spec fn probe_paths() -> Seq<Seq<char>> {
    seq![
        "/generate_204"@,
        "/gen_204"@,
        "/hotspot-detect.html"@,
        "/library/test/success.html"@,
        "/connecttest.txt"@,
        "/ncsi.txt"@,
        "/redirect"@,
        "/success.txt"@,
        "/canonical.html"@,
        "/check_network_status.txt"@,
    ]
}

/// The path begins like a probe.
pub open spec fn probes(uri: Seq<char>) -> bool {
    exists|i: int|
        0 <= i < probe_paths().len() && text::begins_with(uri, #[trigger] probe_paths()[i])
}

fn is_probe(uri: &str) -> (r: bool)
    ensures
        r == probes(uri@),
{
    let paths: [&'static str; 10] = [
        "/generate_204",
        "/gen_204",
        "/hotspot-detect.html",
        "/library/test/success.html",
        "/connecttest.txt",
        "/ncsi.txt",
        "/redirect",
        "/success.txt",
        "/canonical.html",
        "/check_network_status.txt",
    ];
    let mut i: usize = 0;
    while i < 10
        invariant
            i <= 10,
            forall|j: int| 0 <= j < 10 ==> (#[trigger] paths@[j])@ == probe_paths()[j],
            forall|j: int|
                0 <= j < i ==> !text::begins_with(uri@, #[trigger] probe_paths()[j]),
        decreases 10 - i,
    {
        if text::starts_with(uri, paths[i]) {
            assert(text::begins_with(uri@, probe_paths()[i as int]));
            return true;
        }
        i += 1;
    }
    false
}

/// An unknown path is bounced to the setup page: captive-portal probes and requests meant for
/// another host, while the access point is up. Otherwise it is not found.
pub fn bounces(ap_active: bool, uri: &str, host: Option<&str>) -> (r: bool)
    ensures
        r == (ap_active && (probes(uri@) || !(host matches Some(h) && text::begins_with(
            h@,
            "192.168.4.1"@,
        )))),
{
    let host_is_us = match host {
        Some(h) => text::starts_with(h, "192.168.4.1"),
        None => false,
    };
    let probe = is_probe(uri);
    ap_active && (probe || !host_is_us)
}

/// Where the name of a question ends that goes on at `i`.
pub open spec fn name_end(q: Seq<u8>, i: nat) -> nat
    decreases q.len() + 256 - i,
{
    if i < q.len() && q[i as int] != 0 {
        name_end(q, (i + q[i as int] + 1) as nat)
    } else {
        i
    }
}

/// The answer to a DNS query: the query's id, its question, and the access point's address.
pub open spec fn dns_answer(q: Seq<u8>, end: int) -> Seq<u8> {
    q.take(2) + seq![0x81u8, 0x80, 0, 1, 0, 1, 0, 0, 0, 0] + q.subrange(12, end) + seq![
        0xc0u8,
        0x0c,
        0,
        1,
        0,
        1,
        0,
        0,
        0,
        30,
        0,
        4,
        192,
        168,
        4,
        1,
    ]
}

/// Minimal DNS responder: answers every whole query with the access point's address while the
/// access point is active and the peer is one of its clients.
pub fn dns_reply(q: &[u8], ap_active: bool, peer: &str) -> (r: Option<Vec<u8>>)
    requires
        q@.len() + 300 <= usize::MAX,
    ensures
        match r {
            Some(a) => {
                &&& ap_active
                &&& text::begins_with(peer@, "192.168.4."@)
                &&& q@.len() >= 12
                &&& name_end(q@, 12) + 5 <= q@.len()
                &&& a@ == dns_answer(q@, (name_end(q@, 12) + 5) as int)
            },
            None => !ap_active || !text::begins_with(peer@, "192.168.4."@) || q@.len() < 12
                || name_end(q@, 12) + 5 > q@.len(),
        },
{
    if !ap_active || q.len() < 12 || !text::starts_with(peer, "192.168.4.") {
        return None;
    }
    let mut i: usize = 12;
    while i < q.len() && q[i] != 0
        invariant
            q@.len() + 300 <= usize::MAX,
            12 <= i <= q@.len() + 256,
            12 <= q@.len(),
            name_end(q@, 12) == name_end(q@, i as nat),
        decreases q@.len() + 256 - i,
    {
        i += q[i] as usize + 1;
    }
    let end: usize = i + 5;
    if end > q.len() {
        return None;
    }
    let mut a: Vec<u8> = Vec::new();
    let mut k: usize = 0;
    while k < 2
        invariant
            k <= 2,
            q@.len() >= 12,
            a@ == q@.take(k as int),
        decreases 2 - k,
    {
        a.push(q[k]);
        k += 1;
        assert(a@ =~= q@.take(k as int));
    }
    let flags: [u8; 10] = [0x81, 0x80, 0, 1, 0, 1, 0, 0, 0, 0];
    let answer: [u8; 16] = [0xc0, 0x0c, 0, 1, 0, 1, 0, 0, 0, 30, 0, 4, 192, 168, 4, 1];
    a.extend_from_slice(flags.as_slice());
    let ghost head = a@;
    let mut k: usize = 12;
    while k < end
        invariant
            12 <= k <= end <= q@.len(),
            a@ == head + q@.subrange(12, k as int),
        decreases end - k,
    {
        a.push(q[k]);
        k += 1;
        assert(a@ =~= head + q@.subrange(12, k as int));
    }
    a.extend_from_slice(answer.as_slice());
    assert(a@ =~= dns_answer(q@, end as int));
    Some(a)
}

// ----- laws ------------------------------------------------------------------------------------------

/// A client has the same address whether it comes over IPv4 or over IPv6 with an IPv4-mapped
/// address, and whether it is a client of the access point goes by the first three bytes of it.
pub proof fn law_mapped_addresses_are_their_own(
    plain: Seq<u8>,
    mapped: Seq<u8>,
    inet: u32,
    inet6: u32,
)
    requires
        plain.len() == 32,
        mapped.len() == 32,
        inet != inet6,
        plain[1] == inet,
        mapped[1] == inet6,
        forall|i: int| 8 <= i < 18 ==> #[trigger] mapped[i] == 0,
        mapped[18] == 0xff,
        mapped[19] == 0xff,
        forall|i: int| 0 <= i < 4 ==> #[trigger] plain[4 + i] == mapped[20 + i],
    ensures
        peer(plain, inet, inet6) == peer(mapped, inet, inet6),
        peer(plain, inet, inet6) == Some(seq![plain[4], plain[5], plain[6], plain[7]]),
{
    assert(plain.subrange(4, 8) =~= seq![plain[4], plain[5], plain[6], plain[7]]);
    assert forall|i: int| 0 <= i < 4 implies plain.subrange(4, 8)[i] == mapped.subrange(20, 24)[i] by {
        assert(plain[4 + i] == mapped[20 + i]);
    }
    assert(plain.subrange(4, 8) =~= mapped.subrange(20, 24));
}

/// A request that is not refused changes what it names and nothing else: the network and its
/// password are the ones asked for, and what is left blank stays as it was.
pub proof fn law_what_is_left_blank_stays(req: SaveRequest, current: Net, r: Net, blank: Seq<char>)
    requires
        saved(req, current, r),
        text::trimmed(blank).len() == 0,
    ensures
        r.pass == req.password@,
        req.name@ == blank ==> r.name == current.name,
        req.friendly_name@ == blank ==> r.friendly_name == current.friendly_name,
        req.api_key@ == blank ==> r.psk_b64 == current.psk_b64,
        text::trimmed(req.ssid@) == req.ssid@ ==> r.ssid == req.ssid@,
        req.friendly_name@.len() > 0 && text::trimmed(req.friendly_name@) == req.friendly_name@
            ==> r.friendly_name == req.friendly_name@,
        req.api_key@.len() > 0 && text::trimmed(req.api_key@) == req.api_key@ ==> r.psk_b64
            == req.api_key@,
{
}

/// A request with the right key, a network and no bad key is granted, wherever it comes from;
/// without a network none is.
pub proof fn law_a_proper_request_is_granted(
    req: SaveRequest,
    current: Net,
    from_ap: bool,
    key_ok: bool,
)
    ensures
        text::trimmed(req.current_key@) == current.psk_b64 && text::trimmed(req.ssid@).len() > 0
            && key_ok ==> refusal(req, current, from_ap, key_ok) is None,
        text::trimmed(req.ssid@).len() == 0 ==> refusal(req, current, from_ap, key_ok) is Some,
        text::trimmed(req.api_key@).len() > 0 && !key_ok ==> refusal(
            req,
            current,
            from_ap,
            key_ok,
        ) is Some,
{
}

/// A DNS answer is for the query that was asked: it has its id and its question, says that it is
/// an answer without error, and gives the access point's address, whatever the name.
pub proof fn law_every_name_leads_to_the_setup_page(q: Seq<u8>, end: int)
    requires
        12 <= end <= q.len(),
    ensures
        ({
            let a = dns_answer(q, end);
            let n = a.len();
            &&& n == end + 16
            &&& a[0] == q[0] && a[1] == q[1]
            &&& a[2] >= 0x80 && a[3] % 16 == 0
            &&& a[4] == 0 && a[5] == 1 && a[6] == 0 && a[7] == 1
            &&& a.subrange(12, end) == q.subrange(12, end)
            &&& a[n - 4] == 192 && a[n - 3] == 168 && a[n - 2] == 4 && a[n - 1] == 1
            &&& a[n - 6] == 0 && a[n - 5] == 4
        }),
{
    let a = dns_answer(q, end);
    assert(a.subrange(12, end) =~= q.subrange(12, end));
}

} // verus!
