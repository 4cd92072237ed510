//! The WiFi manager's decisions: a station with automatic reconnect, an optional access point for
//! the provisioning portal, scans on request. The application polls it every 500 ms.

use vstd::prelude::*;
use vstd::string::*;
use vstd::utf8::*;

use crate::safeguard;
use crate::text;

verus! {

pub const AP_IP: [u8; 4] = [192, 168, 4, 1];

pub const AP_PASSWORD: &'static str = "relay6setup";

/// An attempt to join a network is given up after this long.
pub const CONNECT_TIMEOUT: u64 = 20_000;

/// The first pause between two attempts; it doubles with each attempt that is given up.
pub const FIRST_PAUSE: u64 = 2_000;

/// The longest pause between two attempts.
pub const LONGEST_PAUSE: u64 = 60_000;

#[derive(Debug)]
pub enum WifiCmd {
    /// Use these station credentials from now on (empty ssid = station off).
    SetStation { ssid: String, pass: String },
    StartAp,
    StopAp,
    Scan,
}

/// A [`WifiCmd`], as contracts speak of it.
pub enum Wish {
    SetStation { ssid: Seq<char>, pass: Seq<char> },
    StartAp,
    StopAp,
    Scan,
}

impl View for WifiCmd {
    type V = Wish;

    open spec fn view(&self) -> Wish {
        match self {
            WifiCmd::SetStation { ssid, pass } => Wish::SetStation { ssid: ssid@, pass: pass@ },
            WifiCmd::StartAp => Wish::StartAp,
            WifiCmd::StopAp => Wish::StopAp,
            WifiCmd::Scan => Wish::Scan,
        }
    }
}

// ----- scan results ----------------------------------------------------------------------------------

/// How an access point protects its network.
#[derive(Debug, Clone, Copy, PartialEq, Eq, Structural)]
pub enum Auth {
    Open,
    Protected,
}

/// An access point that a scan found.
#[derive(Debug)]
pub struct Found {
    pub ssid: String,
    pub rssi: i8,
    pub channel: u8,
    pub auth: Option<Auth>,
}

#[derive(Debug, Clone)]
pub struct ApSummary {
    pub ssid: String,
    pub rssi: i8,
    pub channel: u8,
    pub secure: bool,
}

/// An [`ApSummary`], as contracts speak of it.
pub struct Network {
    pub ssid: Seq<char>,
    pub rssi: i8,
    pub channel: u8,
    pub secure: bool,
}

impl View for ApSummary {
    type V = Network;

    open spec fn view(&self) -> Network {
        Network { ssid: self.ssid@, rssi: self.rssi, channel: self.channel, secure: self.secure }
    }
}

/// What is shown of an access point.
pub open spec fn summary(f: Found) -> Network {
    Network {
        ssid: f.ssid@,
        rssi: f.rssi,
        channel: f.channel,
        secure: f.auth == Some(Auth::Protected),
    }
}

/// Access point `k` is shown: it has a name, and none of that name is stronger, or as strong and
/// found before.
pub open spec fn shown(found: Seq<Found>, k: int) -> bool {
    &&& 0 <= k < found.len()
    &&& found[k].ssid@.len() > 0
    &&& forall|j: int|
        #![trigger found[j]]
        0 <= j < found.len() && j != k && found[j].ssid@ == found[k].ssid@ ==> found[j].rssi
            < found[k].rssi || (found[j].rssi == found[k].rssi && k < j)
}

/// `a` is listed before `b`: stronger, or as strong and first by name.
pub open spec fn ahead(a: Network, b: Network) -> bool {
    a.rssi > b.rssi || (a.rssi == b.rssi && text::precedes(a.ssid, b.ssid))
}

pub open spec fn networks(v: Seq<ApSummary>) -> Seq<Network> {
    v.map_values(|a: ApSummary| a@)
}

/// The network is what is shown of one of the first `n` access points.
pub open spec fn among(found: Seq<Found>, n: int, a: Network) -> bool {
    exists|k: int| k < n && #[trigger] shown(found, k) && a == summary(found[k])
}

/// The list is in order, and holds exactly what is shown of the first `n` access points.
pub open spec fn lists(list: Seq<Network>, found: Seq<Found>, n: int) -> bool {
    &&& forall|i: int, j: int|
        0 <= i < j < list.len() ==> ahead(#[trigger] list[i], #[trigger] list[j])
    &&& forall|i: int|
        0 <= i < list.len() ==> among(found, n, #[trigger] list[i])
    &&& forall|k: int|
        #![trigger shown(found, k)]
        k < n && shown(found, k) ==> list.contains(summary(found[k]))
}

/// Access point `k` is shown.
fn is_shown(found: &Vec<Found>, k: usize) -> (r: bool)
    requires
        k < found@.len(),
    ensures
        r == shown(found@, k as int),
{
    if found[k].ssid.as_str().is_empty() {
        return false;
    }
    let mut j: usize = 0;
    while j < found.len()
        invariant
            j <= found@.len(),
            k < found@.len(),
            forall|i: int|
                #![trigger found@[i]]
                0 <= i < j && i != k && found@[i].ssid@ == found@[k as int].ssid@ ==> found@[i].rssi
                    < found@[k as int].rssi || (found@[i].rssi == found@[k as int].rssi && k < i),
        decreases found.len() - j,
    {
        if j != k && text::same(found[j].ssid.as_str(), found[k].ssid.as_str()) {
            if !(found[j].rssi < found[k].rssi || (found[j].rssi == found[k].rssi && k < j)) {
                assert(found@[j as int].ssid@ == found@[k as int].ssid@);
                return false;
            }
        }
        j += 1;
    }
    true
}

fn is_ahead(a: &ApSummary, b: &ApSummary) -> (r: bool)
    ensures
        r == ahead(a@, b@),
{
    a.rssi > b.rssi || (a.rssi == b.rssi && text::comes_before(a.ssid.as_str(), b.ssid.as_str()))
}

proof fn lemma_two_shown(found: Seq<Found>, k: int, j: int)
    requires
        shown(found, k),
        shown(found, j),
        k != j,
    ensures
        found[k].ssid@ != found[j].ssid@,
{
    let (a, b) = (found[k], found[j]);
}

/// Put a network in its place in the list.
fn insert(list: &mut Vec<ApSummary>, a: ApSummary)
    requires
        forall|i: int, j: int|
            0 <= i < j < old(list)@.len() ==> ahead(
                #[trigger] networks(old(list)@)[i],
                #[trigger] networks(old(list)@)[j],
            ),
        forall|i: int| 0 <= i < old(list)@.len() ==> (#[trigger] old(list)@[i])@.ssid != a@.ssid,
    ensures
        exists|at: int|
            0 <= at <= old(list)@.len() && networks(final(list)@) == #[trigger] networks(
                old(list)@,
            ).insert(at, a@),
        forall|i: int, j: int|
            0 <= i < j < final(list)@.len() ==> ahead(
                #[trigger] networks(final(list)@)[i],
                #[trigger] networks(final(list)@)[j],
            ),
{
    let ghost before = networks(list@);
    let mut at: usize = 0;
    while at < list.len() && !is_ahead(&a, &list[at])
        invariant
            at <= list@.len(),
            before == networks(list@),
            forall|i: int| 0 <= i < at ==> !ahead(a@, #[trigger] before[i]),
        decreases list.len() - at,
    {
        at += 1;
    }
    proof {
        assert forall|i: int| 0 <= i < at implies ahead(#[trigger] before[i], a@) by {
            assert(list@[i]@.ssid != a@.ssid);
            text::lemma_precedes(a@.ssid, before[i].ssid, a@.ssid);
        }
        assert forall|i: int| at <= i < before.len() implies ahead(a@, #[trigger] before[i]) by {
            if i > at {
                assert(ahead(before[at as int], before[i]));
                text::lemma_precedes(a@.ssid, before[at as int].ssid, before[i].ssid);
            }
        }
    }
    list.insert(at, a);
    proof {
        let after = networks(list@);
        assert(after =~= before.insert(at as int, a@));
        assert forall|i: int, j: int| 0 <= i < j < after.len() implies ahead(
            #[trigger] after[i],
            #[trigger] after[j],
        ) by {
            let x = if i < at {
                i
            } else {
                i - 1
            };
            let y = if j < at {
                j
            } else {
                j - 1
            };
            if i != at && j != at {
                assert(after[i] == before[x] && after[j] == before[y]);
            } else if i == at {
                assert(after[j] == before[y]);
            } else {
                assert(after[i] == before[x]);
            }
        }
    }
}

/// What the setup page lists after a scan: the strongest access point of each name, strongest
/// first.
pub fn scan_list(found: Vec<Found>) -> (r: Vec<ApSummary>)
    ensures
        lists(networks(r@), found@, found@.len() as int),
{
    let mut list: Vec<ApSummary> = Vec::new();
    let mut k: usize = 0;
    while k < found.len()
        invariant
            k <= found@.len(),
            lists(networks(list@), found@, k as int),
        decreases found.len() - k,
    {
        let ghost before = networks(list@);
        if is_shown(&found, k) {
            let f = &found[k];
            let a = ApSummary {
                ssid: f.ssid.clone(),
                rssi: f.rssi,
                channel: f.channel,
                secure: f.auth == Some(Auth::Protected),
            };
            assert(a@ == summary(found@[k as int]));
            proof {
                assert forall|i: int| 0 <= i < list@.len() implies (#[trigger] list@[i])@.ssid
                    != a@.ssid by {
                    assert(before[i] == list@[i]@);
                    let j = choose|j: int|
                        j < k && #[trigger] shown(found@, j) && before[i] == summary(found@[j]);
                    lemma_two_shown(found@, k as int, j);
                }
            }
            insert(&mut list, a);
            proof {
                let after = networks(list@);
                let at = choose|at: int|
                    0 <= at <= before.len() && after == #[trigger] before.insert(at, a@);
                assert forall|i: int| 0 <= i < after.len() implies among(
                    found@,
                    k + 1,
                    #[trigger] after[i],
                ) by {
                    if i == at {
                        assert(shown(found@, k as int));
                    } else {
                        let x = if i < at {
                            i
                        } else {
                            i - 1
                        };
                        assert(after[i] == before[x]);
                        assert(among(found@, k as int, before[x]));
                    }
                }
                assert forall|j: int|
                    #![trigger shown(found@, j)]
                    j < k + 1 && shown(found@, j) implies after.contains(summary(found@[j])) by {
                    if j == k {
                        assert(after[at] == a@);
                    } else {
                        let x = choose|x: int|
                            0 <= x < before.len() && before[x] == summary(found@[j]);
                        if x < at {
                            assert(after[x] == before[x]);
                        } else {
                            assert(after[x + 1] == before[x]);
                        }
                    }
                }
            }
        }
        k += 1;
    }
    list
}

// ----- configuration ---------------------------------------------------------------------------------

/// Which sides of the radio are on.
#[derive(Debug, Clone, Copy, PartialEq, Eq, Structural)]
pub enum RadioMode {
    Off,
    Station,
    /// The station side stays enabled together with the access point even without credentials:
    /// the chip can only scan for networks while station mode is on, and the setup page needs
    /// that list. Without an SSID the station simply never connects.
    StationAndAp,
}

pub open spec fn radio_mode(ssid: Seq<char>, ap_active: bool) -> RadioMode {
    if ap_active {
        RadioMode::StationAndAp
    } else if ssid.len() > 0 {
        RadioMode::Station
    } else {
        RadioMode::Off
    }
}

/// What does not fit the radio: a name has 32 bytes, a password 64.
pub open spec fn misfit(
    ssid: Seq<char>,
    pass: Seq<char>,
    ap_active: bool,
    ap_ssid: Seq<char>,
) -> Option<Seq<char>> {
    if radio_mode(ssid, ap_active) == RadioMode::Off {
        None
    } else if encode_utf8(ssid).len() > 32 {
        Some("ssid too long"@)
    } else if encode_utf8(pass).len() > 64 {
        Some("password too long"@)
    } else if ap_active && encode_utf8(ap_ssid).len() > 32 {
        Some("ap ssid too long"@)
    } else {
        None
    }
}

/// How to configure the radio, or what does not fit it.
pub fn configure(ssid: &str, pass: &str, ap_active: bool, ap_ssid: &str) -> (r: Result<
    RadioMode,
    &'static str,
>)
    ensures
        match misfit(ssid@, pass@, ap_active, ap_ssid@) {
            Some(e) => r is Err && r->Err_0@ == e,
            None => r == Ok::<RadioMode, &'static str>(radio_mode(ssid@, ap_active)),
        },
{
    let mode = if ap_active {
        RadioMode::StationAndAp
    } else if !ssid.is_empty() {
        RadioMode::Station
    } else {
        RadioMode::Off
    };
    if mode == RadioMode::Off {
        return Ok(mode);
    }
    if ssid.as_bytes().len() > 32 {
        return Err("ssid too long");
    }
    if pass.as_bytes().len() > 64 {
        return Err("password too long");
    }
    if ap_active && ap_ssid.as_bytes().len() > 32 {
        return Err("ap ssid too long");
    }
    Ok(mode)
}

/// The station's network is protected if there is a password.
pub fn station_auth(pass: &str) -> (r: Auth)
    ensures
        r == (if pass@.len() == 0 {
            Auth::Open
        } else {
            Auth::Protected
        }),
{
    if pass.is_empty() {
        Auth::Open
    } else {
        Auth::Protected
    }
}

// ----- the station -----------------------------------------------------------------------------------

/// What others see of the radio.
#[derive(Debug)]
pub struct WifiState {
    pub scan: Vec<ApSummary>,
    pub sta_connected: bool,
    pub sta_ip: String,
    pub sta_ssid: String,
    pub ap_active: bool,
    pub last_error: String,
}

/// A [`WifiState`], as contracts speak of it.
pub struct Outlook {
    pub scan: Seq<Network>,
    pub sta_connected: bool,
    pub sta_ip: Seq<char>,
    pub sta_ssid: Seq<char>,
    pub ap_active: bool,
    pub last_error: Seq<char>,
}

impl View for WifiState {
    type V = Outlook;

    open spec fn view(&self) -> Outlook {
        Outlook {
            scan: networks(self.scan@),
            sta_connected: self.sta_connected,
            sta_ip: self.sta_ip@,
            sta_ssid: self.sta_ssid@,
            ap_active: self.ap_active,
            last_error: self.last_error@,
        }
    }
}

impl Default for WifiState {
    fn default() -> (r: Self)
        ensures
            r@ == (Outlook {
                scan: seq![],
                sta_connected: false,
                sta_ip: seq![],
                sta_ssid: seq![],
                ap_active: false,
                last_error: seq![],
            }),
    {
        let r = WifiState {
            scan: Vec::new(),
            sta_connected: false,
            sta_ip: String::new(),
            sta_ssid: String::new(),
            ap_active: false,
            last_error: String::new(),
        };
        assert(networks(r.scan@) =~= seq![]);
        r
    }
}

/// What a poll asks for.
#[derive(Debug, Clone, Copy, PartialEq, Eq, Structural)]
pub enum Demand {
    Nothing,
    /// The station is up: route outbound traffic through it, and tell that it is up.
    Up,
    /// The connection is lost: tell that it is down.
    Lost,
    /// The attempt is given up: disconnect, and tell that it is down.
    GiveUp,
    /// Start to connect; [`Wifi::connecting`] takes the outcome.
    Connect,
    /// Read the signal strength and tell it.
    ReadSignal,
}

/// The WiFi manager.
#[derive(Debug)]
pub struct Wifi {
    ssid: String,
    pass: String,
    ap_ssid: String,
    ap_active: bool,
    connected: bool,
    connecting_since: Option<u64>,
    next_attempt: u64,
    pause: u64,
    /// Polls since the signal strength was last read.
    polls: u8,
    need_apply: bool,
    do_scan: bool,
    state: WifiState,
}

/// A [`Wifi`], as contracts speak of it.
pub struct Radio {
    pub ssid: Seq<char>,
    pub pass: Seq<char>,
    pub ap_ssid: Seq<char>,
    pub ap_active: bool,
    pub connected: bool,
    pub connecting_since: Option<u64>,
    pub next_attempt: u64,
    pub pause: u64,
    pub polls: u8,
    pub need_apply: bool,
    pub do_scan: bool,
    pub state: Outlook,
}

impl View for Wifi {
    type V = Radio;

    closed spec fn view(&self) -> Radio {
        Radio {
            ssid: self.ssid@,
            pass: self.pass@,
            ap_ssid: self.ap_ssid@,
            ap_active: self.ap_active,
            connected: self.connected,
            connecting_since: self.connecting_since,
            next_attempt: self.next_attempt,
            pause: self.pause,
            polls: self.polls,
            need_apply: self.need_apply,
            do_scan: self.do_scan,
            state: self.state@,
        }
    }
}

/// What is said about a network that could not be joined.
pub open spec fn join_error(ssid: Seq<char>) -> Seq<char> {
    "could not join "@ + ssid + " (wrong password?)"@
}

impl Radio {
    /// The pause between attempts is within its bounds, and so is the count of polls; a station
    /// that is connected does not try to connect.
    pub open spec fn sound(self) -> bool {
        &&& FIRST_PAUSE <= self.pause <= LONGEST_PAUSE
        &&& self.polls < 60
        &&& self.connected ==> self.connecting_since is None
    }

    /// The station has been configured anew, with this error if it failed.
    pub open spec fn applied(self, now: u64, error: Option<Seq<char>>) -> Radio {
        if !self.need_apply {
            self
        } else {
            Radio {
                need_apply: false,
                connected: false,
                connecting_since: None,
                next_attempt: now,
                pause: FIRST_PAUSE,
                state: Outlook {
                    ap_active: self.ap_active,
                    sta_ssid: self.ssid,
                    sta_connected: false,
                    sta_ip: seq![],
                    last_error: match error {
                        Some(e) => e,
                        None => self.state.last_error,
                    },
                    ..self.state
                },
                ..self
            }
        }
    }

    /// A scan has ended; a scan drops an association in progress, so that is tried again.
    pub open spec fn scanned(self, now: u64, list: Option<Seq<Network>>) -> Radio {
        let retry = self.ssid.len() > 0 && !self.connected;
        Radio {
            do_scan: false,
            next_attempt: if retry {
                now
            } else {
                self.next_attempt
            },
            connecting_since: if retry {
                None
            } else {
                self.connecting_since
            },
            state: Outlook {
                scan: match list {
                    Some(l) => l,
                    None => self.state.scan,
                },
                ..self.state
            },
            ..self
        }
    }

    /// The attempt to connect has lasted too long.
    pub open spec fn timed_out(self, now: u64) -> bool {
        self.connecting_since matches Some(t) && safeguard::elapsed(now, t) > CONNECT_TIMEOUT
    }

    /// What a poll asks for: `linked` says whether the station is associated, `up` whether its
    /// interface is up.
    pub open spec fn demand(self, now: u64, linked: bool, up: bool) -> Demand {
        if self.ssid.len() == 0 {
            Demand::Nothing
        } else if linked && up && !self.connected {
            Demand::Up
        } else if !linked && self.connected {
            Demand::Lost
        } else if !linked {
            if self.timed_out(now) {
                Demand::GiveUp
            } else if self.connecting_since is None && now >= self.next_attempt {
                Demand::Connect
            } else {
                Demand::Nothing
            }
        } else if self.connected && self.polls == 59 {
            Demand::ReadSignal
        } else {
            Demand::Nothing
        }
    }

    pub open spec fn polled(self, now: u64, linked: bool, up: bool, ip: Seq<char>) -> Radio {
        match self.demand(now, linked, up) {
            Demand::Up => Radio {
                connected: true,
                connecting_since: None,
                pause: FIRST_PAUSE,
                state: Outlook { sta_connected: true, sta_ip: ip, last_error: seq![], ..self.state },
                ..self
            },
            Demand::Lost => Radio {
                connected: false,
                next_attempt: (now + 1_000) as u64,
                state: Outlook { sta_connected: false, sta_ip: seq![], ..self.state },
                ..self
            },
            Demand::GiveUp => Radio {
                connecting_since: None,
                next_attempt: (now + self.pause) as u64,
                pause: if self.pause * 2 > LONGEST_PAUSE {
                    LONGEST_PAUSE
                } else {
                    (self.pause * 2) as u64
                },
                state: Outlook { last_error: join_error(self.ssid), ..self.state },
                ..self
            },
            _ => if self.ssid.len() > 0 && linked && self.connected {
                Radio {
                    polls: if self.polls == 59 {
                        0
                    } else {
                        (self.polls + 1) as u8
                    },
                    ..self
                }
            } else {
                self
            },
        }
    }

    /// The attempt to connect has begun, or could not begin.
    pub open spec fn tried(self, now: u64, ok: bool) -> Radio {
        if ok {
            Radio { connecting_since: Some(now), ..self }
        } else {
            Radio { next_attempt: (now + self.pause) as u64, ..self }
        }
    }

    pub open spec fn told(self, wish: Wish) -> Radio {
        match wish {
            Wish::SetStation { ssid, pass } => Radio { ssid, pass, need_apply: true, ..self },
            Wish::StartAp => if self.ap_active {
                self
            } else {
                Radio { ap_active: true, need_apply: true, do_scan: true, ..self }
            },
            Wish::StopAp => if self.ap_active {
                Radio { ap_active: false, need_apply: true, ..self }
            } else {
                self
            },
            Wish::Scan => Radio { do_scan: true, ..self },
        }
    }
}

impl Wifi {
    #[verifier::type_invariant]
    closed spec fn inv(&self) -> bool {
        self@.sound()
    }

    /// The credentials and the access point that the device starts with. The first thing to do is
    /// to configure the radio and to scan.
    pub fn new(ssid: String, pass: String, ap_ssid: String, ap_active: bool, now: u64) -> (r: Wifi)
        ensures
            r@.sound(),
            r@ == (Radio {
                ssid: ssid@,
                pass: pass@,
                ap_ssid: ap_ssid@,
                ap_active,
                connected: false,
                connecting_since: None,
                next_attempt: now,
                pause: FIRST_PAUSE,
                polls: 0,
                need_apply: true,
                do_scan: true,
                state: Outlook {
                    scan: seq![],
                    sta_connected: false,
                    sta_ip: seq![],
                    sta_ssid: seq![],
                    ap_active: false,
                    last_error: seq![],
                },
            }),
    {
        Wifi {
            ssid,
            pass,
            ap_ssid,
            ap_active,
            connected: false,
            connecting_since: None,
            next_attempt: now,
            pause: FIRST_PAUSE,
            polls: 0,
            need_apply: true,
            do_scan: true,
            state: WifiState::default(),
        }
    }

    /// What others see of the radio.
    pub fn state(&self) -> (r: &WifiState)
        ensures
            r@ == self@.state,
    {
        &self.state
    }

    /// The name of the station's network; empty if there is none.
    pub fn ssid(&self) -> (r: &str)
        ensures
            r@ == self@.ssid,
    {
        self.ssid.as_str()
    }

    pub fn pass(&self) -> (r: &str)
        ensures
            r@ == self@.pass,
    {
        self.pass.as_str()
    }

    /// How to configure the radio, if it has to be configured now.
    pub fn due_configuration(&self) -> (r: Option<Result<RadioMode, &'static str>>)
        ensures
            match r {
                Some(c) => self@.need_apply && match misfit(
                    self@.ssid,
                    self@.pass,
                    self@.ap_active,
                    self@.ap_ssid,
                ) {
                    Some(e) => c is Err && c->Err_0@ == e,
                    None => c == Ok::<RadioMode, &'static str>(
                        radio_mode(self@.ssid, self@.ap_active),
                    ),
                },
                None => !self@.need_apply,
            },
    {
        if self.need_apply {
            Some(
                configure(
                    self.ssid.as_str(),
                    self.pass.as_str(),
                    self.ap_active,
                    self.ap_ssid.as_str(),
                ),
            )
        } else {
            None
        }
    }

    /// The radio has been configured, or configuring it failed.
    pub fn applied(&mut self, now: u64, error: Option<String>)
        ensures
            final(self)@ == old(self)@.applied(
                now,
                match error {
                    Some(e) => Some(e@),
                    None => None,
                },
            ),
    {
        proof {
            use_type_invariant(&*self);
        }
        if !self.need_apply {
            return ;
        }
        self.need_apply = false;
        self.connected = false;
        self.connecting_since = None;
        if let Some(e) = error {
            self.state.last_error = e;
        }
        self.state.ap_active = self.ap_active;
        self.state.sta_ssid = self.ssid.clone();
        self.state.sta_connected = false;
        self.state.sta_ip = String::new();
        self.next_attempt = now;
        self.pause = FIRST_PAUSE;
    }

    /// A scan is due.
    pub fn scan_due(&self) -> (r: bool)
        ensures
            r == self@.do_scan,
    {
        self.do_scan
    }

    /// A scan has ended; `None` if it failed.
    pub fn scanned(&mut self, now: u64, found: Option<Vec<Found>>)
        ensures
            match found {
                Some(f) => exists|l: Seq<Network>|
                    lists(l, f@, f@.len() as int) && final(self)@ == #[trigger] old(self)@.scanned(
                        now,
                        Some(l),
                    ),
                None => final(self)@ == old(self)@.scanned(now, None),
            },
    {
        proof {
            use_type_invariant(&*self);
        }
        let ghost before = self@;
        self.do_scan = false;
        let ghost mut l: Option<Seq<Network>> = None;
        if let Some(f) = found {
            let list = scan_list(f);
            proof {
                l = Some(networks(list@));
            }
            self.state.scan = list;
        }
        if !self.ssid.as_str().is_empty() && !self.connected {
            self.next_attempt = now;
            self.connecting_since = None;
        }
        assert(self@ == before.scanned(now, l));
    }

    /// The station's state half a second later: `linked` says whether it is associated, `up`
    /// whether its interface is up, `ip` its address.
    pub fn poll(&mut self, now: u64, linked: bool, up: bool, ip: &str) -> (r: Demand)
        requires
            now <= u64::MAX - LONGEST_PAUSE,
        ensures
            r == old(self)@.demand(now, linked, up),
            final(self)@ == old(self)@.polled(now, linked, up, ip@),
    {
        proof {
            use_type_invariant(&*self);
        }
        if self.ssid.as_str().is_empty() {
            return Demand::Nothing;
        }
        if linked && up && !self.connected {
            self.connecting_since = None;
            self.connected = true;
            self.pause = FIRST_PAUSE;
            self.state.sta_connected = true;
            self.state.sta_ip = ip.to_owned();
            self.state.last_error = String::new();
            Demand::Up
        } else if !linked && self.connected {
            self.connected = false;
            self.state.sta_connected = false;
            self.state.sta_ip = String::new();
            self.next_attempt = now + 1_000;
            Demand::Lost
        } else if !linked {
            match self.connecting_since {
                Some(t) => {
                    if now.saturating_sub(t) > CONNECT_TIMEOUT {
                        let mut e = String::from_str("could not join ");
                        e.append(self.ssid.as_str());
                        e.append(" (wrong password?)");
                        self.state.last_error = e;
                        self.connecting_since = None;
                        self.next_attempt = now + self.pause;
                        self.pause =
                        if self.pause * 2 > LONGEST_PAUSE {
                            LONGEST_PAUSE
                        } else {
                            self.pause * 2
                        };
                        Demand::GiveUp
                    } else {
                        Demand::Nothing
                    }
                },
                None => {
                    if now >= self.next_attempt {
                        Demand::Connect
                    } else {
                        Demand::Nothing
                    }
                },
            }
        } else if self.connected {
            if self.polls == 59 {
                self.polls = 0;
                Demand::ReadSignal
            } else {
                self.polls = self.polls + 1;
                Demand::Nothing
            }
        } else {
            Demand::Nothing
        }
    }

    /// The attempt to connect that a poll asked for has begun, or could not begin.
    pub fn connecting(&mut self, now: u64, ok: bool)
        requires
            now <= u64::MAX - LONGEST_PAUSE,
            !old(self)@.connected,
        ensures
            final(self)@ == old(self)@.tried(now, ok),
    {
        proof {
            use_type_invariant(&*self);
        }
        if ok {
            self.connecting_since = Some(now);
        } else {
            self.next_attempt = now + self.pause;
        }
    }

    /// A command came in.
    pub fn command(&mut self, cmd: WifiCmd)
        ensures
            final(self)@ == old(self)@.told(cmd@),
    {
        proof {
            use_type_invariant(&*self);
        }
        match cmd {
            WifiCmd::SetStation { ssid, pass } => {
                self.ssid = ssid;
                self.pass = pass;
                self.need_apply = true;
            },
            WifiCmd::StartAp => {
                if !self.ap_active {
                    self.ap_active = true;
                    self.need_apply = true;
                    self.do_scan = true;
                }
            },
            WifiCmd::StopAp => {
                if self.ap_active {
                    self.ap_active = false;
                    self.need_apply = true;
                }
            },
            WifiCmd::Scan => {
                self.do_scan = true;
            },
        }
    }
}

// ----- laws ------------------------------------------------------------------------------------------

/// Whatever happens to the radio, the pause between two attempts stays within its bounds.
pub proof fn law_pauses_stay_bounded(
    r: Radio,
    now: u64,
    error: Option<Seq<char>>,
    list: Option<Seq<Network>>,
    linked: bool,
    up: bool,
    ip: Seq<char>,
    ok: bool,
    wish: Wish,
)
    requires
        r.sound(),
    ensures
        r.applied(now, error).sound(),
        r.scanned(now, list).sound(),
        r.polled(now, linked, up, ip).sound(),
        r.demand(now, linked, up) == Demand::Connect ==> r.tried(now, ok).sound(),
        r.told(wish).sound(),
{
}

/// A station that is not associated never stops trying: after a poll an attempt is under way that
/// is not too old, or one is asked for, or the next one is due within the longest pause.
pub proof fn law_the_station_keeps_trying(r: Radio, now: u64, up: bool, ip: Seq<char>)
    requires
        r.sound(),
        r.ssid.len() > 0,
        now <= u64::MAX - LONGEST_PAUSE,
        r.next_attempt <= now + LONGEST_PAUSE,
    ensures
        ({
            let next = r.polled(now, false, up, ip);
            ||| next.connecting_since matches Some(t) && safeguard::elapsed(now, t) <= CONNECT_TIMEOUT
            ||| r.demand(now, false, up) == Demand::Connect
            ||| next.connecting_since is None && next.next_attempt <= now + LONGEST_PAUSE
        }),
        r.polled(now, false, up, ip).next_attempt <= now + LONGEST_PAUSE,
{
}

/// The station never connects without a network name, whatever it is told.
pub proof fn law_no_name_no_connection(r: Radio, now: u64, linked: bool, up: bool)
    requires
        r.ssid.len() == 0,
    ensures
        r.demand(now, linked, up) == Demand::Nothing,
{
}

/// While the access point is open the radio can scan: its station side is on, with or without
/// credentials.
pub proof fn law_open_access_points_can_scan(ssid: Seq<char>)
    ensures
        radio_mode(ssid, true) == RadioMode::StationAndAp,
{
}

/// What others see of the radio is what the radio does: whether the station is connected, and,
/// once the radio is configured, which network it is for and whether the access point is open.
pub open spec fn shows_itself(r: Radio) -> bool {
    &&& r.state.sta_connected == r.connected
    &&& !r.connected ==> r.state.sta_ip.len() == 0
    &&& !r.need_apply ==> r.state.sta_ssid == r.ssid && r.state.ap_active == r.ap_active
}

/// Whatever happens to the radio, others see what it does.
pub proof fn law_others_see_what_the_radio_does(
    r: Radio,
    now: u64,
    error: Option<Seq<char>>,
    list: Option<Seq<Network>>,
    linked: bool,
    up: bool,
    ip: Seq<char>,
    ok: bool,
    wish: Wish,
)
    requires
        shows_itself(r),
    ensures
        shows_itself(r.applied(now, error)),
        shows_itself(r.scanned(now, list)),
        shows_itself(r.polled(now, linked, up, ip)),
        shows_itself(r.tried(now, ok)),
        shows_itself(r.told(wish)),
{
}

/// A station that is associated and up is connected from the next poll on, with the address that
/// it was given and no error left; one that is not associated is not connected, and one that was
/// tries again a second later.
pub proof fn law_the_station_follows_its_link(
    r: Radio,
    now: u64,
    linked: bool,
    up: bool,
    ip: Seq<char>,
)
    requires
        r.ssid.len() > 0,
        now < u64::MAX - 1_000,
    ensures
        ({
            let next = r.polled(now, linked, up, ip);
            &&& linked && up && !r.connected ==> next.connected && next.state.sta_connected
                && next.state.sta_ip == ip && next.state.last_error.len() == 0
                && next.connecting_since is None
            &&& linked && r.connected ==> next.connected && next.state == r.state
            &&& linked && !up ==> next.connected == r.connected
            &&& !linked ==> !next.connected
            &&& !linked && r.connected ==> !next.state.sta_connected && next.state.sta_ip.len()
                == 0 && next.next_attempt == now + 1_000
        }),
        linked && up && !r.connected <==> r.demand(now, linked, up) == Demand::Up,
        !linked && r.connected <==> r.demand(now, linked, up) == Demand::Lost,
{
}

/// An attempt to connect has 20 s; then it is given up, and the next one comes after the pause,
/// which doubles up to a minute.
pub proof fn law_attempts_end_after_their_time(
    r: Radio,
    now: u64,
    begun: u64,
    up: bool,
    ip: Seq<char>,
)
    requires
        r.sound(),
        r.ssid.len() > 0,
        !r.connected,
        r.connecting_since == Some(begun),
        begun <= now <= u64::MAX - 60_000,
    ensures
        r.demand(now, false, up) == Demand::GiveUp <==> now - begun > 20_000,
        now - begun <= 20_000 ==> r.demand(now, false, up) == Demand::Nothing && r.polled(
            now,
            false,
            up,
            ip,
        ) == r,
        now - begun > 20_000 ==> ({
            let next = r.polled(now, false, up, ip);
            &&& next.connecting_since is None
            &&& next.next_attempt == now + r.pause
            &&& r.pause <= 30_000 ==> next.pause == 2 * r.pause
            &&& r.pause > 30_000 ==> next.pause == 60_000
            &&& next.state.last_error == "could not join "@ + r.ssid + " (wrong password?)"@
        }),
{
}

/// New credentials are used as soon as the radio is configured: the station forgets the old
/// network and is asked to connect at once, with the shortest pause.
pub proof fn law_new_credentials_are_used_at_once(
    r: Radio,
    ssid: Seq<char>,
    pass: Seq<char>,
    now: u64,
    up: bool,
)
    requires
        ssid.len() > 0,
    ensures
        ({
            let next = r.told(Wish::SetStation { ssid, pass }).applied(now, None);
            &&& next.ssid == ssid
            &&& next.pass == pass
            &&& next.state.sta_ssid == ssid
            &&& !next.connected
            &&& next.pause == 2_000
            &&& next.demand(now, false, up) == Demand::Connect
            &&& next.ap_active == r.ap_active
        }),
{
}

/// The access point opens and closes when it is told to, and scans for networks when it opens.
pub proof fn law_the_access_point_opens_and_closes(r: Radio, now: u64)
    ensures
        ({
            let open = r.told(Wish::StartAp);
            &&& open.ap_active
            &&& !r.ap_active ==> open.do_scan && open.need_apply && open.applied(
                now,
                None,
            ).state.ap_active
            &&& open.ssid == r.ssid && open.pass == r.pass
        }),
        ({
            let shut = r.told(Wish::StopAp);
            &&& !shut.ap_active
            &&& r.ap_active ==> shut.need_apply && !shut.applied(now, None).state.ap_active
            &&& shut.ssid == r.ssid && shut.pass == r.pass
        }),
        r.told(Wish::Scan).do_scan,
        r.told(Wish::Scan) == (Radio { do_scan: true, ..r }),
{
}

/// A scan that was asked for is done once, what it found is shown, and a station that is not
/// connected tries again at once.
pub proof fn law_a_scan_shows_what_it_found(r: Radio, now: u64, list: Seq<Network>, up: bool)
    ensures
        r.scanned(now, Some(list)).state.scan == list,
        r.scanned(now, None).state.scan == r.state.scan,
        !r.scanned(now, Some(list)).do_scan,
        r.ssid.len() > 0 && !r.connected ==> r.scanned(now, Some(list)).demand(now, false, up)
            == Demand::Connect,
        r.connected ==> r.scanned(now, Some(list)).connected,
{
}

/// The stronger of two access points of one name is shown, and no name is shown twice.
pub proof fn law_each_network_is_listed_once_at_its_strongest(
    list: Seq<Network>,
    found: Seq<Found>,
    i: int,
    j: int,
    k: int,
)
    requires
        lists(list, found, found.len() as int),
        0 <= i < list.len(),
        0 <= j < list.len(),
        0 <= k < found.len(),
    ensures
        i < j ==> list[i].rssi >= list[j].rssi,
        found[k].ssid@ == list[i].ssid ==> found[k].rssi <= list[i].rssi,
        list[i].ssid == list[j].ssid ==> list[i].rssi == list[j].rssi,
        list[i].ssid.len() > 0,
{
    assert(among(found, found.len() as int, list[i]));
    assert(among(found, found.len() as int, list[j]));
    let a = choose|a: int|
        a < found.len() && #[trigger] shown(found, a) && list[i] == summary(found[a]);
    let b = choose|b: int|
        b < found.len() && #[trigger] shown(found, b) && list[j] == summary(found[b]);
    assert(found[a].ssid@ == list[i].ssid);
    assert(found[b].ssid@ == list[j].ssid);
    if i < j {
        assert(ahead(list[i], list[j]));
    }
}

} // verus!
