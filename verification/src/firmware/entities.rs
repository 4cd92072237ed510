//! The entities this device exposes to Home Assistant, and their keys.

use vstd::prelude::*;
use vstd::string::*;

use crate::api::entity;
use crate::api::entity::{Entity, Kind, Meta, NumberSpec, Registry, SensorSpec, ServiceArg};
use crate::api::message;
use crate::api::proto::{EntityCategory, NumberMode, SensorStateClass, ServiceArgType};
use crate::board::CHANNELS;
use crate::firmware::key_table;
use crate::config::Mode;
use crate::firmware::number;
use crate::text;

verus! {

// ----- the mode dropdown -----------------------------------------------------------------------------

/// The label of a mode in Home Assistant's dropdown. The stored value is still `auto|manual|off`.
pub open spec fn label(mode: Mode) -> Seq<char> {
    match mode {
        Mode::Auto => "Auto: HA controls, stored schedule when HA is offline"@,
        Mode::Manual => "Manual: HA controls only, schedule never runs"@,
        Mode::Off => "Off: all relays off, commands ignored"@,
    }
}

pub fn mode_label(mode: Mode) -> (r: &'static str)
    ensures
        r@ == label(mode),
{
    match mode {
        Mode::Auto => "Auto: HA controls, stored schedule when HA is offline",
        Mode::Manual => "Manual: HA controls only, schedule never runs",
        Mode::Off => "Off: all relays off, commands ignored",
    }
}

/// The first mode of which something holds.
pub open spec fn first_mode(f: spec_fn(Mode) -> bool) -> Option<Mode> {
    if f(Mode::Auto) {
        Some(Mode::Auto)
    } else if f(Mode::Manual) {
        Some(Mode::Manual)
    } else if f(Mode::Off) {
        Some(Mode::Off)
    } else {
        None
    }
}

/// The mode that an option of the dropdown stands for: a label, a stored value, or something
/// that begins with a stored value.
pub open spec fn option_mode(option: Seq<char>) -> Option<Mode> {
    let o = text::trimmed(option);
    let labelled = first_mode(|m: Mode| text::ascii_lower(label(m)) == text::ascii_lower(o));
    let named = first_mode(|m: Mode| m.named_by(o));
    let begun = first_mode(|m: Mode| text::begins_with(text::unicode_lowercase(o), m.name()));
    if labelled is Some {
        labelled
    } else if named is Some {
        named
    } else {
        begun
    }
}

/// Accepts a label or the bare value (`auto`, `manual`, `off`).
pub fn mode_from_option(option: &str) -> (r: Option<Mode>)
    ensures
        r == option_mode(option@),
{
    let o = text::trim(option);
    if text::eq_ignore_ascii_case(mode_label(Mode::Auto), o.as_str()) {
        return Some(Mode::Auto);
    }
    if text::eq_ignore_ascii_case(mode_label(Mode::Manual), o.as_str()) {
        return Some(Mode::Manual);
    }
    if text::eq_ignore_ascii_case(mode_label(Mode::Off), o.as_str()) {
        return Some(Mode::Off);
    }
    let named = Mode::parse(o.as_str());
    if let Some(m) = named {
        proof {
            crate::config::law_mode_names_round_trip(m, Mode::Auto, o@);
            crate::config::law_mode_names_round_trip(m, Mode::Manual, o@);
            crate::config::law_mode_names_round_trip(m, Mode::Off, o@);
        }
        return named;
    }
    assert(!Mode::Auto.named_by(o@) && !Mode::Manual.named_by(o@) && !Mode::Off.named_by(o@));
    let low = text::to_lowercase(o.as_str());
    if text::starts_with(low.as_str(), "auto") {
        Some(Mode::Auto)
    } else if text::starts_with(low.as_str(), "manual") {
        Some(Mode::Manual)
    } else if text::starts_with(low.as_str(), "off") {
        Some(Mode::Off)
    } else {
        None
    }
}

/// Every label, and every stored value, stands for its mode.
pub proof fn law_labels_and_names_select_their_mode(m: Mode)
    ensures
        option_mode(label(m)) == Some(m),
        option_mode(m.name()) == Some(m),
{
    reveal_strlit("Auto: HA controls, stored schedule when HA is offline");
    reveal_strlit("Manual: HA controls only, schedule never runs");
    reveal_strlit("Off: all relays off, commands ignored");
    reveal_strlit("auto");
    reveal_strlit("manual");
    reveal_strlit("off");
    let s = label(m);
    assert(s.skip(0) =~= s);
    assert(text::trimmed(s) == s);
    assert(text::ascii_lower(s).len() == s.len());
    let t = m.name();
    assert(t.skip(0) =~= t);
    assert(text::trimmed(t) == t);
    assert(text::ascii_lower(t).len() == t.len());
    assert(forall|n: Mode| text::ascii_lower(#[trigger] label(n)).len() == label(n).len());
    crate::config::law_mode_names_round_trip(m, Mode::Auto, t);
    crate::config::law_mode_names_round_trip(m, Mode::Manual, t);
    crate::config::law_mode_names_round_trip(m, Mode::Off, t);
}

// ----- keys ------------------------------------------------------------------------------------------

#[derive(Debug, Clone, Copy)]
pub struct Keys {
    pub relay: [u32; CHANNELS],
    pub max_on: [u32; CHANNELS],
    pub tripped: [u32; CHANNELS],
    pub safe_state: [u32; CHANNELS],
    pub mode: u32,
    pub exclusive: u32,
    pub link: u32,
    pub local_time: u32,
    pub schedule_loaded: u32,
    pub schedule_rev: u32,
    pub schedule_info: u32,
    pub uptime: u32,
    pub rssi: u32,
    pub all_off: u32,
    pub restart: u32,
    pub set_schedule: u32,
    pub clear_schedule: u32,
    pub ota: u32,
    pub ota_status: u32,
    pub buzzer: u32,
    pub heap: u32,
    pub heap_min: u32,
    pub reset_reason: u32,
    pub rain_hold_hours: u32,
    pub rain_hold: u32,
    pub max_daily: [u32; CHANNELS],
    pub on_today: [u32; CHANNELS],
    pub total_on: [u32; CHANNELS],
    pub daily_limit: [u32; CHANNELS],
    pub last_crash: u32,
    pub clear_crash: u32,
}

/// Where a key stands first, from position `i` on.
pub open spec fn first_from(keys: Seq<u32>, key: u32, i: nat) -> Option<nat>
    decreases keys.len() - i,
{
    if i >= keys.len() {
        None
    } else if keys[i as int] == key {
        Some(i)
    } else {
        first_from(keys, key, i + 1)
    }
}

/// The channel that a key stands for.
pub open spec fn channel(keys: Seq<u32>, key: u32) -> Option<nat> {
    first_from(keys, key, 0)
}

fn position(keys: &[u32; CHANNELS], key: u32) -> (r: Option<usize>)
    ensures
        match channel(keys@, key) {
            Some(ch) => r is Some && r->0 == ch && ch < CHANNELS,
            None => r is None,
        },
{
    let mut i: usize = 0;
    while i < CHANNELS
        invariant
            i <= CHANNELS,
            channel(keys@, key) == first_from(keys@, key, i as nat),
        decreases CHANNELS - i,
    {
        if keys[i] == key {
            return Some(i);
        }
        i += 1;
    }
    None
}

impl Keys {
    pub fn relay_channel(&self, key: u32) -> (r: Option<usize>)
        ensures
            match channel(self.relay@, key) {
                Some(ch) => r is Some && r->0 == ch && ch < CHANNELS,
                None => r is None,
            },
    {
        position(&self.relay, key)
    }

    pub fn max_on_channel(&self, key: u32) -> (r: Option<usize>)
        ensures
            match channel(self.max_on@, key) {
                Some(ch) => r is Some && r->0 == ch && ch < CHANNELS,
                None => r is None,
            },
    {
        position(&self.max_on, key)
    }

    pub fn max_daily_channel(&self, key: u32) -> (r: Option<usize>)
        ensures
            match channel(self.max_daily@, key) {
                Some(ch) => r is Some && r->0 == ch && ch < CHANNELS,
                None => r is None,
            },
    {
        position(&self.max_daily, key)
    }

    pub fn safe_state_channel(&self, key: u32) -> (r: Option<usize>)
        ensures
            match channel(self.safe_state@, key) {
                Some(ch) => r is Some && r->0 == ch && ch < CHANNELS,
                None => r is None,
            },
    {
        position(&self.safe_state, key)
    }
}

// ----- the list of entities --------------------------------------------------------------------------

/// What kind of entity is planned.
pub enum Shape {
    Switch,
    Number { max: u16, unit: Seq<char> },
    Select(Seq<Seq<char>>),
    BinarySensor,
    Sensor { unit: Seq<char>, class: SensorStateClass },
    TextSensor,
    Button,
    Service(Seq<Seq<char>>),
}

/// A planned entity.
pub struct Plan {
    pub id: Seq<char>,
    pub name: Seq<char>,
    pub icon: Seq<char>,
    pub class: Seq<char>,
    pub category: EntityCategory,
    pub shape: Shape,
}

/// What is registered is what was planned.
pub open spec fn planned(meta: Meta, kind: Kind, p: Plan) -> bool {
    &&& meta.object_id@ == p.id
    &&& meta.name@ == p.name
    &&& meta.icon@ == p.icon
    &&& meta.device_class@ == p.class
    &&& meta.category == p.category
    &&& !meta.disabled_by_default
    &&& match p.shape {
        Shape::Switch => kind == (Kind::Switch { assumed_state: false }),
        // From 0 in steps of 1.
        Shape::Number { max, unit } => kind matches Kind::Number(n) && n.min == 0 && n.max
            == number::float_of(max as nat) && n.step == number::float_of(1) && n.unit@ == unit
            && n.mode == NumberMode::Box,
        Shape::Select(options) => kind matches Kind::Select { options: o } && message::chars(o@)
            == options,
        Shape::BinarySensor => kind is BinarySensor,
        Shape::Sensor { unit, class } => kind matches Kind::Sensor(s) && s.unit@ == unit
            && s.accuracy_decimals == 0 && s.state_class == class,
        Shape::TextSensor => kind is TextSensor,
        Shape::Button => kind is Button,
        // All arguments are texts.
        Shape::Service(args) => kind matches Kind::Service { args: a } && a@.len() == args.len()
            && forall|i: int|
            0 <= i < args.len() ==> (#[trigger] a@[i]).name@ == args[i] && a@[i].ty
                == ServiceArgType::String,
    }
}

pub open spec fn plan(
    id: Seq<char>,
    name: Seq<char>,
    icon: Seq<char>,
    class: Seq<char>,
    category: EntityCategory,
    shape: Shape,
) -> Plan {
    Plan { id, name, icon, class, category, shape }
}

/// The entities of the first `n` relays.
pub open spec fn relay_plans(n: nat) -> Seq<Plan>
    decreases n,
{
    if n == 0 {
        seq![]
    } else {
        let d = text::decimal(n);
        relay_plans((n - 1) as nat) + seq![
            plan(
                "relay_"@ + d,
                "Relay "@ + d,
                "mdi:electric-switch"@,
                seq![],
                EntityCategory::Plain,
                Shape::Switch,
            ),
            plan(
                "relay_"@ + d + "_max_on"@,
                "Relay "@ + d + " max on time"@,
                "mdi:timer-off-outline"@,
                seq![],
                EntityCategory::Config,
                Shape::Number { max: 1440, unit: "min"@ },
            ),
            plan(
                "relay_"@ + d + "_safeguard"@,
                "Relay "@ + d + " safeguard tripped"@,
                seq![],
                "problem"@,
                EntityCategory::Diagnostic,
                Shape::BinarySensor,
            ),
            plan(
                "relay_"@ + d + "_safe_state"@,
                "Relay "@ + d + " on when clock unknown"@,
                "mdi:shield-half-full"@,
                seq![],
                EntityCategory::Config,
                Shape::Switch,
            ),
        ]
    }
}

/// The other entities.
pub open spec fn board_plans() -> Seq<Plan> {
    let (plain, config, diagnostic) = (
        EntityCategory::Plain,
        EntityCategory::Config,
        EntityCategory::Diagnostic,
    );
    let measured = SensorStateClass::StateClassMeasurement;
    let none = Seq::<char>::empty();
    seq![
        plan(
            "mode"@,
            "Mode"@,
            "mdi:auto-mode"@,
            none,
            config,
            Shape::Select(seq![label(Mode::Auto), label(Mode::Manual), label(Mode::Off)]),
        ),
        plan("exclusive"@, "Exclusive mode"@, "mdi:swap-horizontal-bold"@, none, config, Shape::Switch),
        plan("link"@, "Link"@, "mdi:lan-connect"@, none, diagnostic, Shape::TextSensor),
        plan(
            "local_time"@,
            "Device local time"@,
            "mdi:clock-outline"@,
            none,
            diagnostic,
            Shape::TextSensor,
        ),
        plan(
            "schedule_loaded"@,
            "Schedule loaded"@,
            "mdi:calendar-check"@,
            none,
            diagnostic,
            Shape::BinarySensor,
        ),
        plan(
            "schedule_rev"@,
            "Schedule revision"@,
            "mdi:counter"@,
            none,
            diagnostic,
            Shape::Sensor { unit: none, class: SensorStateClass::StateClassNone },
        ),
        plan(
            "schedule_info"@,
            "Schedule"@,
            "mdi:calendar-clock"@,
            none,
            diagnostic,
            Shape::TextSensor,
        ),
        plan(
            "uptime"@,
            "Uptime"@,
            none,
            "duration"@,
            diagnostic,
            Shape::Sensor { unit: "s"@, class: SensorStateClass::StateClassTotalIncreasing },
        ),
        plan(
            "rssi"@,
            "WiFi signal"@,
            none,
            "signal_strength"@,
            diagnostic,
            Shape::Sensor { unit: "dBm"@, class: measured },
        ),
        plan("all_off"@, "All relays off"@, "mdi:power-off"@, none, plain, Shape::Button),
        plan("restart"@, "Restart"@, none, "restart"@, config, Shape::Button),
        plan(
            "set_schedule"@,
            "set_schedule"@,
            none,
            none,
            plain,
            Shape::Service(seq!["json"@]),
        ),
        plan("clear_schedule"@, "clear_schedule"@, none, none, plain, Shape::Service(seq![])),
        plan("ota"@, "ota"@, none, none, plain, Shape::Service(seq!["url"@])),
        plan("ota_status"@, "Firmware update"@, "mdi:update"@, none, diagnostic, Shape::TextSensor),
        plan("buzzer"@, "Buzzer"@, "mdi:volume-high"@, none, config, Shape::Switch),
        plan(
            "heap"@,
            "Free heap"@,
            "mdi:memory"@,
            "data_size"@,
            diagnostic,
            Shape::Sensor { unit: "B"@, class: measured },
        ),
        plan(
            "rain_hold_hours"@,
            "Rain hold"@,
            "mdi:weather-pouring"@,
            none,
            plain,
            Shape::Number { max: 72, unit: "h"@ },
        ),
        plan(
            "rain_hold"@,
            "Rain hold until"@,
            "mdi:weather-pouring"@,
            none,
            plain,
            Shape::TextSensor,
        ),
        plan(
            "reset_reason"@,
            "Last reset reason"@,
            "mdi:restart-alert"@,
            none,
            diagnostic,
            Shape::TextSensor,
        ),
        plan(
            "heap_min"@,
            "Lowest free heap"@,
            "mdi:memory"@,
            "data_size"@,
            diagnostic,
            Shape::Sensor { unit: "B"@, class: measured },
        ),
    ]
}

/// Daily budget, counters and block of the first `n` relays.
pub open spec fn daily_plans(n: nat) -> Seq<Plan>
    decreases n,
{
    if n == 0 {
        seq![]
    } else {
        let d = text::decimal(n);
        daily_plans((n - 1) as nat) + seq![
            plan(
                "relay_"@ + d + "_max_daily"@,
                "Relay "@ + d + " max per day"@,
                "mdi:timer-sand"@,
                seq![],
                EntityCategory::Config,
                Shape::Number { max: 1440, unit: "min"@ },
            ),
            plan(
                "relay_"@ + d + "_on_today"@,
                "Relay "@ + d + " on today"@,
                seq![],
                "duration"@,
                EntityCategory::Diagnostic,
                Shape::Sensor { unit: "min"@, class: SensorStateClass::StateClassMeasurement },
            ),
            plan(
                "relay_"@ + d + "_total_on"@,
                "Relay "@ + d + " total on time"@,
                seq![],
                "duration"@,
                EntityCategory::Diagnostic,
                Shape::Sensor { unit: "min"@, class: SensorStateClass::StateClassTotalIncreasing },
            ),
            plan(
                "relay_"@ + d + "_daily_limit"@,
                "Relay "@ + d + " daily limit reached"@,
                seq![],
                "problem"@,
                EntityCategory::Diagnostic,
                Shape::BinarySensor,
            ),
        ]
    }
}

/// The report on the last crash, and the button that clears it.
pub open spec fn crash_plans() -> Seq<Plan> {
    seq![
        plan(
            "last_crash"@,
            "Last crash"@,
            "mdi:alert-circle-outline"@,
            seq![],
            EntityCategory::Diagnostic,
            Shape::TextSensor,
        ),
        plan(
            "clear_crash"@,
            "Clear crash report"@,
            "mdi:broom"@,
            seq![],
            EntityCategory::Config,
            Shape::Button,
        ),
    ]
}

/// All entities, in list order.
pub open spec fn plans() -> Seq<Plan> {
    relay_plans(CHANNELS as nat) + board_plans() + daily_plans(CHANNELS as nat) + crash_plans()
}

/// The entities are those planned, each under the key of its id.
pub open spec fn as_planned(entities: Seq<Entity>, plans: Seq<Plan>) -> bool {
    &&& entities.len() == plans.len()
    &&& forall|i: int|
        0 <= i < plans.len() ==> planned(
            (#[trigger] entities[i]).meta,
            entities[i].kind,
            plans[i],
        ) && entities[i].key == entity::key_of(plans[i].id)
}

/// No two planned entities share a key.
pub open spec fn keys_differ(plans: Seq<Plan>) -> bool {
    forall|i: int, j: int|
        0 <= i < j < plans.len() ==> entity::key_of((#[trigger] plans[i]).id) != entity::key_of(
            (#[trigger] plans[j]).id,
        )
}

/// The keys are those of the ids.
pub open spec fn keyed(k: Keys) -> bool {
    &&& forall|i: int|
        0 <= i < CHANNELS ==> {
            let d = text::decimal((i + 1) as nat);
            &&& #[trigger] k.relay@[i] == entity::key_of("relay_"@ + d)
            &&& k.max_on@[i] == entity::key_of("relay_"@ + d + "_max_on"@)
            &&& k.tripped@[i] == entity::key_of("relay_"@ + d + "_safeguard"@)
            &&& k.safe_state@[i] == entity::key_of("relay_"@ + d + "_safe_state"@)
            &&& k.max_daily@[i] == entity::key_of("relay_"@ + d + "_max_daily"@)
            &&& k.on_today@[i] == entity::key_of("relay_"@ + d + "_on_today"@)
            &&& k.total_on@[i] == entity::key_of("relay_"@ + d + "_total_on"@)
            &&& k.daily_limit@[i] == entity::key_of("relay_"@ + d + "_daily_limit"@)
        }
    &&& k.mode == entity::key_of("mode"@)
    &&& k.exclusive == entity::key_of("exclusive"@)
    &&& k.link == entity::key_of("link"@)
    &&& k.local_time == entity::key_of("local_time"@)
    &&& k.schedule_loaded == entity::key_of("schedule_loaded"@)
    &&& k.schedule_rev == entity::key_of("schedule_rev"@)
    &&& k.schedule_info == entity::key_of("schedule_info"@)
    &&& k.uptime == entity::key_of("uptime"@)
    &&& k.rssi == entity::key_of("rssi"@)
    &&& k.all_off == entity::key_of("all_off"@)
    &&& k.restart == entity::key_of("restart"@)
    &&& k.set_schedule == entity::key_of("set_schedule"@)
    &&& k.clear_schedule == entity::key_of("clear_schedule"@)
    &&& k.ota == entity::key_of("ota"@)
    &&& k.ota_status == entity::key_of("ota_status"@)
    &&& k.buzzer == entity::key_of("buzzer"@)
    &&& k.heap == entity::key_of("heap"@)
    &&& k.heap_min == entity::key_of("heap_min"@)
    &&& k.reset_reason == entity::key_of("reset_reason"@)
    &&& k.rain_hold_hours == entity::key_of("rain_hold_hours"@)
    &&& k.rain_hold == entity::key_of("rain_hold"@)
    &&& k.last_crash == entity::key_of("last_crash"@)
    &&& k.clear_crash == entity::key_of("clear_crash"@)
}

fn meta(id: &str, name: &str, icon: &str, class: &str, category: EntityCategory) -> (r: Meta)
    ensures
        r.object_id@ == id@,
        r.name@ == name@,
        r.icon@ == icon@,
        r.device_class@ == class@,
        r.category == category,
        !r.disabled_by_default,
{
    Meta {
        object_id: id.to_owned(),
        name: name.to_owned(),
        icon: icon.to_owned(),
        device_class: class.to_owned(),
        category,
        disabled_by_default: false,
    }
}

fn amount(max: u16, unit: &str) -> (r: Kind)
    ensures
        r matches Kind::Number(n) && n.min == 0 && n.max == number::float_of(max as nat) && n.step
            == number::float_of(1) && n.unit@ == unit@ && n.mode == NumberMode::Box,
{
    Kind::Number(
        NumberSpec {
            min: 0,
            max: number::float_bits(max as u64),
            step: number::float_bits(1),
            unit: unit.to_owned(),
            mode: NumberMode::Box,
        },
    )
}

fn sensor(unit: &str, state_class: SensorStateClass) -> (r: Kind)
    ensures
        r matches Kind::Sensor(s) && s.unit@ == unit@ && s.accuracy_decimals == 0 && s.state_class
            == state_class,
{
    Kind::Sensor(SensorSpec { unit: unit.to_owned(), accuracy_decimals: 0, state_class })
}

fn text_service(arg: Option<&str>) -> (r: Kind)
    ensures
        r matches Kind::Service { args: a } && match arg {
            Some(n) => a@.len() == 1 && a@[0].name@ == n@ && a@[0].ty == ServiceArgType::String,
            None => a@.len() == 0,
        },
{
    let mut args: Vec<ServiceArg> = Vec::new();
    if let Some(n) = arg {
        args.push(ServiceArg { name: n.to_owned(), ty: ServiceArgType::String });
    }
    Kind::Service { args }
}

fn mode_options() -> (r: Kind)
    ensures
        r matches Kind::Select { options: o } && message::chars(o@) == seq![
            label(Mode::Auto),
            label(Mode::Manual),
            label(Mode::Off),
        ],
{
    let mut options: Vec<String> = Vec::new();
    options.push(mode_label(Mode::Auto).to_owned());
    options.push(mode_label(Mode::Manual).to_owned());
    options.push(mode_label(Mode::Off).to_owned());
    assert(message::chars(options@) =~= seq![
        label(Mode::Auto),
        label(Mode::Manual),
        label(Mode::Off),
    ]);
    Kind::Select { options }
}

/// A text around a number.
fn numbered(before: &str, n: usize, after: &str) -> (r: String)
    ensures
        r@ == before@ + text::decimal(n as nat) + after@,
{
    let mut s = String::from_str(before);
    text::push_decimal(&mut s, n as u64);
    s.append(after);
    s
}

/// The list is what was planned.
pub open spec fn listed(list: Seq<(Meta, Kind)>, plans: Seq<Plan>) -> bool {
    &&& list.len() == plans.len()
    &&& forall|i: int|
        0 <= i < plans.len() ==> planned((#[trigger] list[i]).0, list[i].1, plans[i])
}

proof fn lemma_listed_push(list: Seq<(Meta, Kind)>, plans: Seq<Plan>, meta: Meta, kind: Kind, p: Plan)
    requires
        listed(list, plans),
        planned(meta, kind, p),
    ensures
        listed(list.push((meta, kind)), plans.push(p)),
{
    let (l, q) = (list.push((meta, kind)), plans.push(p));
    assert forall|i: int| 0 <= i < q.len() implies planned((#[trigger] l[i]).0, l[i].1, q[i]) by {
        if i < plans.len() {
            assert(l[i] == list[i]);
        }
    }
}

/// The four entities of a relay.
fn list_relay(list: &mut Vec<(Meta, Kind)>, n: usize)
    requires
        0 < n <= CHANNELS,
        listed(old(list)@, relay_plans((n - 1) as nat)),
    ensures
        listed(final(list)@, relay_plans(n as nat)),
{
    let ghost before = relay_plans((n - 1) as nat);
    let ghost all = relay_plans(n as nat);
    let ghost d = text::decimal(n as nat);
    let ghost k = before.len() as int;
    proof {
        reveal_strlit("");
        assert(""@ =~= Seq::<char>::empty());
        assert("relay_"@ + d + ""@ =~= "relay_"@ + d);
        assert("Relay "@ + d + ""@ =~= "Relay "@ + d);
    }
    let id = numbered("relay_", n, "");
    let name = numbered("Relay ", n, "");
    let m = meta(id.as_str(), name.as_str(), "mdi:electric-switch", "", EntityCategory::Plain);
    let kind = Kind::Switch { assumed_state: false };
    proof {
        lemma_listed_push(list@, before, m, kind, all[k]);
    }
    list.push((m, kind));
    let id = numbered("relay_", n, "_max_on");
    let name = numbered("Relay ", n, " max on time");
    let m = meta(id.as_str(), name.as_str(), "mdi:timer-off-outline", "", EntityCategory::Config);
    let kind = amount(1440, "min");
    proof {
        lemma_listed_push(list@, before.push(all[k]), m, kind, all[k + 1]);
    }
    list.push((m, kind));
    let id = numbered("relay_", n, "_safeguard");
    let name = numbered("Relay ", n, " safeguard tripped");
    let m = meta(id.as_str(), name.as_str(), "", "problem", EntityCategory::Diagnostic);
    proof {
        let b = before.push(all[k]).push(all[k + 1]);
        lemma_listed_push(list@, b, m, Kind::BinarySensor, all[k + 2]);
    }
    list.push((m, Kind::BinarySensor));
    let id = numbered("relay_", n, "_safe_state");
    let name = numbered("Relay ", n, " on when clock unknown");
    let m = meta(id.as_str(), name.as_str(), "mdi:shield-half-full", "", EntityCategory::Config);
    let kind = Kind::Switch { assumed_state: false };
    proof {
        let b = before.push(all[k]).push(all[k + 1]).push(all[k + 2]);
        lemma_listed_push(list@, b, m, kind, all[k + 3]);
        assert(b.push(all[k + 3]) =~= all);
    }
    list.push((m, kind));
}

/// Daily budget, counters and block of a relay.
fn list_daily(list: &mut Vec<(Meta, Kind)>, n: usize)
    requires
        0 < n <= CHANNELS,
        listed(old(list)@, daily_plans((n - 1) as nat)),
    ensures
        listed(final(list)@, daily_plans(n as nat)),
{
    let ghost before = daily_plans((n - 1) as nat);
    let ghost all = daily_plans(n as nat);
    let ghost k = before.len() as int;
    proof {
        reveal_strlit("");
        assert(""@ =~= Seq::<char>::empty());
    }
    let id = numbered("relay_", n, "_max_daily");
    let name = numbered("Relay ", n, " max per day");
    let m = meta(id.as_str(), name.as_str(), "mdi:timer-sand", "", EntityCategory::Config);
    let kind = amount(1440, "min");
    proof {
        lemma_listed_push(list@, before, m, kind, all[k]);
    }
    list.push((m, kind));
    let id = numbered("relay_", n, "_on_today");
    let name = numbered("Relay ", n, " on today");
    let m = meta(id.as_str(), name.as_str(), "", "duration", EntityCategory::Diagnostic);
    let kind = sensor("min", SensorStateClass::StateClassMeasurement);
    proof {
        lemma_listed_push(list@, before.push(all[k]), m, kind, all[k + 1]);
    }
    list.push((m, kind));
    let id = numbered("relay_", n, "_total_on");
    let name = numbered("Relay ", n, " total on time");
    let m = meta(id.as_str(), name.as_str(), "", "duration", EntityCategory::Diagnostic);
    let kind = sensor("min", SensorStateClass::StateClassTotalIncreasing);
    proof {
        let b = before.push(all[k]).push(all[k + 1]);
        lemma_listed_push(list@, b, m, kind, all[k + 2]);
    }
    list.push((m, kind));
    let id = numbered("relay_", n, "_daily_limit");
    let name = numbered("Relay ", n, " daily limit reached");
    let m = meta(id.as_str(), name.as_str(), "", "problem", EntityCategory::Diagnostic);
    proof {
        let b = before.push(all[k]).push(all[k + 1]).push(all[k + 2]);
        lemma_listed_push(list@, b, m, Kind::BinarySensor, all[k + 3]);
        assert(b.push(all[k + 3]) =~= all);
    }
    list.push((m, Kind::BinarySensor));
}

/// The crash report.
fn list_crash() -> (list: Vec<(Meta, Kind)>)
    ensures
        listed(list@, crash_plans()),
{
    proof {
        reveal_strlit("");
        assert(""@ =~= Seq::<char>::empty());
    }
    let mut list: Vec<(Meta, Kind)> = Vec::new();
    list.push(
        (
            meta("last_crash", "Last crash", "mdi:alert-circle-outline", "", EntityCategory::Diagnostic),
            Kind::TextSensor,
        ),
    );
    list.push(
        (
            meta("clear_crash", "Clear crash report", "mdi:broom", "", EntityCategory::Config),
            Kind::Button,
        ),
    );
    list
}

/// Modes, link and schedule.
fn list_status() -> (list: Vec<(Meta, Kind)>)
    ensures
        listed(list@, board_plans().subrange(0, 7)),
{
    proof {
        reveal_strlit("");
        assert(""@ =~= Seq::<char>::empty());
    }
    let mut list: Vec<(Meta, Kind)> = Vec::new();
    list.push(
        (
            meta("mode", "Mode", "mdi:auto-mode", "", EntityCategory::Config),
            mode_options(),
        ),
    );
    list.push(
        (
            meta("exclusive", "Exclusive mode", "mdi:swap-horizontal-bold", "", EntityCategory::Config),
            Kind::Switch { assumed_state: false },
        ),
    );
    list.push(
        (
            meta("link", "Link", "mdi:lan-connect", "", EntityCategory::Diagnostic),
            Kind::TextSensor,
        ),
    );
    list.push(
        (
            meta("local_time", "Device local time", "mdi:clock-outline", "", EntityCategory::Diagnostic),
            Kind::TextSensor,
        ),
    );
    list.push(
        (
            meta("schedule_loaded", "Schedule loaded", "mdi:calendar-check", "", EntityCategory::Diagnostic),
            Kind::BinarySensor,
        ),
    );
    list.push(
        (
            meta("schedule_rev", "Schedule revision", "mdi:counter", "", EntityCategory::Diagnostic),
            sensor("", SensorStateClass::StateClassNone),
        ),
    );
    list.push(
        (
            meta("schedule_info", "Schedule", "mdi:calendar-clock", "", EntityCategory::Diagnostic),
            Kind::TextSensor,
        ),
    );
    list
}

/// Health, buttons and services.
fn list_health() -> (list: Vec<(Meta, Kind)>)
    ensures
        listed(list@, board_plans().subrange(7, 14)),
{
    proof {
        reveal_strlit("");
        assert(""@ =~= Seq::<char>::empty());
    }
    let mut list: Vec<(Meta, Kind)> = Vec::new();
    list.push(
        (
            meta("uptime", "Uptime", "", "duration", EntityCategory::Diagnostic),
            sensor("s", SensorStateClass::StateClassTotalIncreasing),
        ),
    );
    list.push(
        (
            meta("rssi", "WiFi signal", "", "signal_strength", EntityCategory::Diagnostic),
            sensor("dBm", SensorStateClass::StateClassMeasurement),
        ),
    );
    list.push(
        (
            meta("all_off", "All relays off", "mdi:power-off", "", EntityCategory::Plain),
            Kind::Button,
        ),
    );
    list.push(
        (
            meta("restart", "Restart", "", "restart", EntityCategory::Config),
            Kind::Button,
        ),
    );
    list.push(
        (
            meta("set_schedule", "set_schedule", "", "", EntityCategory::Plain),
            text_service(Some("json")),
        ),
    );
    list.push(
        (
            meta("clear_schedule", "clear_schedule", "", "", EntityCategory::Plain),
            text_service(None),
        ),
    );
    list.push(
        (
            meta("ota", "ota", "", "", EntityCategory::Plain),
            text_service(Some("url")),
        ),
    );
    list
}

/// Firmware, buzzer, memory and rain hold.
fn list_rest() -> (list: Vec<(Meta, Kind)>)
    ensures
        listed(list@, board_plans().subrange(14, 21)),
{
    proof {
        reveal_strlit("");
        assert(""@ =~= Seq::<char>::empty());
    }
    let mut list: Vec<(Meta, Kind)> = Vec::new();
    list.push(
        (
            meta("ota_status", "Firmware update", "mdi:update", "", EntityCategory::Diagnostic),
            Kind::TextSensor,
        ),
    );
    list.push(
        (
            meta("buzzer", "Buzzer", "mdi:volume-high", "", EntityCategory::Config),
            Kind::Switch { assumed_state: false },
        ),
    );
    list.push(
        (
            meta("heap", "Free heap", "mdi:memory", "data_size", EntityCategory::Diagnostic),
            sensor("B", SensorStateClass::StateClassMeasurement),
        ),
    );
    list.push(
        (
            meta("rain_hold_hours", "Rain hold", "mdi:weather-pouring", "", EntityCategory::Plain),
            amount(72, "h"),
        ),
    );
    list.push(
        (
            meta("rain_hold", "Rain hold until", "mdi:weather-pouring", "", EntityCategory::Plain),
            Kind::TextSensor,
        ),
    );
    list.push(
        (
            meta("reset_reason", "Last reset reason", "mdi:restart-alert", "", EntityCategory::Diagnostic),
            Kind::TextSensor,
        ),
    );
    list.push(
        (
            meta("heap_min", "Lowest free heap", "mdi:memory", "data_size", EntityCategory::Diagnostic),
            sensor("B", SensorStateClass::StateClassMeasurement),
        ),
    );
    list
}

proof fn lemma_listed_concat(
    l: Seq<(Meta, Kind)>,
    p: Seq<Plan>,
    m: Seq<(Meta, Kind)>,
    q: Seq<Plan>,
)
    requires
        listed(l, p),
        listed(m, q),
    ensures
        listed(l + m, p + q),
{
    assert forall|i: int| 0 <= i < (p + q).len() implies planned(
        (#[trigger] (l + m)[i]).0,
        (l + m)[i].1,
        (p + q)[i],
    ) by {
        if i < p.len() {
            assert((l + m)[i] == l[i]);
        } else {
            assert((l + m)[i] == m[i - p.len()]);
        }
    }
}

/// All entities, in list order.
fn list_entities() -> (list: Vec<(Meta, Kind)>)
    ensures
        listed(list@, plans()),
{
    let mut list: Vec<(Meta, Kind)> = Vec::new();
    let mut n: usize = 0;
    while n < CHANNELS
        invariant
            n <= CHANNELS,
            listed(list@, relay_plans(n as nat)),
        decreases CHANNELS - n,
    {
        n += 1;
        list_relay(&mut list, n);
    }
    let mut daily: Vec<(Meta, Kind)> = Vec::new();
    let mut n: usize = 0;
    while n < CHANNELS
        invariant
            n <= CHANNELS,
            listed(daily@, daily_plans(n as nat)),
        decreases CHANNELS - n,
    {
        n += 1;
        list_daily(&mut daily, n);
    }
    let mut a = list_status();
    let mut b = list_health();
    let mut c = list_rest();
    let mut d = list_crash();
    let ghost (relays, x, y, z) = (list@, a@, b@, c@);
    list.append(&mut a);
    list.append(&mut b);
    list.append(&mut c);
    let ghost first = list@;
    let ghost (v, w) = (daily@, d@);
    list.append(&mut daily);
    list.append(&mut d);
    proof {
        let board = board_plans();
        assert(board.subrange(0, 7) + board.subrange(7, 14) + board.subrange(14, 21) =~= board);
        lemma_listed_concat(relays, relay_plans(CHANNELS as nat), x, board.subrange(0, 7));
        lemma_listed_concat(
            relays + x,
            relay_plans(CHANNELS as nat) + board.subrange(0, 7),
            y,
            board.subrange(7, 14),
        );
        lemma_listed_concat(
            relays + x + y,
            relay_plans(CHANNELS as nat) + board.subrange(0, 7) + board.subrange(7, 14),
            z,
            board.subrange(14, 21),
        );
        assert(first =~= relays + x + y + z);
        assert(relay_plans(CHANNELS as nat) + board =~= relay_plans(CHANNELS as nat)
            + board.subrange(0, 7) + board.subrange(7, 14) + board.subrange(14, 21));
        let p = relay_plans(CHANNELS as nat) + board;
        lemma_listed_concat(first, p, v, daily_plans(CHANNELS as nat));
        lemma_listed_concat(
            first + v,
            p + daily_plans(CHANNELS as nat),
            w,
            crash_plans(),
        );
        assert(list@ =~= first + v + w);
    }
    list
}

/// The keys of one entity of each relay.
fn relay_keys(after: &str) -> (r: [u32; CHANNELS])
    ensures
        forall|i: int|
            0 <= i < CHANNELS ==> #[trigger] r@[i] == entity::key_of(
                "relay_"@ + text::decimal((i + 1) as nat) + after@,
            ),
{
    let mut r: [u32; CHANNELS] = [0;CHANNELS];
    let mut i: usize = 0;
    while i < CHANNELS
        invariant
            i <= CHANNELS,
            forall|j: int|
                0 <= j < i ==> #[trigger] r@[j] == entity::key_of(
                    "relay_"@ + text::decimal((j + 1) as nat) + after@,
                ),
        decreases CHANNELS - i,
    {
        let id = numbered("relay_", i + 1, after);
        r[i] = entity::fnv1_hash(id.as_str());
        i += 1;
    }
    r
}

/// The keys of all entities.
fn all_keys() -> (k: Keys)
    ensures
        keyed(k),
{
    let relay = relay_keys("");
    let max_on = relay_keys("_max_on");
    let tripped = relay_keys("_safeguard");
    let safe_state = relay_keys("_safe_state");
    let max_daily = relay_keys("_max_daily");
    let on_today = relay_keys("_on_today");
    let total_on = relay_keys("_total_on");
    let daily_limit = relay_keys("_daily_limit");
    proof {
        reveal_strlit("");
        assert forall|i: int| 0 <= i < CHANNELS implies #[trigger] relay@[i] == entity::key_of(
            "relay_"@ + text::decimal((i + 1) as nat),
        ) by {
            let id = "relay_"@ + text::decimal((i + 1) as nat);
            assert(id + ""@ =~= id);
        }
        assert forall|i: int| 0 <= i < CHANNELS implies {
            let d = text::decimal((i + 1) as nat);
            &&& #[trigger] relay@[i] == entity::key_of("relay_"@ + d)
            &&& max_on@[i] == entity::key_of("relay_"@ + d + "_max_on"@)
            &&& tripped@[i] == entity::key_of("relay_"@ + d + "_safeguard"@)
            &&& safe_state@[i] == entity::key_of("relay_"@ + d + "_safe_state"@)
            &&& max_daily@[i] == entity::key_of("relay_"@ + d + "_max_daily"@)
            &&& on_today@[i] == entity::key_of("relay_"@ + d + "_on_today"@)
            &&& total_on@[i] == entity::key_of("relay_"@ + d + "_total_on"@)
            &&& daily_limit@[i] == entity::key_of("relay_"@ + d + "_daily_limit"@)
        } by {
            let (a, b, c) = (max_on@[i], tripped@[i], safe_state@[i]);
            let (d, e, f, g) = (max_daily@[i], on_today@[i], total_on@[i], daily_limit@[i]);
        }
    }
    Keys {
        relay,
        max_on,
        tripped,
        safe_state,
        mode: entity::fnv1_hash("mode"),
        exclusive: entity::fnv1_hash("exclusive"),
        link: entity::fnv1_hash("link"),
        local_time: entity::fnv1_hash("local_time"),
        schedule_loaded: entity::fnv1_hash("schedule_loaded"),
        schedule_rev: entity::fnv1_hash("schedule_rev"),
        schedule_info: entity::fnv1_hash("schedule_info"),
        uptime: entity::fnv1_hash("uptime"),
        rssi: entity::fnv1_hash("rssi"),
        all_off: entity::fnv1_hash("all_off"),
        restart: entity::fnv1_hash("restart"),
        set_schedule: entity::fnv1_hash("set_schedule"),
        clear_schedule: entity::fnv1_hash("clear_schedule"),
        ota: entity::fnv1_hash("ota"),
        ota_status: entity::fnv1_hash("ota_status"),
        buzzer: entity::fnv1_hash("buzzer"),
        heap: entity::fnv1_hash("heap"),
        heap_min: entity::fnv1_hash("heap_min"),
        reset_reason: entity::fnv1_hash("reset_reason"),
        rain_hold_hours: entity::fnv1_hash("rain_hold_hours"),
        rain_hold: entity::fnv1_hash("rain_hold"),
        max_daily,
        on_today,
        total_on,
        daily_limit,
        last_crash: entity::fnv1_hash("last_crash"),
        clear_crash: entity::fnv1_hash("clear_crash"),
    }
}

/// Register the entities of a list.
fn register(list: Vec<(Meta, Kind)>, Ghost(plans): Ghost<Seq<Plan>>) -> (reg: Registry)
    requires
        listed(list@, plans),
        keys_differ(plans),
    ensures
        as_planned(reg@, plans),
        entity::well_keyed(reg@),
{
    let mut list = list;
    let mut reg = Registry::new();
    let ghost all = list@;
    let n: usize = list.len();
    let mut done: usize = 0;
    while done < n
        invariant
            done <= n,
            n == all.len(),
            listed(all, plans),
            keys_differ(plans),
            list@ == all.skip(done as int),
            as_planned(reg@, plans.take(done as int)),
        decreases n - done,
    {
        let (meta, kind) = list.remove(0);
        let ghost before = reg@;
        let ghost p = plans[done as int];
        proof {
            assert(list@ =~= all.skip(done + 1));
            assert((meta, kind) == all[done as int]);
            entity::lemma_find(before, entity::key_of(p.id));
            if entity::find(before, entity::key_of(p.id)) is Some {
                let e = entity::find(before, entity::key_of(p.id))->0;
                let i = choose|i: int| 0 <= i < before.len() && before[i] == e;
                assert(plans.take(done as int)[i] == plans[i]);
                assert(entity::key_of(plans[i].id) != entity::key_of(plans[done as int].id));
            }
        }
        reg.add(meta, kind);
        proof {
            let next = plans.take(done + 1);
            assert(next =~= plans.take(done as int).push(p));
            assert forall|i: int| 0 <= i < next.len() implies planned(
                (#[trigger] reg@[i]).meta,
                reg@[i].kind,
                next[i],
            ) && reg@[i].key == entity::key_of(next[i].id) by {
                if i < done {
                    assert(reg@[i] == before[i]);
                    assert(next[i] == plans.take(done as int)[i]);
                }
            }
        }
        done += 1;
    }
    assert(plans.take(n as int) =~= plans);
    assert(entity::well_keyed(reg@)) by {
        assert forall|i: int, j: int| 0 <= i < j < reg@.len() implies (#[trigger] reg@[i]).key != (
        #[trigger] reg@[j]).key by {
            assert(reg@[i].key == entity::key_of(plans[i].id));
            assert(reg@[j].key == entity::key_of(plans[j].id));
        }
    }
    reg
}

/// The entities and their keys.
pub fn build() -> (r: (Registry, Keys))
    ensures
        as_planned(r.0@, plans()),
        entity::well_keyed(r.0@),
        keyed(r.1),
{
    let list = list_entities();
    proof {
        key_table::law_entity_keys_differ();
    }
    let reg = register(list, Ghost(plans()));
    (reg, all_keys())
}

} // verus!
