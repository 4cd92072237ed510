//! Entity registry: what the device exposes to Home Assistant, and how states are encoded.

use vstd::prelude::*;
use vstd::utf8::*;

use crate::api::frame::{Raw, RawMessage};
use crate::api::message;
use crate::api::message::{ApiMessage, Value};
use crate::api::proto;
use crate::api::proto::{EntityCategory, NumberMode, SensorStateClass, ServiceArgType};

verus! {

/// FNV-1 of the first `n` bytes.
pub open spec fn fnv1(b: Seq<u8>, n: nat) -> u32
    decreases n,
{
    if n == 0 {
        2166136261
    } else {
        ((fnv1(b, (n - 1) as nat) * 16777619) % 0x1_0000_0000) as u32 ^ (b[n - 1] as u32)
    }
}

/// The key of an object id.
pub open spec fn key_of(object_id: Seq<char>) -> u32 {
    fnv1(encode_utf8(object_id), encode_utf8(object_id).len())
}

/// Stable 32-bit key for an object id (FNV-1 like ESPHome's `fnv1_hash`).
pub fn fnv1_hash(s: &str) -> (r: u32)
    ensures
        r == key_of(s@),
{
    let b = s.as_bytes();
    let mut h: u32 = 2166136261;
    let mut i: usize = 0;
    while i < b.len()
        invariant
            i <= b@.len(),
            b@ == encode_utf8(s@),
            h == fnv1(b@, i as nat),
        decreases b.len() - i,
    {
        h = h.wrapping_mul(16777619) ^ (b[i] as u32);
        i += 1;
    }
    h
}

/// The state of an entity.
#[derive(Debug, Clone, PartialEq)]
pub enum State {
    Bool(bool),
    /// The four bytes of the number.
    Float(u32),
    Text(String),
}

/// A [`State`], as contracts speak of it.
pub enum Reading {
    Bool(bool),
    Float(u32),
    Text(Seq<char>),
}

impl View for State {
    type V = Reading;

    open spec fn view(&self) -> Reading {
        match self {
            State::Bool(b) => Reading::Bool(*b),
            State::Float(f) => Reading::Float(*f),
            State::Text(t) => Reading::Text(t@),
        }
    }
}

/// The four bytes stand for no number.
pub open spec fn is_nan(float: u32) -> bool {
    float % 0x8000_0000 > 0x7f80_0000
}

/// Two numbers are equal: the same bytes, unless they stand for no number, or zeros of either
/// sign.
pub open spec fn equal_floats(a: u32, b: u32) -> bool {
    !is_nan(a) && (a == b || (message::is_zero(a) && message::is_zero(b)))
}

impl Reading {
    /// Nothing new.
    pub open spec fn equals(self, other: Reading) -> bool {
        match (self, other) {
            (Reading::Bool(a), Reading::Bool(b)) => a == b,
            (Reading::Float(a), Reading::Float(b)) => equal_floats(a, b),
            (Reading::Text(a), Reading::Text(b)) => a == b,
            _ => false,
        }
    }
}

impl State {
    /// The two states are equal. A float that stands for no number equals nothing.
    pub fn equals(&self, other: &State) -> (r: bool)
        ensures
            r == self@.equals(other@),
    {
        match (self, other) {
            (State::Bool(a), State::Bool(b)) => *a == *b,
            (State::Float(a), State::Float(b)) => {
                let nan = *a % 0x8000_0000 > 0x7f80_0000;
                let zeros = (*a == 0 || *a == 0x8000_0000) && (*b == 0 || *b == 0x8000_0000);
                !nan && (*a == *b || zeros)
            },
            (State::Text(a), State::Text(b)) => *a == *b,
            _ => false,
        }
    }

    /// The same state again.
    pub fn copy(&self) -> (r: State)
        ensures
            r@ == self@,
    {
        match self {
            State::Bool(b) => State::Bool(*b),
            State::Float(f) => State::Float(*f),
            State::Text(t) => State::Text(t.clone()),
        }
    }
}

/// Common fields for every entity.
#[derive(Debug, Clone)]
pub struct Meta {
    pub object_id: String,
    pub name: String,
    pub icon: String,
    pub device_class: String,
    pub category: EntityCategory,
    pub disabled_by_default: bool,
}

impl Meta {
    pub fn new(object_id: &str, name: &str) -> (r: Meta)
        ensures
            r.object_id@ == object_id@,
            r.name@ == name@,
            r.icon@ == Seq::<char>::empty(),
            r.device_class@ == Seq::<char>::empty(),
            r.category == EntityCategory::Plain,
            !r.disabled_by_default,
    {
        Meta {
            object_id: object_id.to_owned(),
            name: name.to_owned(),
            icon: String::new(),
            device_class: String::new(),
            category: EntityCategory::Plain,
            disabled_by_default: false,
        }
    }

    pub fn icon(self, icon: &str) -> (r: Meta)
        ensures
            r.icon@ == icon@,
            r == (Meta { icon: r.icon, ..self }),
    {
        Meta { icon: icon.to_owned(), ..self }
    }

    pub fn device_class(self, dc: &str) -> (r: Meta)
        ensures
            r.device_class@ == dc@,
            r == (Meta { device_class: r.device_class, ..self }),
    {
        Meta { device_class: dc.to_owned(), ..self }
    }

    pub fn config(self) -> (r: Meta)
        ensures
            r == (Meta { category: EntityCategory::Config, ..self }),
    {
        Meta { category: EntityCategory::Config, ..self }
    }

    pub fn diagnostic(self) -> (r: Meta)
        ensures
            r == (Meta { category: EntityCategory::Diagnostic, ..self }),
    {
        Meta { category: EntityCategory::Diagnostic, ..self }
    }
}

/// The range of a number, in the four bytes of each bound, and how it is shown.
#[derive(Debug, Clone)]
pub struct NumberSpec {
    pub min: u32,
    pub max: u32,
    pub step: u32,
    pub unit: String,
    pub mode: NumberMode,
}

#[derive(Debug, Clone)]
pub struct SensorSpec {
    pub unit: String,
    pub accuracy_decimals: i32,
    pub state_class: SensorStateClass,
}

#[derive(Debug, Clone)]
pub struct ServiceArg {
    pub name: String,
    pub ty: ServiceArgType,
}

#[derive(Debug, Clone)]
pub enum Kind {
    Switch { assumed_state: bool },
    Number(NumberSpec),
    Select { options: Vec<String> },
    BinarySensor,
    Sensor(SensorSpec),
    TextSensor,
    Button,
    /// User-defined service (`esphome.<device>_<name>` action in HA). Has no state.
    Service { args: Vec<ServiceArg> },
}

#[derive(Debug, Clone)]
pub struct Entity {
    pub key: u32,
    pub meta: Meta,
    pub kind: Kind,
}

/// The number that stands for a category.
pub open spec fn category_number(c: EntityCategory) -> i32 {
    match c {
        EntityCategory::Plain => 0,
        EntityCategory::Config => 1,
        EntityCategory::Diagnostic => 2,
    }
}

/// The number that stands for a mode.
pub open spec fn mode_number(m: NumberMode) -> i32 {
    match m {
        NumberMode::Auto => 0,
        NumberMode::Box => 1,
        NumberMode::Slider => 2,
    }
}

/// The number that stands for a state class.
pub open spec fn class_number(c: SensorStateClass) -> i32 {
    match c {
        SensorStateClass::StateClassNone => 0,
        SensorStateClass::StateClassMeasurement => 1,
        SensorStateClass::StateClassTotalIncreasing => 2,
        SensorStateClass::StateClassTotal => 3,
    }
}

/// The number that stands for an argument type.
pub open spec fn type_number(t: ServiceArgType) -> i32 {
    match t {
        ServiceArgType::Bool => 0,
        ServiceArgType::Int => 1,
        ServiceArgType::Float => 2,
        ServiceArgType::String => 3,
        ServiceArgType::BoolArray => 4,
        ServiceArgType::IntArray => 5,
        ServiceArgType::FloatArray => 6,
        ServiceArgType::StringArray => 7,
    }
}

/// A message of type `M` with the given fields.
pub open spec fn raw_of<M: ApiMessage>(values: Seq<Value>) -> Raw {
    Raw { id: M::id(), payload: message::written(M::slots(), M::part(), values) }
}

/// The fields of an argument in the list of entities.
pub open spec fn arg_values(a: ServiceArg) -> Seq<Value> {
    seq![
        Value::Text(a.name@),
        Value::Int(type_number(a.ty)),
        Value::Text(seq![]),
        Value::Text(seq![]),
    ]
}

impl Entity {
    /// The entity has a state.
    pub open spec fn stateful(&self) -> bool {
        !(self.kind is Button || self.kind is Service)
    }

    pub fn has_state(&self) -> (r: bool)
        ensures
            r == self.stateful(),
    {
        match self.kind {
            Kind::Button => false,
            Kind::Service { .. } => false,
            _ => true,
        }
    }

    /// The message that describes this entity in the list of entities.
    pub open spec fn listing(&self) -> Raw {
        let id = Value::Text(self.meta.object_id@);
        let key = Value::Fixed(self.key);
        let name = Value::Text(self.meta.name@);
        let icon = Value::Text(self.meta.icon@);
        let class = Value::Text(self.meta.device_class@);
        let hidden = Value::Flag(self.meta.disabled_by_default);
        let category = Value::Int(category_number(self.meta.category));
        let device = Value::Uint(0);
        match self.kind {
            Kind::Switch { assumed_state } => raw_of::<proto::ListEntitiesSwitchResponse>(
                seq![
                    id,
                    key,
                    name,
                    icon,
                    Value::Flag(assumed_state),
                    hidden,
                    category,
                    class,
                    device,
                ],
            ),
            Kind::Number(n) => raw_of::<proto::ListEntitiesNumberResponse>(
                seq![
                    id,
                    key,
                    name,
                    icon,
                    Value::Float(n.min),
                    Value::Float(n.max),
                    Value::Float(n.step),
                    hidden,
                    category,
                    Value::Text(n.unit@),
                    Value::Int(mode_number(n.mode)),
                    class,
                    device,
                ],
            ),
            Kind::Select { options } => raw_of::<proto::ListEntitiesSelectResponse>(
                seq![
                    id,
                    key,
                    name,
                    icon,
                    Value::Texts(message::chars(options@)),
                    hidden,
                    category,
                    device,
                ],
            ),
            Kind::BinarySensor => raw_of::<proto::ListEntitiesBinarySensorResponse>(
                seq![id, key, name, class, Value::Flag(false), hidden, icon, category, device],
            ),
            Kind::Sensor(s) => raw_of::<proto::ListEntitiesSensorResponse>(
                seq![
                    id,
                    key,
                    name,
                    icon,
                    Value::Text(s.unit@),
                    Value::Int(s.accuracy_decimals),
                    Value::Flag(false),
                    class,
                    Value::Int(class_number(s.state_class)),
                    Value::Int(0),
                    hidden,
                    category,
                    device,
                ],
            ),
            Kind::TextSensor => raw_of::<proto::ListEntitiesTextSensorResponse>(
                seq![id, key, name, icon, hidden, category, class, device],
            ),
            Kind::Button => raw_of::<proto::ListEntitiesButtonResponse>(
                seq![id, key, name, icon, hidden, category, class, device],
            ),
            Kind::Service { args } => raw_of::<proto::ListEntitiesServicesResponse>(
                seq![
                    id,
                    key,
                    Value::Parts(args@.map_values(|a: ServiceArg| arg_values(a))),
                    Value::Int(0),
                    name,
                ],
            ),
        }
    }

    /// The `ListEntities*Response` describing this entity.
    pub fn list_message(&self) -> (r: RawMessage)
        ensures
            r@ == self.listing(),
    {
        let object_id = self.meta.object_id.clone();
        let name = self.meta.name.clone();
        let icon = self.meta.icon.clone();
        let device_class = self.meta.device_class.clone();
        let disabled_by_default = self.meta.disabled_by_default;
        let entity_category: i32 = self.meta.category.number();
        let key: u32 = self.key;
        match &self.kind {
            Kind::Switch { assumed_state } => {
                let m = proto::ListEntitiesSwitchResponse {
                    object_id,
                    key,
                    name,
                    icon,
                    assumed_state: *assumed_state,
                    disabled_by_default,
                    entity_category,
                    device_class,
                    device_id: 0,
                };
                RawMessage::encode(&m)
            },
            Kind::Number(n) => {
                let m = proto::ListEntitiesNumberResponse {
                    object_id,
                    key,
                    name,
                    icon,
                    min_value: n.min,
                    max_value: n.max,
                    step: n.step,
                    disabled_by_default,
                    entity_category,
                    unit_of_measurement: n.unit.clone(),
                    mode: n.mode.number(),
                    device_class,
                    device_id: 0,
                };
                RawMessage::encode(&m)
            },
            Kind::Select { options } => {
                let m = proto::ListEntitiesSelectResponse {
                    object_id,
                    key,
                    name,
                    icon,
                    options: copy_strings(options),
                    disabled_by_default,
                    entity_category,
                    device_id: 0,
                };
                RawMessage::encode(&m)
            },
            Kind::BinarySensor => {
                let m = proto::ListEntitiesBinarySensorResponse {
                    object_id,
                    key,
                    name,
                    device_class,
                    is_status_binary_sensor: false,
                    disabled_by_default,
                    icon,
                    entity_category,
                    device_id: 0,
                };
                RawMessage::encode(&m)
            },
            Kind::Sensor(s) => {
                let m = proto::ListEntitiesSensorResponse {
                    object_id,
                    key,
                    name,
                    icon,
                    unit_of_measurement: s.unit.clone(),
                    accuracy_decimals: s.accuracy_decimals,
                    force_update: false,
                    device_class,
                    state_class: s.state_class.number(),
                    legacy_last_reset_type: 0,
                    disabled_by_default,
                    entity_category,
                    device_id: 0,
                };
                RawMessage::encode(&m)
            },
            Kind::TextSensor => {
                let m = proto::ListEntitiesTextSensorResponse {
                    object_id,
                    key,
                    name,
                    icon,
                    disabled_by_default,
                    entity_category,
                    device_class,
                    device_id: 0,
                };
                RawMessage::encode(&m)
            },
            Kind::Button => {
                let m = proto::ListEntitiesButtonResponse {
                    object_id,
                    key,
                    name,
                    icon,
                    disabled_by_default,
                    entity_category,
                    device_class,
                    device_id: 0,
                };
                RawMessage::encode(&m)
            },
            Kind::Service { args } => {
                let m = proto::ListEntitiesServicesResponse {
                    name: object_id,
                    key,
                    args: list_args(args),
                    supports_response: 0,
                    description: name,
                };
                RawMessage::encode(&m)
            },
        }
    }

    /// The message that carries a state of this entity, if the state is of its kind.
    pub open spec fn report(&self, state: Reading) -> Option<Raw> {
        let key = Value::Fixed(self.key);
        let present = Value::Flag(false);
        let device = Value::Uint(0);
        match (self.kind, state) {
            (Kind::Switch { assumed_state }, Reading::Bool(b)) => Some(
                raw_of::<proto::SwitchStateResponse>(seq![key, Value::Flag(b), device]),
            ),
            (Kind::BinarySensor, Reading::Bool(b)) => Some(
                raw_of::<proto::BinarySensorStateResponse>(
                    seq![key, Value::Flag(b), present, device],
                ),
            ),
            (Kind::Number(n), Reading::Float(f)) => Some(
                raw_of::<proto::NumberStateResponse>(seq![key, Value::Float(f), present, device]),
            ),
            (Kind::Sensor(s), Reading::Float(f)) => Some(
                raw_of::<proto::SensorStateResponse>(seq![key, Value::Float(f), present, device]),
            ),
            (Kind::Select { options }, Reading::Text(t)) => Some(
                raw_of::<proto::SelectStateResponse>(seq![key, Value::Text(t), present, device]),
            ),
            (Kind::TextSensor, Reading::Text(t)) => Some(
                raw_of::<proto::TextSensorStateResponse>(seq![key, Value::Text(t), present, device]),
            ),
            _ => None,
        }
    }

    /// The `*StateResponse` for this entity carrying `state`, or `None` if the state type
    /// does not fit the entity (caller bug) or the entity is stateless.
    pub fn state_message(&self, state: &State) -> (r: Option<RawMessage>)
        ensures
            match self.report(state@) {
                Some(m) => r is Some && (r->0)@ == m,
                None => r is None,
            },
    {
        let key: u32 = self.key;
        match (&self.kind, state) {
            (Kind::Switch { .. }, State::Bool(b)) => {
                let m = proto::SwitchStateResponse { key, state: *b, device_id: 0 };
                Some(RawMessage::encode(&m))
            },
            (Kind::BinarySensor, State::Bool(b)) => {
                let m = proto::BinarySensorStateResponse {
                    key,
                    state: *b,
                    missing_state: false,
                    device_id: 0,
                };
                Some(RawMessage::encode(&m))
            },
            (Kind::Number(_), State::Float(f)) => {
                let m = proto::NumberStateResponse {
                    key,
                    state: *f,
                    missing_state: false,
                    device_id: 0,
                };
                Some(RawMessage::encode(&m))
            },
            (Kind::Sensor(_), State::Float(f)) => {
                let m = proto::SensorStateResponse {
                    key,
                    state: *f,
                    missing_state: false,
                    device_id: 0,
                };
                Some(RawMessage::encode(&m))
            },
            (Kind::Select { .. }, State::Text(t)) => {
                let m = proto::SelectStateResponse {
                    key,
                    state: t.clone(),
                    missing_state: false,
                    device_id: 0,
                };
                Some(RawMessage::encode(&m))
            },
            (Kind::TextSensor, State::Text(t)) => {
                let m = proto::TextSensorStateResponse {
                    key,
                    state: t.clone(),
                    missing_state: false,
                    device_id: 0,
                };
                Some(RawMessage::encode(&m))
            },
            _ => None,
        }
    }
}

fn copy_strings(v: &Vec<String>) -> (r: Vec<String>)
    ensures
        message::chars(r@) == message::chars(v@),
{
    let mut out: Vec<String> = Vec::new();
    let mut i: usize = 0;
    while i < v.len()
        invariant
            i <= v@.len(),
            out@.len() == i,
            forall|j: int| 0 <= j < i ==> (#[trigger] out@[j])@ == v@[j]@,
        decreases v.len() - i,
    {
        out.push(v[i].clone());
        i += 1;
    }
    assert(message::chars(out@) =~= message::chars(v@));
    out
}

fn list_args(args: &Vec<ServiceArg>) -> (r: Vec<proto::ListEntitiesServicesArgument>)
    ensures
        r@.map_values(|a: proto::ListEntitiesServicesArgument| a.values()) == args@.map_values(
            |a: ServiceArg| arg_values(a),
        ),
{
    let mut out: Vec<proto::ListEntitiesServicesArgument> = Vec::new();
    let mut i: usize = 0;
    while i < args.len()
        invariant
            i <= args@.len(),
            out@.len() == i,
            forall|j: int| 0 <= j < i ==> (#[trigger] out@[j]).values() == arg_values(args@[j]),
        decreases args.len() - i,
    {
        let a = proto::ListEntitiesServicesArgument {
            name: args[i].name.clone(),
            ty: args[i].ty.number(),
            description: String::new(),
            example: String::new(),
        };
        assert(a.values() =~= arg_values(args@[i as int]));
        out.push(a);
        i += 1;
    }
    assert(out@.map_values(|a: proto::ListEntitiesServicesArgument| a.values())
        =~= args@.map_values(|a: ServiceArg| arg_values(a)));
    out
}

// ----- the registry --------------------------------------------------------------------------------

/// All entities of the device, in list order. Keys are derived from object ids and must be unique.
#[derive(Debug, Clone)]
pub struct Registry {
    entities: Vec<Entity>,
}

/// The first entity with a key.
pub open spec fn find(entities: Seq<Entity>, key: u32) -> Option<Entity>
    decreases entities.len(),
{
    if entities.len() == 0 {
        None
    } else if entities[0].key == key {
        Some(entities[0])
    } else {
        find(entities.skip(1), key)
    }
}

/// Every key is that of its object id, and no key is used twice.
pub open spec fn well_keyed(entities: Seq<Entity>) -> bool {
    &&& forall|i: int|
        0 <= i < entities.len() ==> (#[trigger] entities[i]).key == key_of(
            entities[i].meta.object_id@,
        )
    &&& forall|i: int, j: int|
        0 <= i < j < entities.len() ==> (#[trigger] entities[i]).key != (
        #[trigger] entities[j]).key
}

impl View for Registry {
    type V = Seq<Entity>;

    closed spec fn view(&self) -> Seq<Entity> {
        self.entities@
    }
}

impl Registry {
    pub fn new() -> (r: Registry)
        ensures
            r@ == Seq::<Entity>::empty(),
    {
        Registry { entities: Vec::new() }
    }

    /// No entity has the key.
    pub open spec fn free(&self, key: u32) -> bool {
        find(self@, key) is None
    }

    /// Register an entity and return its key. The object id must be new.
    pub fn add(&mut self, meta: Meta, kind: Kind) -> (key: u32)
        requires
            old(self).free(key_of(meta.object_id@)),
        ensures
            key == key_of(meta.object_id@),
            final(self)@ == old(self)@.push(Entity { key, meta, kind }),
    {
        let key = fnv1_hash(meta.object_id.as_str());
        self.entities.push(Entity { key, meta, kind });
        key
    }

    /// Register an entity and return its key, unless the object id is taken.
    pub fn try_add(&mut self, meta: Meta, kind: Kind) -> (r: Option<u32>)
        ensures
            old(self).free(key_of(meta.object_id@)) ==> {
                let key = key_of(meta.object_id@);
                r == Some(key) && final(self)@ == old(self)@.push(Entity { key, meta, kind })
            },
            !old(self).free(key_of(meta.object_id@)) ==> r is None && final(self)@ == old(self)@,
    {
        let key = fnv1_hash(meta.object_id.as_str());
        if self.get(key).is_some() {
            return None;
        }
        Some(self.add(meta, kind))
    }

    pub fn switch(&mut self, meta: Meta) -> (key: u32)
        requires
            old(self).free(key_of(meta.object_id@)),
        ensures
            key == key_of(meta.object_id@),
            final(self)@ == old(self)@.push(
                Entity { key, meta, kind: Kind::Switch { assumed_state: false } },
            ),
    {
        self.add(meta, Kind::Switch { assumed_state: false })
    }

    /// The bounds are given as the four bytes of each.
    pub fn number(
        &mut self,
        meta: Meta,
        min: u32,
        max: u32,
        step: u32,
        unit: &str,
        mode: NumberMode,
    ) -> (key: u32)
        requires
            old(self).free(key_of(meta.object_id@)),
        ensures
            key == key_of(meta.object_id@),
            exists|u: String|
                u@ == unit@ && final(self)@ == #[trigger] old(self)@.push(
                    Entity { key, meta, kind: Kind::Number(NumberSpec { min, max, step, unit: u, mode }) },
                ),
    {
        let u = unit.to_owned();
        let kind = Kind::Number(NumberSpec { min, max, step, unit: u, mode });
        self.add(meta, kind)
    }

    pub fn select(&mut self, meta: Meta, options: &[&str]) -> (key: u32)
        requires
            old(self).free(key_of(meta.object_id@)),
        ensures
            key == key_of(meta.object_id@),
            exists|o: Vec<String>|
                message::chars(o@) == options@.map_values(|s: &str| s@) && final(self)@
                    == #[trigger] old(self)@.push(
                    Entity { key, meta, kind: Kind::Select { options: o } },
                ),
    {
        let mut o: Vec<String> = Vec::new();
        let mut i: usize = 0;
        while i < options.len()
            invariant
                i <= options@.len(),
                o@.len() == i,
                forall|j: int| 0 <= j < i ==> (#[trigger] o@[j])@ == options@[j]@,
            decreases options.len() - i,
        {
            o.push(options[i].to_owned());
            i += 1;
        }
        assert(message::chars(o@) =~= options@.map_values(|s: &str| s@));
        self.add(meta, Kind::Select { options: o })
    }

    pub fn binary_sensor(&mut self, meta: Meta) -> (key: u32)
        requires
            old(self).free(key_of(meta.object_id@)),
        ensures
            key == key_of(meta.object_id@),
            final(self)@ == old(self)@.push(Entity { key, meta, kind: Kind::BinarySensor }),
    {
        self.add(meta, Kind::BinarySensor)
    }

    pub fn sensor(
        &mut self,
        meta: Meta,
        unit: &str,
        accuracy_decimals: i32,
        state_class: SensorStateClass,
    ) -> (key: u32)
        requires
            old(self).free(key_of(meta.object_id@)),
        ensures
            key == key_of(meta.object_id@),
            exists|u: String|
                u@ == unit@ && final(self)@ == #[trigger] old(self)@.push(
                    Entity {
                        key,
                        meta,
                        kind: Kind::Sensor(
                            SensorSpec { unit: u, accuracy_decimals, state_class },
                        ),
                    },
                ),
    {
        let u = unit.to_owned();
        self.add(meta, Kind::Sensor(SensorSpec { unit: u, accuracy_decimals, state_class }))
    }

    pub fn text_sensor(&mut self, meta: Meta) -> (key: u32)
        requires
            old(self).free(key_of(meta.object_id@)),
        ensures
            key == key_of(meta.object_id@),
            final(self)@ == old(self)@.push(Entity { key, meta, kind: Kind::TextSensor }),
    {
        self.add(meta, Kind::TextSensor)
    }

    pub fn button(&mut self, meta: Meta) -> (key: u32)
        requires
            old(self).free(key_of(meta.object_id@)),
        ensures
            key == key_of(meta.object_id@),
            final(self)@ == old(self)@.push(Entity { key, meta, kind: Kind::Button }),
    {
        self.add(meta, Kind::Button)
    }

    /// `name` becomes the action `esphome.<device>_<name>` in HA.
    pub fn service(&mut self, name: &str, args: &[(&str, ServiceArgType)]) -> (key: u32)
        requires
            old(self).free(key_of(name@)),
        ensures
            key == key_of(name@),
            final(self)@.len() == old(self)@.len() + 1,
            final(self)@.drop_last() == old(self)@,
            is_service(final(self)@.last(), key, name@, args@),
    {
        let a = service_args(args);
        let meta = Meta::new(name, name);
        let key = self.add(meta, Kind::Service { args: a });
        assert(self@.drop_last() =~= old(self)@);
        key
    }

    pub fn get(&self, key: u32) -> (r: Option<&Entity>)
        ensures
            match find(self@, key) {
                Some(e) => r is Some && *(r->0) == e,
                None => r is None,
            },
    {
        let mut i: usize = 0;
        assert(self@.skip(0) =~= self@);
        while i < self.entities.len()
            invariant
                i <= self.entities@.len(),
                find(self@, key) == find(self@.skip(i as int), key),
            decreases self.entities.len() - i,
        {
            assert(self@.skip(i as int).skip(1) =~= self@.skip(i + 1));
            if self.entities[i].key == key {
                return Some(&self.entities[i]);
            }
            i += 1;
        }
        None
    }

    /// All entities, in list order.
    pub fn iter(&self) -> (r: &[Entity])
        ensures
            r@ == self@,
    {
        self.entities.as_slice()
    }

    pub fn len(&self) -> (r: usize)
        ensures
            r == self@.len(),
    {
        self.entities.len()
    }

    pub fn is_empty(&self) -> (r: bool)
        ensures
            r == (self@.len() == 0),
    {
        self.entities.len() == 0
    }
}

/// The entity is the service of that name with those arguments, and nothing else is set.
pub open spec fn is_service(
    e: Entity,
    key: u32,
    name: Seq<char>,
    args: Seq<(&str, ServiceArgType)>,
) -> bool {
    &&& e.key == key
    &&& e.meta.object_id@ == name
    &&& e.meta.name@ == name
    &&& e.meta.icon@ == Seq::<char>::empty()
    &&& e.meta.device_class@ == Seq::<char>::empty()
    &&& e.meta.category == EntityCategory::Plain
    &&& !e.meta.disabled_by_default
    &&& e.kind matches Kind::Service { args: a } && a@.len() == args.len() && forall|i: int|
        0 <= i < args.len() ==> (#[trigger] a@[i]).name@ == args[i].0@ && a@[i].ty == args[i].1
}

pub(crate) fn service_args(args: &[(&str, ServiceArgType)]) -> (r: Vec<ServiceArg>)
    ensures
        r@.len() == args@.len(),
        forall|i: int|
            0 <= i < args@.len() ==> (#[trigger] r@[i]).name@ == args@[i].0@ && r@[i].ty
                == args@[i].1,
{
    let mut out: Vec<ServiceArg> = Vec::new();
    let mut i: usize = 0;
    while i < args.len()
        invariant
            i <= args@.len(),
            out@.len() == i,
            forall|j: int|
                0 <= j < i ==> (#[trigger] out@[j]).name@ == args@[j].0@ && out@[j].ty
                    == args@[j].1,
        decreases args.len() - i,
    {
        out.push(ServiceArg { name: args[i].0.to_owned(), ty: args[i].1 });
        i += 1;
    }
    out
}

// ----- laws ----------------------------------------------------------------------------------------

/// The entity that is found has the key, and none is found only if none has it.
pub proof fn lemma_find(entities: Seq<Entity>, key: u32)
    ensures
        match find(entities, key) {
            Some(e) => e.key == key && entities.contains(e),
            None => forall|i: int|
                0 <= i < entities.len() ==> (#[trigger] entities[i]).key != key,
        },
    decreases entities.len(),
{
    if entities.len() > 0 && entities[0].key != key {
        let tail = entities.skip(1);
        lemma_find(tail, key);
        match find(tail, key) {
            Some(e) => {
                let i = choose|i: int| 0 <= i < tail.len() && tail[i] == e;
                assert(entities[i + 1] == e);
            },
            None => {
                assert forall|i: int| 0 <= i < entities.len() implies (
                #[trigger] entities[i]).key != key by {
                    if i > 0 {
                        assert(entities[i] == tail[i - 1]);
                    }
                }
            },
        }
    }
}

/// Keys stay unique: an entity whose object id is new can be added.
pub proof fn law_keys_stay_unique(entities: Seq<Entity>, e: Entity)
    requires
        well_keyed(entities),
        e.key == key_of(e.meta.object_id@),
        find(entities, e.key) is None,
    ensures
        well_keyed(entities.push(e)),
{
    lemma_find(entities, e.key);
}

/// An entity that was added is found under its key, and what was found before is found still.
pub proof fn law_added_entities_are_found(entities: Seq<Entity>, e: Entity, key: u32)
    requires
        find(entities, e.key) is None,
    ensures
        find(entities.push(e), e.key) == Some(e),
        key != e.key ==> find(entities.push(e), key) == find(entities, key),
    decreases entities.len(),
{
    let all = entities.push(e);
    if entities.len() == 0 {
        assert(all.skip(1) =~= seq![]);
        reveal_with_fuel(find, 2);
    } else {
        let tail = entities.skip(1);
        assert(all.skip(1) =~= tail.push(e));
        law_added_entities_are_found(tail, e, key);
    }
}

/// Exactly the entities that have a state can report one, and each reports states of one type
/// only.
pub proof fn law_only_stateful_entities_report(e: Entity)
    ensures
        e.stateful() <==> exists|s: Reading| (#[trigger] e.report(s)) is Some,
        forall|s: Reading, t: Reading|
            (#[trigger] e.report(s)) is Some && (#[trigger] e.report(t)) is Some ==> (s is Bool
                <==> t is Bool) && (s is Float <==> t is Float) && (s is Text <==> t is Text),
{
    if e.stateful() {
        assert(e.report(Reading::Bool(true)) is Some || e.report(Reading::Float(0)) is Some
            || e.report(Reading::Text(seq![])) is Some);
    }
}

} // verus!
