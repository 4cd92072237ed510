//! The messages of the API that a relay device uses.

use vstd::prelude::*;

use crate::api::message::ApiMessage;

pub mod command;
pub mod list;
pub mod session;
pub mod state;

pub use command::{
    ButtonCommandRequest, ExecuteServiceArgument, ExecuteServiceRequest, NumberCommandRequest,
    SelectCommandRequest, SwitchCommandRequest,
};
pub use list::{
    ListEntitiesBinarySensorResponse, ListEntitiesButtonResponse, ListEntitiesNumberResponse,
    ListEntitiesSelectResponse, ListEntitiesSensorResponse, ListEntitiesServicesArgument,
    ListEntitiesServicesResponse, ListEntitiesSwitchResponse, ListEntitiesTextSensorResponse,
};
pub use session::{
    AuthenticationRequest, DeviceInfoRequest, DeviceInfoResponse, DisconnectRequest,
    DisconnectResponse, GetTimeRequest, GetTimeResponse, HelloRequest, HelloResponse,
    ListEntitiesDoneResponse, ListEntitiesRequest, PingRequest, PingResponse,
    SubscribeHomeAssistantStatesRequest, SubscribeHomeassistantServicesRequest,
    SubscribeLogsRequest, SubscribeStatesRequest,
};
pub use state::{
    BinarySensorStateResponse, NumberStateResponse, SelectStateResponse, SensorStateResponse,
    SwitchStateResponse, TextSensorStateResponse,
};

verus! {

/// The constants are the numbers that contracts speak of.
pub proof fn lemma_ids()
    ensures
        AuthenticationRequest::ID == AuthenticationRequest::id(),
        ButtonCommandRequest::ID == ButtonCommandRequest::id(),
        DeviceInfoRequest::ID == DeviceInfoRequest::id(),
        DisconnectRequest::ID == DisconnectRequest::id(),
        DisconnectResponse::ID == DisconnectResponse::id(),
        ExecuteServiceRequest::ID == ExecuteServiceRequest::id(),
        GetTimeRequest::ID == GetTimeRequest::id(),
        GetTimeResponse::ID == GetTimeResponse::id(),
        HelloRequest::ID == HelloRequest::id(),
        ListEntitiesRequest::ID == ListEntitiesRequest::id(),
        NumberCommandRequest::ID == NumberCommandRequest::id(),
        PingRequest::ID == PingRequest::id(),
        PingResponse::ID == PingResponse::id(),
        SelectCommandRequest::ID == SelectCommandRequest::id(),
        SubscribeHomeAssistantStatesRequest::ID == SubscribeHomeAssistantStatesRequest::id(),
        SubscribeHomeassistantServicesRequest::ID == SubscribeHomeassistantServicesRequest::id(),
        SubscribeLogsRequest::ID == SubscribeLogsRequest::id(),
        SubscribeStatesRequest::ID == SubscribeStatesRequest::id(),
        SwitchCommandRequest::ID == SwitchCommandRequest::id(),
{
    AuthenticationRequest::lemma_id();
    ButtonCommandRequest::lemma_id();
    DeviceInfoRequest::lemma_id();
    DisconnectRequest::lemma_id();
    DisconnectResponse::lemma_id();
    ExecuteServiceRequest::lemma_id();
    GetTimeRequest::lemma_id();
    GetTimeResponse::lemma_id();
    HelloRequest::lemma_id();
    ListEntitiesRequest::lemma_id();
    NumberCommandRequest::lemma_id();
    PingRequest::lemma_id();
    PingResponse::lemma_id();
    SelectCommandRequest::lemma_id();
    SubscribeHomeAssistantStatesRequest::lemma_id();
    SubscribeHomeassistantServicesRequest::lemma_id();
    SubscribeLogsRequest::lemma_id();
    SubscribeStatesRequest::lemma_id();
    SwitchCommandRequest::lemma_id();
}

/// Where Home Assistant shows an entity.
#[derive(Debug, Clone, Copy, PartialEq, Eq, Structural)]
pub enum EntityCategory {
    Plain,
    Config,
    Diagnostic,
}

impl EntityCategory {
    pub fn number(self) -> (r: i32)
        ensures
            r == (match self {
                EntityCategory::Plain => 0i32,
                EntityCategory::Config => 1,
                EntityCategory::Diagnostic => 2,
            }),
    {
        match self {
            EntityCategory::Plain => 0,
            EntityCategory::Config => 1,
            EntityCategory::Diagnostic => 2,
        }
    }
}

impl Default for EntityCategory {
    fn default() -> (r: Self)
        ensures
            r == EntityCategory::Plain,
    {
        EntityCategory::Plain
    }
}

/// How Home Assistant lets a number be entered.
#[derive(Debug, Clone, Copy, PartialEq, Eq, Structural)]
pub enum NumberMode {
    Auto,
    Box,
    Slider,
}

impl NumberMode {
    pub fn number(self) -> (r: i32)
        ensures
            r == (match self {
                NumberMode::Auto => 0i32,
                NumberMode::Box => 1,
                NumberMode::Slider => 2,
            }),
    {
        match self {
            NumberMode::Auto => 0,
            NumberMode::Box => 1,
            NumberMode::Slider => 2,
        }
    }
}

/// What the states of a sensor mean over time.
#[derive(Debug, Clone, Copy, PartialEq, Eq, Structural)]
pub enum SensorStateClass {
    StateClassNone,
    StateClassMeasurement,
    StateClassTotalIncreasing,
    StateClassTotal,
}

impl SensorStateClass {
    pub fn number(self) -> (r: i32)
        ensures
            r == (match self {
                SensorStateClass::StateClassNone => 0i32,
                SensorStateClass::StateClassMeasurement => 1,
                SensorStateClass::StateClassTotalIncreasing => 2,
                SensorStateClass::StateClassTotal => 3,
            }),
    {
        match self {
            SensorStateClass::StateClassNone => 0,
            SensorStateClass::StateClassMeasurement => 1,
            SensorStateClass::StateClassTotalIncreasing => 2,
            SensorStateClass::StateClassTotal => 3,
        }
    }
}

/// The type of an argument of an action.
#[derive(Debug, Clone, Copy, PartialEq, Eq, Structural)]
pub enum ServiceArgType {
    Bool,
    Int,
    Float,
    String,
    BoolArray,
    IntArray,
    FloatArray,
    StringArray,
}

impl ServiceArgType {
    pub fn number(self) -> (r: i32)
        ensures
            r == (match self {
                ServiceArgType::Bool => 0i32,
                ServiceArgType::Int => 1,
                ServiceArgType::Float => 2,
                ServiceArgType::String => 3,
                ServiceArgType::BoolArray => 4,
                ServiceArgType::IntArray => 5,
                ServiceArgType::FloatArray => 6,
                ServiceArgType::StringArray => 7,
            }),
    {
        match self {
            ServiceArgType::Bool => 0,
            ServiceArgType::Int => 1,
            ServiceArgType::Float => 2,
            ServiceArgType::String => 3,
            ServiceArgType::BoolArray => 4,
            ServiceArgType::IntArray => 5,
            ServiceArgType::FloatArray => 6,
            ServiceArgType::StringArray => 7,
        }
    }
}

/// The name of the message with an id.
pub open spec fn name_of(id: u32) -> Seq<char> {
    if id == 1 {
        "HelloRequest"@
    } else if id == 2 {
        "HelloResponse"@
    } else if id == 3 {
        "AuthenticationRequest"@
    } else if id == 5 {
        "DisconnectRequest"@
    } else if id == 6 {
        "DisconnectResponse"@
    } else if id == 7 {
        "PingRequest"@
    } else if id == 8 {
        "PingResponse"@
    } else if id == 9 {
        "DeviceInfoRequest"@
    } else if id == 10 {
        "DeviceInfoResponse"@
    } else if id == 11 {
        "ListEntitiesRequest"@
    } else if id == 12 {
        "ListEntitiesBinarySensorResponse"@
    } else if id == 16 {
        "ListEntitiesSensorResponse"@
    } else if id == 17 {
        "ListEntitiesSwitchResponse"@
    } else if id == 18 {
        "ListEntitiesTextSensorResponse"@
    } else if id == 19 {
        "ListEntitiesDoneResponse"@
    } else if id == 20 {
        "SubscribeStatesRequest"@
    } else if id == 21 {
        "BinarySensorStateResponse"@
    } else if id == 25 {
        "SensorStateResponse"@
    } else if id == 26 {
        "SwitchStateResponse"@
    } else if id == 27 {
        "TextSensorStateResponse"@
    } else if id == 28 {
        "SubscribeLogsRequest"@
    } else if id == 29 {
        "SubscribeLogsResponse"@
    } else if id == 33 {
        "SwitchCommandRequest"@
    } else if id == 34 {
        "SubscribeHomeassistantServicesRequest"@
    } else if id == 36 {
        "GetTimeRequest"@
    } else if id == 37 {
        "GetTimeResponse"@
    } else if id == 38 {
        "SubscribeHomeAssistantStatesRequest"@
    } else if id == 41 {
        "ListEntitiesServicesResponse"@
    } else if id == 42 {
        "ExecuteServiceRequest"@
    } else if id == 49 {
        "ListEntitiesNumberResponse"@
    } else if id == 50 {
        "NumberStateResponse"@
    } else if id == 51 {
        "NumberCommandRequest"@
    } else if id == 52 {
        "ListEntitiesSelectResponse"@
    } else if id == 53 {
        "SelectStateResponse"@
    } else if id == 54 {
        "SelectCommandRequest"@
    } else if id == 61 {
        "ListEntitiesButtonResponse"@
    } else if id == 62 {
        "ButtonCommandRequest"@
    } else {
        "unknown"@
    }
}

/// The name of the message with an id, for the log.
pub fn message_name(id: u32) -> (r: &'static str)
    ensures
        r@ == name_of(id),
{
    match id {
        1 => "HelloRequest",
        2 => "HelloResponse",
        3 => "AuthenticationRequest",
        5 => "DisconnectRequest",
        6 => "DisconnectResponse",
        7 => "PingRequest",
        8 => "PingResponse",
        9 => "DeviceInfoRequest",
        10 => "DeviceInfoResponse",
        11 => "ListEntitiesRequest",
        12 => "ListEntitiesBinarySensorResponse",
        16 => "ListEntitiesSensorResponse",
        17 => "ListEntitiesSwitchResponse",
        18 => "ListEntitiesTextSensorResponse",
        19 => "ListEntitiesDoneResponse",
        20 => "SubscribeStatesRequest",
        21 => "BinarySensorStateResponse",
        25 => "SensorStateResponse",
        26 => "SwitchStateResponse",
        27 => "TextSensorStateResponse",
        28 => "SubscribeLogsRequest",
        29 => "SubscribeLogsResponse",
        33 => "SwitchCommandRequest",
        34 => "SubscribeHomeassistantServicesRequest",
        36 => "GetTimeRequest",
        37 => "GetTimeResponse",
        38 => "SubscribeHomeAssistantStatesRequest",
        41 => "ListEntitiesServicesResponse",
        42 => "ExecuteServiceRequest",
        49 => "ListEntitiesNumberResponse",
        50 => "NumberStateResponse",
        51 => "NumberCommandRequest",
        52 => "ListEntitiesSelectResponse",
        53 => "SelectStateResponse",
        54 => "SelectCommandRequest",
        61 => "ListEntitiesButtonResponse",
        62 => "ButtonCommandRequest",
        _ => "unknown",
    }
}

} // verus!
