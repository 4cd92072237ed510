//! Device side of the ESPHome native API, free of any I/O: bytes go in, bytes and events come out.

pub mod codec;
pub mod device;
pub mod entity;
pub mod entity_laws;
pub mod error;
pub mod frame;
pub mod logs;
pub mod message;
pub mod noise;
pub mod proto;
pub mod round_trip;
pub mod runner;
pub mod server;
pub mod session;
pub mod session_laws;
pub mod varint;
pub mod wire;

pub use device::Device;
pub use entity::{Kind, Meta, Registry, State};
pub use error::Error;
pub use message::ApiMessage;
pub use server::Server;
pub use session::{Command, Event, Session};
