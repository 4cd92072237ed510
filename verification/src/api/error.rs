//! What can go wrong on a connection.

use vstd::prelude::*;

verus! {

/// What prost reports about bytes that are no Protobuf message.
#[verifier::external_type_specification]
#[verifier::external_body]
pub struct ExDecodeError(prost::DecodeError);

#[derive(Debug)]
pub enum Error {
    /// The payload of a message is no Protobuf message of its type.
    Decode(prost::DecodeError),
    /// The bytes on the wire are no frame.
    Frame(&'static str),
    /// The Noise handshake, or the encryption after it, failed.
    Handshake(String),
    /// The peer closed the connection.
    Closed,
}

/// An error as contracts speak of it: without what prost says about a payload.
pub enum Fault {
    Decode,
    Frame(Seq<char>),
    Handshake(Seq<char>),
    Closed,
}

impl View for Error {
    type V = Fault;

    open spec fn view(&self) -> Fault {
        match self {
            Error::Decode(_) => Fault::Decode,
            Error::Frame(s) => Fault::Frame(s@),
            Error::Handshake(s) => Fault::Handshake(s@),
            Error::Closed => Fault::Closed,
        }
    }
}

} // verus!
