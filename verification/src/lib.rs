//! An iterative DNS resolver: the wire codec for DNS messages and the
//! delegation walk from the root servers down to an answer.
//!
//! The library performs no I/O. [`query`] and [`Resolver`] decide what to
//! send next and what each reply means; the caller owns the socket.

// Imports that only contracts and proofs use are unused once those are erased.
#![allow(unused_imports)]

pub mod error;
pub mod laws;
pub mod message;
pub mod record;
pub mod resolver;
pub mod text;
pub mod utils;
pub mod wire;

pub use error::{Error, ErrorView, NameServerError};
pub use message::{Message, MessageHeader, MessageQuestion};
pub use record::{
    Ipv4Address, Ipv6Address, RecordClass, RecordData, RecordType, ResourceRecord, SoaRecord,
};
pub use resolver::{query, Protocol, Resolver, Step};
