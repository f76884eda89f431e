//! A codec for the RESP wire protocol of a key-value store.
//!
//! A frame is one protocol value. [`RespDecode`] reads one frame from the
//! front of a byte buffer that a connection fills piece by piece, and takes
//! bytes off that buffer only when a whole frame was read. [`RespEncode`]
//! turns a frame into its bytes. [`cmd`] reads commands of the store from
//! the arrays that are decoded.
//!
//! Every contract is stated over the mathematical model of a frame in
//! [`model`] and over the wire format in [`grammar`]. [`laws`] states what
//! writing and reading have to do with each other; the modules [`lines`],
//! [`written`], [`readback`], [`prefix`], [`waits`] and [`parts`] hold the
//! proofs.
use vstd::prelude::*;

pub mod buffer;
pub mod cmd;
pub mod decode;
pub mod encode;
pub mod error;
pub mod frame;
pub mod grammar;
pub mod laws;
pub mod lines;
pub mod model;
pub mod numeral;
pub mod parts;
pub mod prefix;
pub mod readback;
pub mod scan;
pub mod text;
pub mod waits;
pub mod written;

pub use decode::RespDecode;
pub use encode::RespEncode;
pub use error::ErrorKind;
pub use error::RespError;
pub use frame::Array;
pub use frame::BulkError;
pub use frame::BulkString;
pub use frame::Null;
pub use frame::NullArray;
pub use frame::NullBulkString;
pub use frame::RespFrame;
pub use frame::RespMap;
pub use frame::RespSet;
pub use frame::SimpleError;
pub use frame::SimpleString;

verus! {

} // verus!
