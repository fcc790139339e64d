//! The BLE receive medium of a Nearby / Quick Share endpoint: advertisement
//! encoding, the framed L2CAP protocol, and the decisions of the bridge between an
//! L2CAP channel and an inbound transfer.

pub mod advertisement;
pub mod bridge;
pub mod bytes;
pub mod command;
pub mod control;
pub mod digest;
pub mod fields;
pub mod framing;
pub mod psm;
mod random;
pub mod server;
pub mod varint;
