//! Transport and subscription machinery of an OPC-UA binary-protocol client:
//! handle generators, the outbound send buffer, the table of pending requests
//! with inbound chunk reassembly, and the decisions of the subscription loop.

pub mod chunk;
pub mod frames;
pub mod handle;
pub mod merge;
pub mod pending;
pub mod send_buffer;
pub mod sequence;
pub mod status;
pub mod subscription;
pub mod transport;
