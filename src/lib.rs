//! Layered decoding of Ethernet frames into typed protocol headers, over a
//! table-driven bit-field codec.
//!
//! `codec` reads and writes fields packed most-significant-bit first;
//! `layout` describes a header as an ordered table of fields and accesses
//! fields through it; `eth`, `ipv4`, `ipv6` and `tcp` give the tables and the
//! per-header decisions; `packet` chains the layers.
pub mod codec;
pub mod error;
pub mod eth;
pub mod ipv4;
pub mod ipv6;
pub mod layout;
pub mod packet;
pub mod tcp;
pub mod util;

pub use error::PacketError;
