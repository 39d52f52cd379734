//! A verified DNS message codec for a stub-resolver query tool.
//!
//! The crate builds a single-question query datagram, decodes an arbitrary
//! response datagram into its header, question, answer, authority and
//! additional sections (with the EDNS(0) OPT pseudo-record pulled out), and
//! renders a decoded message as a diagnostic text report.
//!
//! Every codec is a pair of executable functions over byte buffers whose
//! contracts are stated over mathematical models of the wire format.

pub mod assemble;
pub mod error;
pub mod format;
pub mod header;
pub mod message;
pub mod name;
pub mod opt;
pub mod present;
pub mod record;
pub mod text;
pub mod wire;
