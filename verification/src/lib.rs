//! Verified core of the xenstore client for Windows guests that talks to the
//! xeniface driver: the NUL-separated payload format of store requests and
//! replies, the driver's I/O control codes, the decoding of store replies,
//! the walk over the driver's device interfaces, and the bookkeeping of the
//! device multiplexer.
pub mod device;
pub mod ioctl;
pub mod multiplex;
pub mod payload;
pub mod store;
