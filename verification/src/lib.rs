//! The verified core of a network inspector.
//!
//! The inspector resolves a domain, pings each of its addresses, looks up their
//! names and locations, and scans their TCP ports. This library holds what it
//! decides and computes; sockets, processes, threads and windows are left to the
//! program around it.
//!
//! - [`text`] and [`addr`]: text primitives and Internet addresses.
//! - [`notation`]: addresses by octets and segments; their text names no other.
//! - [`geo`], [`reverse`] and [`ping`]: what is asked of the outside about an
//!   address, and what the answers say.
//! - [`scan`]: which ports are tried, and the record of a scan.
//! - [`results`]: the results by address.
//! - [`inspect`]: the work of the workers of an inspection.
//! - [`state`]: the state of the inspector, its requests and reports.
//! - [`display`]: what is shown.
//! - [`laws`]: what holds of the inspector as a whole.

pub mod addr;
pub mod display;
pub mod geo;
pub mod inspect;
pub mod laws;
pub mod notation;
pub mod ping;
pub mod results;
pub mod reverse;
pub mod scan;
pub mod state;
pub mod text;
