//! A verified core for a SkySpark (Project Haystack) client.
//!
//! The library models Haystack values and grids, provides the Hayson
//! (JSON) wire codec for them, builds the request grids for each
//! protocol operation, and computes the SCRAM credential proof used by
//! the authentication handshake.  The HTTP transport and the blocking
//! facade that drives it live outside the library.

pub mod auth;
pub mod codec;
pub mod crypto;
pub mod dates;
pub mod hayson;
pub mod json;
pub mod ops;
pub mod parse;
pub mod strutil;
pub mod tagname;
pub mod tz;
pub mod value;

use vstd::prelude::*;

verus! {

} // verus!
