//! Verified core of a Lua script host: the HTTP dispatch server that lets
//! concurrent requests call handlers in a single-threaded interpreter, the
//! conversion between interpreter values and interchange values, and the
//! path, version, logging and timing helpers that scripts use.
use vstd::prelude::*;

pub mod bridge;
pub mod dispatch;
pub mod ini;
pub mod logger;
pub mod paths;
pub mod registry;
pub mod routes;
pub mod server;
pub mod stopwatch;
pub mod text;
pub mod version;

verus! {

} // verus!
