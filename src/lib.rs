//! The core of a desktop host for a local web application: a resource server
//! that answers requests for files under the application directory and never
//! serves anything outside it, and a command bridge that accepts invocations
//! from the hosted page, keeps one pending entry per correlation token, and
//! turns each process report into exactly one outcome message.
use vstd::prelude::*;

pub mod bridge;
pub mod mime;
pub mod resource;
pub mod wire;

verus! {

} // verus!
