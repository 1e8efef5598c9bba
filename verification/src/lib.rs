//! A LAN-local peer-to-peer file-sharing engine: replicated share
//! directories, a convergent merge, and a framed wire codec, with the
//! protocol decision logic factored into pure, verified transition
//! functions.

pub mod codec;
pub mod data;
pub mod discovery;
pub mod server;
pub mod session;
pub mod store;
pub mod peer;
pub mod text;
pub mod window;

use vstd::prelude::*;

verus! {

} // verus!
