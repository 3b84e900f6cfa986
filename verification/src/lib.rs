//! PeerCode's collaborative-editor core: configuration, identity, document
//! file formats and names, the garbage-collection floor of the CRDT state,
//! session roles and URLs, and the tunnel/gateway process protocols.
use vstd::prelude::*;

pub mod config;
pub mod gc;
pub mod identity;
pub mod line_endings;
pub mod metrics;
pub mod paths;
pub mod persistence;
pub mod processes;
pub mod session;
pub mod sv_report;
pub mod text;
pub mod urls;

verus! {

} // verus!
