//! Picks which physical displays take part in a remote-desktop session.
//!
//! The library resolves the display topology from the platform's two
//! enumerations, keeps the one shared selection state that every overlay
//! window reads and changes, decides what each overlay shows, and patches the
//! multi-monitor directives into a connection profile.
use vstd::prelude::*;

pub mod monitor;
pub mod overlay;
pub mod profile;
pub mod selection;
pub mod text;
pub mod topology;

verus! {

} // verus!
