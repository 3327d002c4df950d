//! A verified core for managing Minecraft profiles: parsing of user input,
//! validation of entries, and the bookkeeping of the profile list.
use vstd::prelude::*;

pub mod cli;
pub mod config;
pub mod text;
pub mod utils;

verus! {

} // verus!
