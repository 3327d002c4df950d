//! The `profile create` subcommand: the profile it builds and adds.
use vstd::prelude::*;
use crate::config::{GameDetails, ModConfig, ProfileOptions};

verus! {

/// The profile that `profile create` adds: the given details and an empty
/// mod list.
pub fn new_profile(name: String, version: String, directory: String, loader: String) -> (p:
    ProfileOptions)
    ensures
        p.name == name,
        p.game.version == version,
        p.game.directory == directory,
        p.mod_config.loader == loader,
        p.mod_config.list@.len() == 0,
{
    ProfileOptions {
        name,
        game: GameDetails { version, directory },
        mod_config: ModConfig { loader, list: Vec::new() },
    }
}

} // verus!
