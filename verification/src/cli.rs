//! Everything related to the command line: the arguments and subcommands.
pub mod profile;

use vstd::prelude::*;

verus! {

/// Minework helps you manage your Minecraft mods, mod packs, resource packs,
/// data packs, shaders and plugins from Modrinth.
#[derive(Debug, PartialEq, Eq)]
pub struct Args {
    /// The subcommand to run.
    pub subcommand: SubCommand,
    /// The file path to read the configuration from.
    pub config_file: String,
    /// Disable colored outputs.
    pub no_color: bool,
    /// Disable the file location section in error outputs.
    pub no_location_section: bool,
    /// Disable the backtrace section in error outputs.
    pub no_backtrace_section: bool,
    /// Run in non-interactive mode.
    pub non_interactive: bool,
}

/// The subcommands that can be given. The mod, modpack, resourcepack,
/// datapack, shader and plugin subcommands have no subcommand of their own
/// yet, so no value of them exists and they have no variant here.
#[derive(Debug, PartialEq, Eq)]
pub enum SubCommand {
    /// Manage profiles.
    Profile(ProfileCommand),
    /// Generate completions for your shell.
    Completion(Shell),
}

/// The `profile` subcommands.
#[derive(Debug, PartialEq, Eq)]
pub enum ProfileCommand {
    /// Create a new profile.
    Create { name: Option<String> },
    /// Edit an existing profile.
    Edit { name: Option<String> },
    /// List all existing profiles.
    List,
    /// Show information about an existing profile.
    Info { name: Option<String>, picker: bool },
    /// Switch to another profile.
    Switch { name: Option<String> },
    /// Delete an existing profile.
    Delete { name: Option<String> },
}

/// Supported shells.
#[derive(Debug, PartialEq, Eq)]
pub enum Shell {
    /// Bash.
    Bash,
    /// ZSH.
    Zsh,
    /// Fish.
    Fish,
    /// Elvish.
    Elvish,
    /// PowerShell.
    Powershell,
    /// Nushell.
    Nushell,
}

/// Whether colored output is off: asked for with the flag, or `$NO_COLOR`
/// (`no_color_env`, `None` where unset) is set to a non-empty value.
pub fn colors_disabled(no_color: bool, no_color_env: Option<&str>) -> (r: bool)
    ensures
        r == (no_color || (no_color_env matches Some(v) && v@.len() > 0)),
{
    if no_color {
        return true;
    }
    match no_color_env {
        Some(v) => v.unicode_len() > 0,
        None => false,
    }
}

} // verus!
