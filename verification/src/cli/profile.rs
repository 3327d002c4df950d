//! The `profile` subcommands and the constants they share.
pub mod create;
pub mod delete;
pub mod info;
pub mod list;

use vstd::prelude::*;

verus! {

/// The mod loaders a profile can use.
pub open spec fn mod_loader_names() -> Seq<Seq<char>> {
    seq!["None"@, "Fabric"@]
}

/// The mod loaders a profile can use: `None` and `Fabric`.
pub fn supported_mod_loaders() -> (r: Vec<String>)
    ensures
        r@.len() == 2,
        r@[0]@ == mod_loader_names()[0],
        r@[1]@ == mod_loader_names()[1],
{
    let mut r: Vec<String> = Vec::new();
    r.push("None".to_owned());
    r.push("Fabric".to_owned());
    r
}

} // verus!
