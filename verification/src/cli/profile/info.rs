//! The `profile info` subcommand: which profile to show and what to show of
//! it.
use vstd::prelude::*;
use crate::config::{first_index, profile_names, ProfileConfig, ProfileOptions};
use crate::text::{debug_quoted, debug_text, decimal, push_decimal};

verus! {

/// Why `profile info` has nothing to show.
#[derive(Debug, PartialEq, Eq)]
pub enum InfoError {
    /// No profile has the given name.
    NotFound { name: String },
    /// The picker was asked for, but there are no profiles.
    NoProfiles,
    /// The name chosen in the picker belongs to no profile.
    SelectionMissing,
    /// No name was given and no profile is active.
    NoActive,
}

impl InfoError {
    /// The error text.
    pub fn message(&self) -> (m: String)
        ensures
            match self {
                InfoError::NotFound { name } => m@ == "Profile "@ + debug_text(name@) + " not found"@,
                InfoError::NoProfiles => m@ == "No profiles found"@,
                InfoError::SelectionMissing => m@ == "Selected profile should exist"@,
                InfoError::NoActive => m@ == "No active profile set"@,
            },
    {
        match self {
            InfoError::NotFound { name } => {
                let mut m = "Profile ".to_owned();
                let q = debug_quoted(name.as_str());
                m.append(q.as_str());
                m.append(" not found");
                m
            },
            InfoError::NoProfiles => "No profiles found".to_owned(),
            InfoError::SelectionMissing => "Selected profile should exist".to_owned(),
            InfoError::NoActive => "No active profile set".to_owned(),
        }
    }
}

/// What `profile info` shows next.
#[derive(Debug, PartialEq, Eq)]
pub enum InfoTarget {
    /// The profile at this position.
    Profile(usize),
    /// Let the user pick among these names.
    Pick(Vec<String>),
}

/// The picker is not available in non-interactive mode: a request for it is
/// dropped there (with a warning).
pub fn picker_ignored(picker: bool, non_interactive: bool) -> (r: bool)
    ensures
        r == (picker && non_interactive),
{
    picker && non_interactive
}

/// One row of a profile table.
#[derive(Debug, PartialEq, Eq)]
pub struct PropertyRow {
    /// What the row shows.
    pub property: String,
    /// Its value.
    pub value: String,
}

/// The property and value of each row.
pub open spec fn row_views(rows: Seq<PropertyRow>) -> Seq<(Seq<char>, Seq<char>)> {
    rows.map_values(|r: PropertyRow| (r.property@, r.value@))
}

/// How a profile's name is shown: marked when it is the active one.
pub open spec fn shown_name(name: Seq<char>, active: bool) -> Seq<char> {
    if active {
        name + " (active \u{2713})"@
    } else {
        name
    }
}

/// The rows that describe a profile.
pub open spec fn detail_rows(p: ProfileOptions, active: bool) -> Seq<(Seq<char>, Seq<char>)> {
    seq![
        ("Profile name"@, shown_name(p.name@, active)),
        ("Minecraft version"@, p.game.version@),
        ("Minecraft directory"@, p.game.directory@),
        ("Mod loader"@, p.mod_config.loader@),
        ("# of mods installed"@, decimal(p.mod_config.list@.len())),
    ]
}

/// The rows of a profile show its fields verbatim, each under its label, the
/// name marked only when the profile is active, and the number of its mods in
/// decimal.
pub proof fn lemma_detail_rows_verbatim(p: ProfileOptions, active: bool)
    ensures
        detail_rows(p, active).len() == 5,
        detail_rows(p, active)[0] == ("Profile name"@, if active {
            p.name@ + " (active \u{2713})"@
        } else {
            p.name@
        }),
        detail_rows(p, active)[1] == ("Minecraft version"@, p.game.version@),
        detail_rows(p, active)[2] == ("Minecraft directory"@, p.game.directory@),
        detail_rows(p, active)[3] == ("Mod loader"@, p.mod_config.loader@),
        detail_rows(p, active)[4] == ("# of mods installed"@, decimal(p.mod_config.list@.len())),
{
}

fn row(property: &str, value: String) -> (r: PropertyRow)
    ensures
        r.property@ == property@,
        r.value == value,
{
    PropertyRow { property: property.to_owned(), value }
}

impl ProfileOptions {
    /// The rows of the table that describes this profile.
    pub fn detail_rows(&self, active: bool) -> (rows: Vec<PropertyRow>)
        ensures
            row_views(rows@) == detail_rows(*self, active),
            rows@.len() == 5,
            rows@[0].property@ == "Profile name"@,
            !active ==> rows@[0].value@ == self.name@,
            active ==> rows@[0].value@ == self.name@ + " (active \u{2713})"@,
            rows@[1].property@ == "Minecraft version"@,
            rows@[1].value@ == self.game.version@,
            rows@[2].property@ == "Minecraft directory"@,
            rows@[2].value@ == self.game.directory@,
            rows@[3].property@ == "Mod loader"@,
            rows@[3].value@ == self.mod_config.loader@,
            rows@[4].property@ == "# of mods installed"@,
            rows@[4].value@ == decimal(self.mod_config.list@.len()),
    {
        let mut name = self.name.clone();
        if active {
            name.append(" (active \u{2713})");
        }
        let mut mods = String::new();
        push_decimal(&mut mods, self.mod_config.list.len());
        assert(Seq::<char>::empty() + decimal(self.mod_config.list@.len()) == decimal(
            self.mod_config.list@.len(),
        ));
        let mut rows: Vec<PropertyRow> = Vec::new();
        rows.push(row("Profile name", name));
        rows.push(row("Minecraft version", self.game.version.clone()));
        rows.push(row("Minecraft directory", self.game.directory.clone()));
        rows.push(row("Mod loader", self.mod_config.loader.clone()));
        rows.push(row("# of mods installed", mods));
        assert(row_views(rows@) =~= detail_rows(*self, active));
        proof {
            lemma_detail_rows_verbatim(*self, active);
            assert forall|k: int| 0 <= k < 5 implies (#[trigger] rows@[k]).property@ == row_views(rows@)[k].0
                && rows@[k].value@ == row_views(rows@)[k].1 by {}
        }
        rows
    }
}

impl ProfileConfig {
    /// Which profile `profile info` shows: the first one called `name` where
    /// a name is given; else the picker over all names where it is asked for
    /// (and not ignored); else the active profile.
    pub fn info_target(&self, name: Option<&str>, picker: bool, non_interactive: bool) -> (r: Result<
        InfoTarget,
        InfoError,
    >)
        ensures
            name matches Some(n) ==> match first_index(profile_names(self.list@), n@) {
                Some(i) => r == Ok::<InfoTarget, InfoError>(InfoTarget::Profile(i as usize)),
                None => r matches Err(InfoError::NotFound { name: e }) && e@ == n@,
            },
            name is None && picker && !non_interactive && self.list@.len() == 0 ==> r == Err::<
                InfoTarget,
                InfoError,
            >(InfoError::NoProfiles),
            name is None && picker && !non_interactive && self.list@.len() > 0 ==> (r matches Ok(
                InfoTarget::Pick(names),
            ) && names@.len() == self.list@.len() && forall|i: int|
                0 <= i < names@.len() ==> (#[trigger] names@[i])@ == self.list@[i].name@),
            name is None && !(picker && !non_interactive) ==> match self.active {
                Some(a) => r == Ok::<InfoTarget, InfoError>(InfoTarget::Profile(a)),
                None => r == Err::<InfoTarget, InfoError>(InfoError::NoActive),
            },
    {
        match name {
            Some(n) => match self.position(n) {
                Some(i) => Ok(InfoTarget::Profile(i)),
                None => Err(InfoError::NotFound { name: n.to_owned() }),
            },
            None => {
                if picker && !non_interactive {
                    if self.list.len() == 0 {
                        Err(InfoError::NoProfiles)
                    } else {
                        Ok(InfoTarget::Pick(self.names()))
                    }
                } else {
                    match self.active {
                        Some(a) => Ok(InfoTarget::Profile(a)),
                        None => Err(InfoError::NoActive),
                    }
                }
            },
        }
    }

    /// The position of the profile chosen in the picker.
    pub fn picked_profile(&self, selected: &str) -> (r: Result<usize, InfoError>)
        ensures
            match first_index(profile_names(self.list@), selected@) {
                Some(i) => r == Ok::<usize, InfoError>(i as usize),
                None => r == Err::<usize, InfoError>(InfoError::SelectionMissing),
            },
    {
        match self.position(selected) {
            Some(i) => Ok(i),
            None => Err(InfoError::SelectionMissing),
        }
    }
}

} // verus!
