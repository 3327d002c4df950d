//! The configuration: its version and all user-defined profiles.
use vstd::prelude::*;
use crate::text::same_text;

verus! {

/// Represents the overall config.
///
/// This includes the config version and all user-defined profiles.
#[derive(Debug, PartialEq, Eq)]
pub struct Config {
    /// The version of the config format.
    pub version: u8,
    /// The profile config containing all user-defined profiles.
    pub profile: ProfileConfig,
}

impl Default for Config {
    /// Version 1, with no profile and none active.
    fn default() -> (c: Self)
        ensures
            c.version == 1,
            c.profile.active is None,
            c.profile.list@.len() == 0,
    {
        Config { version: 1u8, profile: ProfileConfig { active: None, list: Vec::new() } }
    }
}

/// What initialising the config file does.
#[derive(Debug, PartialEq, Eq)]
pub enum InitStep {
    /// The path exists but is not a file: refuse.
    NotAFile,
    /// There is no file yet: write the default config there (creating its
    /// parent directories) and use it.
    CreateDefault,
    /// Read the existing file.
    Read,
}

impl Config {
    /// Decides how to initialise the config from what the path holds.
    pub fn init_step(exists: bool, is_file: bool) -> (s: InitStep)
        ensures
            exists && !is_file ==> s == InitStep::NotAFile,
            !exists ==> s == InitStep::CreateDefault,
            exists && is_file ==> s == InitStep::Read,
    {
        if exists && !is_file {
            InitStep::NotAFile
        } else if !exists {
            InitStep::CreateDefault
        } else {
            InitStep::Read
        }
    }
}

/// Config for all user-defined profiles.
///
/// A profile represents a complete set of game details, mod loader, and mod
/// list settings that can be activated and switched between by the user.
#[derive(Debug, PartialEq, Eq)]
pub struct ProfileConfig {
    /// The index of the currently active profile, if any.
    pub active: Option<usize>,
    /// The list of all configured profiles.
    pub list: Vec<ProfileOptions>,
}

/// A single user profile, containing game details and mod configs.
#[derive(Debug, PartialEq, Eq)]
pub struct ProfileOptions {
    /// The user-defined name of the profile.
    pub name: String,
    /// Game details associated with this profile.
    pub game: GameDetails,
    /// Mod loader and mod list config for this profile (stored under the key
    /// `mod`).
    pub mod_config: ModConfig,
}

/// Game-specific config for a profile: the target game version and the
/// directory of the game installation.
#[derive(Debug, PartialEq, Eq)]
pub struct GameDetails {
    /// The game version to target.
    pub version: String,
    /// Path to the game directory used by this profile.
    pub directory: String,
}

/// Config for the mod loader and the list of mods applied to a profile.
#[derive(Debug, PartialEq, Eq)]
pub struct ModConfig {
    /// The mod loader to use.
    pub loader: String,
    /// The list of mod options belonging to this profile.
    pub list: Vec<ModOptions>,
}

/// A single mod entry within a profile.
#[derive(Debug, PartialEq, Eq)]
pub struct ModOptions {
    /// The display name of the mod.
    pub name: String,
    /// Where is the mod from?
    pub from: String,
    /// The unique identifier of the mod.
    pub id: String,
}

impl ModOptions {
    /// The display form of a mod: `"{name} ({id})"`.
    pub fn to_display_string(&self) -> (s: String)
        ensures
            s@ == self.name@ + " ("@ + self.id@ + ")"@,
    {
        let mut s = self.name.clone();
        s.append(" (");
        s.append(self.id.as_str());
        s.append(")");
        s
    }
}

/// The names of the profiles, in order.
pub open spec fn profile_names(list: Seq<ProfileOptions>) -> Seq<Seq<char>> {
    list.map_values(|p: ProfileOptions| p.name@)
}

/// The first position of `name` in `names`, if it occurs.
pub open spec fn first_index(names: Seq<Seq<char>>, name: Seq<char>) -> Option<int>
    decreases names.len(),
{
    if names.len() == 0 {
        None
    } else {
        match first_index(names.drop_last(), name) {
            Some(i) => Some(i),
            None => if names.last() == name {
                Some(names.len() - 1)
            } else {
                None
            },
        }
    }
}

/// `first_index` finds the first occurrence, and finds none only where there
/// is none.
pub proof fn lemma_first_index(names: Seq<Seq<char>>, name: Seq<char>)
    ensures
        match first_index(names, name) {
            Some(i) => 0 <= i < names.len() && names[i] == name && forall|j: int|
                0 <= j < i ==> names[j] != name,
            None => forall|j: int| 0 <= j < names.len() ==> names[j] != name,
        },
    decreases names.len(),
{
    if names.len() > 0 {
        let front = names.drop_last();
        lemma_first_index(front, name);
        assert forall|j: int| 0 <= j < front.len() implies front[j] == names[j] by {}
    }
}

impl ProfileConfig {
    /// The names of all profiles, in order.
    pub fn names(&self) -> (r: Vec<String>)
        ensures
            r@.len() == self.list@.len(),
            forall|i: int| 0 <= i < r@.len() ==> (#[trigger] r@[i])@ == self.list@[i].name@,
    {
        let mut r: Vec<String> = Vec::new();
        let n = self.list.len();
        let mut i: usize = 0;
        while i < n
            invariant
                i <= n == self.list@.len(),
                r@.len() == i,
                forall|k: int| 0 <= k < i ==> (#[trigger] r@[k])@ == self.list@[k].name@,
            decreases n - i,
        {
            r.push(self.list[i].name.clone());
            i = i + 1;
        }
        r
    }

    /// The position of the first profile called `name`.
    pub fn position(&self, name: &str) -> (r: Option<usize>)
        ensures
            r == (match first_index(profile_names(self.list@), name@) {
                Some(i) => Some(i as usize),
                None => None::<usize>,
            }),
    {
        let ghost names = profile_names(self.list@);
        proof {
            lemma_first_index(names, name@);
        }
        let n = self.list.len();
        let mut i: usize = 0;
        while i < n
            invariant
                i <= n == self.list@.len() == names.len(),
                names == profile_names(self.list@),
                forall|j: int| 0 <= j < i ==> names[j] != name@,
            decreases n - i,
        {
            if same_text(&self.list[i].name, name) {
                assert(names[i as int] == name@);
                proof {
                    lemma_first_index(names, name@);
                    match first_index(names, name@) {
                        Some(k) => {
                            if k < i {
                                assert(names[k] != name@);
                            }
                            if k > i {
                                assert(names[i as int] != name@);
                            }
                        },
                        None => {
                            assert(names[i as int] != name@);
                        },
                    }
                }
                return Some(i);
            }
            i = i + 1;
        }
        None
    }

    /// Whether the profile at `index` is the active one.
    pub fn is_active(&self, index: usize) -> (r: bool)
        ensures
            r == (self.active == Some(index)),
    {
        match self.active {
            Some(a) => a == index,
            None => false,
        }
    }

    /// Appends a new profile; the first profile of an empty list becomes the
    /// active one.
    pub fn add_profile(&mut self, options: ProfileOptions)
        ensures
            final(self).list@ == old(self).list@.push(options),
            final(self).active == (if old(self).list@.len() == 0 {
                Some(0usize)
            } else {
                old(self).active
            }),
    {
        self.list.push(options);
        if self.list.len() == 1 {
            self.active = Some(0);
        }
    }

    /// Removes every profile and leaves none active; returns how many there
    /// were.
    pub fn clear_profiles(&mut self) -> (count: usize)
        ensures
            count == old(self).list@.len(),
            final(self).list@.len() == 0,
            final(self).active is None,
    {
        let count = self.list.len();
        self.list.clear();
        self.active = None;
        count
    }
}

} // verus!
