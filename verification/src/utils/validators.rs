//! Validation of entries against lists of allowed values.
pub mod inquire_validators;

use vstd::prelude::*;
use crate::text::{debug_quoted, debug_text, decimal, join_with, push_decimal, same_text};
use crate::utils::lemma_join_step;

verus! {

/// Some entry of `variants` holds the text `s`.
pub open spec fn contains_text(variants: Seq<String>, s: Seq<char>) -> bool {
    exists|k: int| 0 <= k < variants.len() && (#[trigger] variants[k])@ == s
}

/// Whether some entry of `variants` holds the text `s`.
pub fn has_text(variants: &[String], s: &str) -> (r: bool)
    ensures
        r == contains_text(variants@, s@),
{
    let n = variants.len();
    let mut i: usize = 0;
    while i < n
        invariant
            i <= n == variants@.len(),
            forall|k: int| 0 <= k < i ==> (#[trigger] variants@[k])@ != s@,
        decreases n - i,
    {
        if same_text(&variants[i], s) {
            assert((variants@[i as int])@ == s@);
            return true;
        }
        i = i + 1;
    }
    false
}

/// Why an entry was refused.
#[derive(Debug, PartialEq, Eq)]
pub enum EnumError {
    /// The entry is already taken (exclusive check).
    Duplicate { entry: String },
    /// The entry is not among the allowed values (inclusive check); the
    /// suggestion to show, where the caller gave one (else the allowed values
    /// are listed).
    Invalid { entry: String, suggestion: Option<String> },
}

impl EnumError {
    /// The error text.
    pub fn message(&self) -> (m: String)
        ensures
            match self {
                EnumError::Duplicate { entry } => m@ == debug_text(entry@) + " is a duplicate entry"@,
                EnumError::Invalid { entry, .. } => m@ == "Invalid entry "@ + debug_text(entry@),
            },
    {
        match self {
            EnumError::Duplicate { entry } => {
                let mut m = debug_quoted(entry.as_str());
                m.append(" is a duplicate entry");
                m
            },
            EnumError::Invalid { entry, .. } => {
                let mut m = "Invalid entry ".to_owned();
                let q = debug_quoted(entry.as_str());
                m.append(q.as_str());
                m
            },
        }
    }
}

/// Validates `string` against a list of allowed values.
///
/// With `inclusive` `None` or `Some(true)` the entry must be among
/// `variants`; with `Some(false)` it must not be (a uniqueness check).
/// `suggestion` is carried by the error of a failed inclusive check.
pub fn against_enum(
    variants: &[String],
    string: &str,
    inclusive: Option<bool>,
    suggestion: Option<String>,
) -> (r: Result<(), EnumError>)
    ensures
        inclusive == Some(false) ==> (r is Err <==> contains_text(variants@, string@)),
        inclusive != Some(false) ==> (r is Err <==> !contains_text(variants@, string@)),
        inclusive == Some(false) ==> (r matches Err(e) ==> (e matches EnumError::Duplicate { entry }
            && entry@ == string@)),
        inclusive != Some(false) ==> (r matches Err(e) ==> (e matches EnumError::Invalid {
            entry,
            suggestion: sg,
        } && entry@ == string@ && sg == suggestion)),
{
    let exists = has_text(variants, string);
    match inclusive {
        Some(false) => {
            if exists {
                Err(EnumError::Duplicate { entry: string.to_owned() })
            } else {
                Ok(())
            }
        },
        _ => {
            if exists {
                Ok(())
            } else {
                Err(EnumError::Invalid { entry: string.to_owned(), suggestion })
            }
        },
    }
}

/// How many versions the suggestion for an unknown game version lists.
pub const LISTED_VERSIONS: usize = 10;

/// A game version that is not among the known ones.
#[derive(Debug, PartialEq, Eq)]
pub struct VersionError {
    /// The refused entry.
    pub entry: String,
    /// The first known versions, to be listed in the suggestion.
    pub listed: Vec<String>,
    /// How many known versions are not listed.
    pub more: usize,
}

/// Validates a game version against the available versions. The error names
/// the first ten versions and how many more there are.
pub fn against_minecraft_versions(minecraft_versions: &[String], version: &str) -> (r: Result<
    (),
    VersionError,
>)
    ensures
        r is Err <==> !contains_text(minecraft_versions@, version@),
        r matches Err(e) ==> e.entry@ == version@ && e.listed@ == minecraft_versions@.take(
            if minecraft_versions@.len() > 10 {
                10int
            } else {
                minecraft_versions@.len() as int
            },
        ) && e.more == (if minecraft_versions@.len() > 10 {
            minecraft_versions@.len() - 10
        } else {
            0int
        }),
{
    let total = minecraft_versions.len();
    match against_enum(minecraft_versions, version, None, None) {
        Ok(()) => Ok(()),
        Err(_) => {
            let shown = if total > LISTED_VERSIONS {
                LISTED_VERSIONS
            } else {
                total
            };
            let mut listed: Vec<String> = Vec::new();
            let mut i: usize = 0;
            while i < shown
                invariant
                    i <= shown <= total == minecraft_versions@.len(),
                    listed@ == minecraft_versions@.take(i as int),
                decreases shown - i,
            {
                listed.push(minecraft_versions[i].clone());
                assert(minecraft_versions@.take(i + 1) == minecraft_versions@.take(i as int).push(
                    minecraft_versions@[i as int],
                ));
                i = i + 1;
            }
            let more = if total > LISTED_VERSIONS {
                total - LISTED_VERSIONS
            } else {
                0
            };
            Err(VersionError { entry: version.to_owned(), listed, more })
        },
    }
}


/// The line of a suggestion that lists one value.
pub open spec fn bullet_line(v: Seq<char>) -> Seq<char> {
    "     \u{2022} "@ + v
}

/// The bullet lines of `rendered`, joined by line breaks.
pub open spec fn bullet_list(rendered: Seq<String>) -> Seq<char> {
    join_with(Seq::new(rendered.len(), |i: int| bullet_line(rendered[i]@)), "\n"@)
}

/// Appends the bullet lines of `rendered`, joined by line breaks.
fn push_bullets(out: &mut String, rendered: &[String])
    ensures
        final(out)@ == old(out)@ + bullet_list(rendered@),
{
    let ghost lines = Seq::new(rendered@.len(), |i: int| bullet_line(rendered@[i]@));
    let ghost head = out@;
    let n = rendered.len();
    let mut i: usize = 0;
    while i < n
        invariant
            i <= n == rendered@.len() == lines.len(),
            lines == Seq::new(rendered@.len(), |i: int| bullet_line(rendered@[i]@)),
            head == old(out)@,
            out@ == head + join_with(lines.take(i as int), "\n"@),
        decreases n - i,
    {
        let ghost before = out@;
        if i > 0 {
            out.append("\n");
        }
        out.append("     \u{2022} ");
        out.append(rendered[i].as_str());
        proof {
            lemma_join_step(lines, "\n"@, i as int);
            if i == 0 {
                assert(lines.take(0) =~= Seq::<Seq<char>>::empty());
                assert(before == head);
            }
        }
        i = i + 1;
    }
    assert(lines.take(n as int) == lines);
}

/// The suggestion of a failed inclusive check that has no suggestion of its
/// own: the allowed values, one bullet line each, in order. `rendered` holds
/// the values as they are to be shown (styled by the caller).
pub fn valid_options_suggestion(rendered: &[String]) -> (s: String)
    ensures
        s@ == "\n   Valid options include:\n"@ + bullet_list(rendered@),
{
    let mut s = "\n   Valid options include:\n".to_owned();
    push_bullets(&mut s, rendered);
    s
}

/// The suggestion for an unknown game version: the listed versions (as they
/// are to be shown), one bullet line each, how many more there are where
/// there are any, and the command that searches all versions (`query`).
pub fn versions_suggestion(rendered: &[String], more: usize, query: &str) -> (s: String)
    ensures
        s@ == "\n   Supported Minecraft versions include:\n"@ + bullet_list(rendered@) + (if more > 0 {
            "\n     ... and "@ + decimal(more as nat) + " more.\n\n   Search all versions using:\n     "@
        } else {
            "\n\n   Search all versions using:\n     "@
        }) + query@,
{
    let mut s = "\n   Supported Minecraft versions include:\n".to_owned();
    push_bullets(&mut s, rendered);
    if more > 0 {
        s.append("\n     ... and ");
        push_decimal(&mut s, more);
        s.append(" more.\n\n   Search all versions using:\n     ");
    } else {
        s.append("\n\n   Search all versions using:\n     ");
    }
    s.append(query);
    s
}


/// Why a game directory was refused.
#[derive(Debug, PartialEq, Eq)]
pub enum DirectoryProblem {
    /// Nothing exists at the path.
    Missing,
    /// Something exists at the path, but it is not a directory.
    NotADirectory,
}

impl DirectoryProblem {
    /// The error text, given the path as it is to be shown.
    pub fn message(&self, rendered_path: &str) -> (m: String)
        ensures
            *self == DirectoryProblem::Missing ==> m@ == "Directory "@ + rendered_path@
                + " does not exist"@,
            *self == DirectoryProblem::NotADirectory ==> m@ == "While "@ + rendered_path@
                + " exists, it is not a directory"@,
    {
        match self {
            DirectoryProblem::Missing => {
                let mut m = "Directory ".to_owned();
                m.append(rendered_path);
                m.append(" does not exist");
                m
            },
            DirectoryProblem::NotADirectory => {
                let mut m = "While ".to_owned();
                m.append(rendered_path);
                m.append(" exists, it is not a directory");
                m
            },
        }
    }
}

/// The verdict on a game directory, from whether its path exists and whether
/// it is a directory.
pub fn directory_check(exists: bool, is_dir: bool) -> (r: Result<(), DirectoryProblem>)
    ensures
        !exists ==> r == Err::<(), DirectoryProblem>(DirectoryProblem::Missing),
        exists && !is_dir ==> r == Err::<(), DirectoryProblem>(DirectoryProblem::NotADirectory),
        exists && is_dir ==> r == Ok::<(), DirectoryProblem>(()),
{
    if !exists {
        Err(DirectoryProblem::Missing)
    } else if !is_dir {
        Err(DirectoryProblem::NotADirectory)
    } else {
        Ok(())
    }
}

} // verus!
