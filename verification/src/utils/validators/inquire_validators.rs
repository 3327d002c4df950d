//! The checks behind the prompt validators: each gives the verdict and the
//! message shown to the user.
use vstd::prelude::*;
use crate::text::{debug_quoted, debug_text, join_with, trim, trimmed};
use crate::utils::validators::{contains_text, has_text};

verus! {

/// The verdict of a prompt validator.
#[derive(Debug, PartialEq, Eq)]
pub enum Validation {
    /// The input is accepted.
    Valid,
    /// The input is refused, with the message to show.
    Invalid(String),
}

/// Checks whether an input is (or, for uniqueness, is not) among a list of
/// values.
pub struct EnumValidator {
    /// The values.
    pub variants: Vec<String>,
    /// `true`: the input must be among `variants`; `false`: it must not be.
    pub inclusive: bool,
}

/// The line that lists one allowed value.
pub open spec fn option_line(v: Seq<char>) -> Seq<char> {
    "  \u{2022} "@ + v
}

/// The message for an input that is not among `variants`.
pub open spec fn invalid_entry_message(s: Seq<char>, variants: Seq<String>) -> Seq<char> {
    "Invalid entry "@ + debug_text(s) + ". Valid options:\n"@ + join_with(
        Seq::new(variants.len(), |i: int| option_line(variants[i]@)),
        "\n"@,
    )
}

/// Creates a validator that checks whether a string is among `variants`
/// (`inclusive` `None` or `Some(true)`, the default) or not among them
/// (`Some(false)`, for uniqueness).
pub fn against_enum(variants: &[String], inclusive: Option<bool>) -> (v: EnumValidator)
    ensures
        v.variants@ == variants@,
        v.inclusive == (inclusive != Some(false)),
{
    let mut copied: Vec<String> = Vec::new();
    let n = variants.len();
    let mut i: usize = 0;
    while i < n
        invariant
            i <= n == variants@.len(),
            copied@ == variants@.take(i as int),
        decreases n - i,
    {
        copied.push(variants[i].clone());
        assert(variants@.take(i + 1) == variants@.take(i as int).push(variants@[i as int]));
        i = i + 1;
    }
    assert(variants@.take(n as int) == variants@);
    let inclusive = match inclusive {
        Some(b) => b,
        None => true,
    };
    EnumValidator { variants: copied, inclusive }
}

impl EnumValidator {
    /// Validates one input.
    pub fn validate(&self, s: &str) -> (r: Validation)
        ensures
            !self.inclusive && contains_text(self.variants@, s@) ==> (r matches Validation::Invalid(
                m,
            ) && m@ == debug_text(s@) + " is a duplicate entry"@),
            self.inclusive && !contains_text(self.variants@, s@) ==> (r matches Validation::Invalid(
                m,
            ) && m@ == invalid_entry_message(s@, self.variants@)),
            self.inclusive == contains_text(self.variants@, s@) ==> r == Validation::Valid,
    {
        let exists = has_text(self.variants.as_slice(), s);
        if !self.inclusive && exists {
            let mut m = debug_quoted(s);
            m.append(" is a duplicate entry");
            Validation::Invalid(m)
        } else if self.inclusive && !exists {
            let ghost lines = Seq::new(
                self.variants@.len(),
                |i: int| option_line(self.variants@[i]@),
            );
            let mut m = "Invalid entry ".to_owned();
            let q = debug_quoted(s);
            m.append(q.as_str());
            m.append(". Valid options:\n");
            let ghost head = m@;
            let n = self.variants.len();
            let mut i: usize = 0;
            while i < n
                invariant
                    i <= n == self.variants@.len() == lines.len(),
                    lines == Seq::new(self.variants@.len(), |i: int| option_line(self.variants@[i]@)),
                    m@ == head + join_with(lines.take(i as int), "\n"@),
                decreases n - i,
            {
                let ghost before = m@;
                if i > 0 {
                    m.append("\n");
                }
                m.append("  \u{2022} ");
                m.append(self.variants[i].as_str());
                proof {
                    crate::utils::lemma_join_step(lines, "\n"@, i as int);
                    if i == 0 {
                        assert(lines.take(0) =~= Seq::<Seq<char>>::empty());
                        assert(before == head);
                    }
                }
                i = i + 1;
            }
            assert(lines.take(n as int) == lines);
            Validation::Invalid(m)
        } else {
            Validation::Valid
        }
    }
}

/// Checks that an input is not blank.
pub struct NonEmptyValidator {
    /// Name of the field being validated, used in the message.
    pub field_name: String,
}

/// Creates a validator that ensures a string is not blank.
pub fn is_non_empty(field_name: &str) -> (v: NonEmptyValidator)
    ensures
        v.field_name@ == field_name@,
{
    NonEmptyValidator { field_name: field_name.to_owned() }
}

impl NonEmptyValidator {
    /// Validates one input: refused where only white space remains.
    pub fn validate(&self, s: &str) -> (r: Validation)
        ensures
            trim(s@).len() == 0 ==> r == Validation::Invalid(r->Invalid_0) && (r->Invalid_0)@
                == self.field_name@ + " cannot be empty"@,
            trim(s@).len() > 0 ==> r == Validation::Valid,
    {
        let t = trimmed(s);
        if t.as_str().unicode_len() == 0 {
            let mut m = self.field_name.clone();
            m.append(" cannot be empty");
            Validation::Invalid(m)
        } else {
            Validation::Valid
        }
    }
}


/// What a path, once expanded, points at.
#[derive(Debug, PartialEq, Eq)]
pub enum PathKind {
    /// Nothing.
    Missing,
    /// Something that is not a directory.
    NotADirectory,
    /// A directory.
    Directory,
}

/// The verdict on a game directory: `expansion` is what the path points at,
/// or the text of the error that expanding it gave.
pub fn directory_validation(expansion: Result<PathKind, String>) -> (r: Validation)
    ensures
        expansion == Ok::<PathKind, String>(PathKind::Directory) ==> r == Validation::Valid,
        expansion == Ok::<PathKind, String>(PathKind::Missing) ==> (r matches Validation::Invalid(m)
            && m@ == "Path does not exist"@),
        expansion == Ok::<PathKind, String>(PathKind::NotADirectory) ==> (r matches Validation::Invalid(
            m,
        ) && m@ == "Path is not a directory"@),
        expansion matches Err(e) ==> (r matches Validation::Invalid(m) && m@ == "Invalid path: "@
            + e@),
{
    match expansion {
        Ok(PathKind::Missing) => Validation::Invalid("Path does not exist".to_owned()),
        Ok(PathKind::NotADirectory) => Validation::Invalid("Path is not a directory".to_owned()),
        Ok(PathKind::Directory) => Validation::Valid,
        Err(e) => {
            let mut m = "Invalid path: ".to_owned();
            m.append(e.as_str());
            Validation::Invalid(m)
        },
    }
}

} // verus!
