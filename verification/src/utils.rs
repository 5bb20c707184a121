//! Checks on the paths that an export is given.

use vstd::prelude::*;
use crate::paths::{
    components, extension, join_segments, join_with_slash, path_components, path_extension,
};
use crate::text::{append_chars, chars_of, same_chars, string_of};

verus! {

/// What was found at a path.
#[derive(Clone, Copy, Debug, PartialEq, Eq)]
pub struct PathStatus {
    pub exists: bool,
    pub is_dir: bool,
}

/// Why a path cannot serve as a directory.
#[derive(Clone, Copy, Debug, PartialEq, Eq)]
pub enum DirectoryProblem {
    DoesNotExist,
    NotADirectory,
}

/// A path that cannot serve as the directory it was meant for.
#[derive(Debug, PartialEq, Eq)]
pub struct DirectoryError {
    pub problem: DirectoryProblem,
    pub description: String,
    pub path: String,
}

impl DirectoryError {
    /// The words that name the problem, between the description and the path.
    pub open spec fn problem_text(self) -> Seq<char> {
        match self.problem {
            DirectoryProblem::DoesNotExist => " does not exist: "@,
            DirectoryProblem::NotADirectory => " is not a directory: "@,
        }
    }

    /// The error in words: the description, the problem, the path.
    pub open spec fn message_text(self) -> Seq<char> {
        self.description@ + self.problem_text() + self.path@
    }

    /// The error in words.
    pub fn message(&self) -> (message: String)
        ensures
            message@ == self.message_text(),
    {
        let mut text = chars_of(self.description.as_str());
        match self.problem {
            DirectoryProblem::DoesNotExist => {
                append_chars(&mut text, &chars_of(" does not exist: "));
            },
            DirectoryProblem::NotADirectory => {
                append_chars(&mut text, &chars_of(" is not a directory: "));
            },
        }
        append_chars(&mut text, &chars_of(self.path.as_str()));
        string_of(&text)
    }
}

/// Accepts `path` if something was found there and it is a directory. The
/// error says which of the two failed, of what (`description`) and where.
pub fn validate_directory(path: &str, description: &str, status: PathStatus) -> (result: Result<
    (),
    DirectoryError,
>)
    ensures
        result is Ok <==> status.exists && status.is_dir,
        result matches Err(error) ==> {
            &&& error.description@ == description@
            &&& error.path@ == path@
            &&& error.problem == if status.exists {
                DirectoryProblem::NotADirectory
            } else {
                DirectoryProblem::DoesNotExist
            }
        },
{
    if !status.exists {
        return Err(
            DirectoryError {
                problem: DirectoryProblem::DoesNotExist,
                description: description.to_owned(),
                path: path.to_owned(),
            },
        );
    }
    if !status.is_dir {
        return Err(
            DirectoryError {
                problem: DirectoryProblem::NotADirectory,
                description: description.to_owned(),
                path: path.to_owned(),
            },
        );
    }
    Ok(())
}

/// The lowercase form of a text, as Unicode defines it.
pub uninterp spec fn lowercase(text: Seq<char>) -> Seq<char>;

/// Trusted: `str::to_lowercase` returns the lowercase form of the text, which
/// depends on nothing but its characters.
pub assume_specification[ str::to_lowercase ](text: &str) -> (lowered: String)
    ensures
        lowered@ == lowercase(text@),
;

/// The extensions of Markdown files, in lower case.
pub open spec fn is_markdown_extension(lowered: Seq<char>) -> bool {
    lowered == "md"@ || lowered == "markdown"@
}

/// Whether a lowercased extension is one of a Markdown file.
pub fn names_markdown(lowered: &str) -> (is: bool)
    ensures
        is == is_markdown_extension(lowered@),
{
    let text = chars_of(lowered);
    same_chars(&text, &chars_of("md")) || same_chars(&text, &chars_of("markdown"))
}

/// Whether `path` names a Markdown file: whether its extension, whatever the
/// case of its letters, is `md` or `markdown`.
pub fn is_markdown_file(path: &str) -> (is: bool)
    ensures
        is == match extension(path@) {
            Some(ext) => is_markdown_extension(lowercase(ext)),
            None => false,
        },
{
    match path_extension(&chars_of(path)) {
        Some(ext) => {
            let lowered = string_of(&ext).as_str().to_lowercase();
            names_markdown(lowered.as_str())
        },
        None => false,
    }
}

/// `path` written as its components with a `/` between each two.
pub fn normalize_path(path: &str) -> (normalized: String)
    ensures
        normalized@ == join_segments(components(path@)),
{
    let parts = path_components(&chars_of(path));
    string_of(&join_with_slash(&parts))
}

} // verus!
