//! Files that are copied as they are: which files the patterns pick, where
//! a picked file goes, and what the exporter is told to leave alone
//! meanwhile.

use vstd::prelude::*;
use glob::{Pattern, PatternError};
use crate::paths::{join_path_texts, join_paths, relative_path, relative_to};
use crate::text::{append_chars, chars_of, string_of};

verus! {

/// Trusted: `glob::Pattern`, a compiled pattern. It is handed on as it is;
/// nothing of what it holds is looked at here.
#[verifier::external_type_specification]
#[verifier::external_body]
pub struct ExPattern(Pattern);

/// Trusted: `glob::PatternError`, what the compiler says of a pattern that it
/// refuses. It is handed on as it is.
#[verifier::external_type_specification]
#[verifier::external_body]
pub struct ExPatternError(PatternError);

/// The text that a compiled pattern was made from.
pub uninterp spec fn pattern_source(pattern: Pattern) -> Seq<char>;

/// Whether a text is a pattern that compiles, read with `/` as the one
/// separator of path components.
pub uninterp spec fn is_glob_pattern(text: Seq<char>) -> bool;

/// Whether the pattern written as `pattern` matches `path`, read with `/` as
/// the one separator of path components.
pub uninterp spec fn glob_matches(pattern: Seq<char>, path: Seq<char>) -> bool;

/// A text without a backslash. Platforms differ on whether a backslash
/// separates path components; such a text is read alike on all of them.
pub open spec fn is_portable(text: Seq<char>) -> bool {
    !text.contains('\\')
}

/// Trusted: `glob::Pattern::new` compiles the text or refuses it, and a
/// compiled pattern keeps the text it was made from. Whether a text without
/// a backslash compiles depends on its characters alone.
#[verifier::external_body]
fn compile_glob(text: &str) -> (result: Result<Pattern, PatternError>)
    ensures
        result matches Ok(pattern) ==> pattern_source(pattern) == text@,
        is_portable(text@) ==> (result is Ok <==> is_glob_pattern(text@)),
{
    Pattern::new(text)
}

/// Trusted: `glob::Pattern::matches` says whether the pattern matches the
/// whole of `path`, with the default options. Where neither holds a
/// backslash, the answer depends on the pattern's text and on `path` alone.
#[verifier::external_body]
fn pattern_matches(pattern: &Pattern, path: &str) -> (matched: bool)
    ensures
        is_portable(pattern_source(*pattern)) && is_portable(path@) ==> matched == glob_matches(
            pattern_source(*pattern),
            path@,
        ),
{
    pattern.matches(path)
}

/// A pattern that did not compile: its place among the patterns given, and
/// what the compiler said.
#[derive(Debug)]
pub struct PatternSyntaxError {
    pub index: usize,
    pub cause: PatternError,
}

/// What compiling each pattern gave, in the order of the patterns.
pub fn compile_each(patterns: &Vec<String>) -> (outcomes: Vec<Result<Pattern, PatternError>>)
    ensures
        outcomes@.len() == patterns@.len(),
        forall|i: int|
            0 <= i < patterns@.len() ==> {
                &&& (#[trigger] outcomes@[i]) matches Ok(pattern) ==> pattern_source(pattern)
                    == patterns@[i]@
                &&& is_portable(patterns@[i]@) ==> (outcomes@[i] is Ok <==> is_glob_pattern(
                    patterns@[i]@,
                ))
            },
{
    let mut outcomes: Vec<Result<Pattern, PatternError>> = Vec::new();
    let mut i: usize = 0;
    while i < patterns.len()
        invariant
            i <= patterns.len(),
            outcomes@.len() == i,
            forall|j: int|
                0 <= j < i ==> {
                    &&& (#[trigger] outcomes@[j]) matches Ok(pattern) ==> pattern_source(pattern)
                        == patterns@[j]@
                    &&& is_portable(patterns@[j]@) ==> (outcomes@[j] is Ok <==> is_glob_pattern(
                        patterns@[j]@,
                    ))
                },
        decreases patterns.len() - i,
    {
        outcomes.push(compile_glob(patterns[i].as_str()));
        i = i + 1;
    }
    outcomes
}

/// All the compiled patterns, in order, if every outcome is one; else the
/// first failure with its place.
pub fn collect_compiled(outcomes: Vec<Result<Pattern, PatternError>>) -> (result: Result<
    Vec<Pattern>,
    PatternSyntaxError,
>)
    ensures
        match result {
            Ok(compiled) => {
                &&& compiled@.len() == outcomes@.len()
                &&& forall|i: int|
                    0 <= i < outcomes@.len() ==> (#[trigger] outcomes@[i]) == Ok::<
                        Pattern,
                        PatternError,
                    >(compiled@[i])
            },
            Err(error) => {
                &&& error.index < outcomes@.len()
                &&& outcomes@[error.index as int] == Err::<Pattern, PatternError>(error.cause)
                &&& forall|i: int| 0 <= i < error.index ==> (#[trigger] outcomes@[i]) is Ok
            },
        },
{
    let mut compiled: Vec<Pattern> = Vec::new();
    let mut index: usize = 0;
    let count: usize = outcomes.len();
    for outcome in it: outcomes
        invariant
            it.seq() == outcomes@,
            outcomes@.len() == count,
            index == it.index(),
            compiled@.len() == index,
            forall|i: int|
                0 <= i < index ==> (#[trigger] outcomes@[i]) == Ok::<Pattern, PatternError>(
                    compiled@[i],
                ),
    {
        match outcome {
            Ok(pattern) => {
                compiled.push(pattern);
            },
            Err(cause) => {
                return Err(PatternSyntaxError { index, cause });
            },
        }
        index = index + 1;
    }
    Ok(compiled)
}

/// Compiles the patterns, all of them or none: the first that does not
/// compile is the error.
pub fn compile_patterns(patterns: &Vec<String>) -> (result: Result<
    Vec<Pattern>,
    PatternSyntaxError,
>)
    ensures
        match result {
            Ok(compiled) => {
                &&& compiled@.len() == patterns@.len()
                &&& forall|i: int|
                    0 <= i < patterns@.len() ==> pattern_source(#[trigger] compiled@[i])
                        == patterns@[i]@
                &&& forall|i: int|
                    0 <= i < patterns@.len() && is_portable(#[trigger] patterns@[i]@)
                        ==> is_glob_pattern(patterns@[i]@)
            },
            Err(error) => {
                &&& error.index < patterns@.len()
                &&& is_portable(patterns@[error.index as int]@) ==> !is_glob_pattern(
                    patterns@[error.index as int]@,
                )
                &&& forall|i: int|
                    0 <= i < error.index && is_portable(#[trigger] patterns@[i]@)
                        ==> is_glob_pattern(patterns@[i]@)
            },
        },
{
    let outcomes = compile_each(patterns);
    let result = collect_compiled(outcomes);
    proof {
        if result is Ok {
            let compiled = result->Ok_0;
            assert forall|i: int| 0 <= i < patterns@.len() implies pattern_source(
                #[trigger] compiled@[i],
            ) == patterns@[i]@ by {
                assert(outcomes@[i] == Ok::<Pattern, PatternError>(compiled@[i]));
            }
            assert forall|i: int|
                0 <= i < patterns@.len() && is_portable(
                    #[trigger] patterns@[i]@,
                ) implies is_glob_pattern(patterns@[i]@) by {
                assert(outcomes@[i] is Ok);
            }
        } else {
            let error = result->Err_0;
            assert(outcomes@[error.index as int] is Err);
            assert forall|i: int|
                0 <= i < error.index && is_portable(
                    #[trigger] patterns@[i]@,
                ) implies is_glob_pattern(patterns@[i]@) by {
                assert(outcomes@[i] is Ok);
            }
        }
    }
    result
}

/// What a search among the patterns for one that matches `path` says, where
/// `path` holds no backslash. If one was found, some pattern matches, unless
/// it is one with a backslash; if none was found, no pattern without a
/// backslash matches.
pub open spec fn search_agrees(patterns: Seq<Pattern>, path: Seq<char>, found: bool) -> bool {
    is_portable(path) ==> if found {
        exists|i: int|
            0 <= i < patterns.len() && (is_portable(pattern_source(#[trigger] patterns[i]))
                ==> glob_matches(pattern_source(patterns[i]), path))
    } else {
        forall|i: int|
            0 <= i < patterns.len() && is_portable(pattern_source(#[trigger] patterns[i]))
                ==> !glob_matches(pattern_source(patterns[i]), path)
    }
}

/// Whether one of the patterns matches `path`.
pub fn matches_any(patterns: &Vec<Pattern>, path: &str) -> (found: bool)
    ensures
        search_agrees(patterns@, path@, found),
        patterns@.len() == 0 ==> !found,
{
    let mut i: usize = 0;
    while i < patterns.len()
        invariant
            i <= patterns.len(),
            is_portable(path@) ==> forall|j: int|
                0 <= j < i && is_portable(pattern_source(#[trigger] patterns@[j]))
                    ==> !glob_matches(pattern_source(patterns@[j]), path@),
        decreases patterns.len() - i,
    {
        if pattern_matches(&patterns[i], path) {
            return true;
        }
        i = i + 1;
    }
    false
}

/// A file to copy as it is: its path below the source, and where it goes.
#[derive(Debug, PartialEq, Eq)]
pub struct PassthroughCopy {
    pub relative: String,
    pub destination: String,
}

/// A file that was met outside the directory that is being exported.
#[derive(Debug, PartialEq, Eq)]
pub struct OutsideSource {
    pub file: String,
}

/// The path of `file` below `source`, if it lies there.
pub fn path_below(file: &str, source: &str) -> (relative: Option<String>)
    ensures
        match relative {
            Some(found) => relative_to(file@, source@) == Some(found@),
            None => relative_to(file@, source@) is None,
        },
{
    match relative_path(&chars_of(file), &chars_of(source)) {
        Some(found) => Some(string_of(&found)),
        None => None,
    }
}

/// What to do with a file whose path below the source is `relative`, once it
/// is known whether a pattern picked it: nothing, or copy it to the same
/// path below `destination`.
pub fn copy_if_picked(relative: String, destination: &str, picked: bool) -> (copy: Option<
    PassthroughCopy,
>)
    ensures
        picked ==> (copy matches Some(planned) && planned.relative == relative
            && planned.destination@ == join_paths(destination@, relative@)),
        !picked ==> copy is None,
{
    if picked {
        let target = join_path_texts(&chars_of(destination), &chars_of(relative.as_str()));
        Some(PassthroughCopy { relative, destination: string_of(&target) })
    } else {
        None
    }
}

/// What to do with `file`, found under `source`: an error if it does not lie
/// there; else its path below `source` is held against the patterns, and a
/// file that one of them picks is to be copied to the same path below
/// `destination`.
pub fn plan_passthrough(
    file: &str,
    source: &str,
    destination: &str,
    patterns: &Vec<Pattern>,
) -> (plan: Result<Option<PassthroughCopy>, OutsideSource>)
    ensures
        plan is Err <==> relative_to(file@, source@) is None,
        plan matches Err(error) ==> error.file@ == file@,
        plan matches Ok(copy) ==> search_agrees(
            patterns@,
            relative_to(file@, source@)->Some_0,
            copy is Some,
        ),
        plan matches Ok(Some(copy)) ==> {
            &&& relative_to(file@, source@) == Some(copy.relative@)
            &&& copy.destination@ == join_paths(destination@, copy.relative@)
        },
        patterns@.len() == 0 ==> !(plan matches Ok(Some(_))),
{
    match path_below(file, source) {
        Some(relative) => {
            let picked = matches_any(patterns, relative.as_str());
            Ok(copy_if_picked(relative, destination, picked))
        },
        None => Err(OutsideSource { file: file.to_owned() }),
    }
}

/// The comment that stands above the patterns written into the ignore file.
pub const IGNORE_HEADER: &'static str = "# Temporary patterns for passthrough files\n";

/// The patterns, each followed by a line break.
pub open spec fn pattern_lines(patterns: Seq<Seq<char>>) -> Seq<char>
    decreases patterns.len(),
{
    if patterns.len() == 0 {
        Seq::<char>::empty()
    } else {
        (pattern_lines(patterns.drop_last()) + patterns.last()).push('\n')
    }
}

/// What the ignore file holds while the export runs: what it held before, if
/// it was there, followed by a line break; the header; the patterns.
pub open spec fn ignore_file_text(existing: Option<Seq<char>>, patterns: Seq<Seq<char>>) -> Seq<
    char,
> {
    match existing {
        Some(text) => text.push('\n') + IGNORE_HEADER@ + pattern_lines(patterns),
        None => IGNORE_HEADER@ + pattern_lines(patterns),
    }
}

/// What to write into the ignore file so that the exporter leaves the
/// passthrough files alone. `existing` is what the file holds, if it is there.
pub fn ignore_file_contents(existing: Option<&str>, patterns: &Vec<String>) -> (contents: String)
    ensures
        contents@ == ignore_file_text(
            match existing {
                Some(text) => Some(text@),
                None => None,
            },
            patterns.deep_view(),
        ),
{
    let mut contents: Vec<char> = Vec::new();
    match existing {
        Some(text) => {
            append_chars(&mut contents, &chars_of(text));
            contents.push('\n');
        },
        None => {},
    }
    append_chars(&mut contents, &chars_of(IGNORE_HEADER));
    let ghost start = contents@;
    let mut i: usize = 0;
    while i < patterns.len()
        invariant
            i <= patterns.len(),
            contents@ == start + pattern_lines(patterns.deep_view().take(i as int)),
        decreases patterns.len() - i,
    {
        proof {
            let lines = patterns.deep_view();
            assert(lines.take(i + 1).drop_last() == lines.take(i as int));
            assert(lines.take(i + 1).last() == patterns@[i as int]@);
        }
        append_chars(&mut contents, &chars_of(patterns[i].as_str()));
        contents.push('\n');
        i = i + 1;
    }
    proof {
        assert(patterns.deep_view().take(patterns.len() as int) == patterns.deep_view());
    }
    string_of(&contents)
}

/// What to do with the ignore file once the export is over.
#[derive(Clone, Copy, Debug, PartialEq, Eq)]
pub enum CleanupAction {
    /// Put the backup back in its place.
    RestoreBackup,
    /// Remove the file, which was made for the export.
    RemoveIgnoreFile,
    /// Leave everything as it is.
    Nothing,
}

/// A backup is put back; without one, an ignore file is one that was made for
/// the export, and is removed.
pub fn cleanup_action(backup_exists: bool, ignore_file_exists: bool) -> (action: CleanupAction)
    ensures
        action == if backup_exists {
            CleanupAction::RestoreBackup
        } else if ignore_file_exists {
            CleanupAction::RemoveIgnoreFile
        } else {
            CleanupAction::Nothing
        },
{
    if backup_exists {
        CleanupAction::RestoreBackup
    } else if ignore_file_exists {
        CleanupAction::RemoveIgnoreFile
    } else {
        CleanupAction::Nothing
    }
}

} // verus!
