//! The order of an export: which steps are taken, and which of them still
//! is after a step has failed. Carrying the steps out is left to the caller.

use vstd::prelude::*;
use crate::utils::{validate_directory, DirectoryError, DirectoryProblem, PathStatus};

verus! {

/// Whether the exporter writes the frontmatter of a note.
#[derive(Clone, Copy, Debug, PartialEq, Eq)]
pub enum FrontmatterMode {
    Always,
    Never,
}

/// One step of an export.
#[derive(Clone, Copy, Debug, PartialEq, Eq)]
pub enum ExportStep {
    /// See that the source is a directory.
    ValidateSource,
    /// Make the destination, or see that it is a directory.
    PrepareDestination,
    /// Copy the files that the passthrough patterns pick.
    CopyPassthroughFiles,
    /// Tell the exporter, through its ignore file, to leave those files alone.
    WriteIgnoreFile,
    /// Export the notes, rewriting their links.
    RunExporter { frontmatter: FrontmatterMode },
    /// Put the ignore file back as it was.
    CleanUpIgnoreFile,
}

/// What the exporter is told about frontmatter.
pub open spec fn frontmatter_mode(skip_frontmatter: bool) -> FrontmatterMode {
    if skip_frontmatter {
        FrontmatterMode::Never
    } else {
        FrontmatterMode::Always
    }
}

/// The steps of an export, in order. The three steps about passthrough files
/// are taken only where there are patterns: two before the exporter runs, one
/// after.
pub open spec fn export_steps(skip_frontmatter: bool, passthrough: bool) -> Seq<ExportStep> {
    if passthrough {
        seq![
            ExportStep::ValidateSource,
            ExportStep::PrepareDestination,
            ExportStep::CopyPassthroughFiles,
            ExportStep::WriteIgnoreFile,
            ExportStep::RunExporter { frontmatter: frontmatter_mode(skip_frontmatter) },
            ExportStep::CleanUpIgnoreFile,
        ]
    } else {
        seq![
            ExportStep::ValidateSource,
            ExportStep::PrepareDestination,
            ExportStep::RunExporter { frontmatter: frontmatter_mode(skip_frontmatter) },
        ]
    }
}

/// The position of the step that follows the one at `position`, which ended
/// as `succeeded` says; none where the export is over. After a success the
/// next step follows. After a failure nothing follows, but for the clean-up
/// that stands right behind a failed run of the exporter.
pub open spec fn step_after(steps: Seq<ExportStep>, position: int, succeeded: bool) -> Option<
    int,
> {
    if 0 <= position && position + 1 < steps.len() && (succeeded || (steps[position] is RunExporter
        && steps[position + 1] is CleanUpIgnoreFile)) {
        Some(position + 1)
    } else {
        None
    }
}

/// An ignore file that was written is cleaned up: the clean-up is the last
/// step of an export with patterns, it stands right behind the run of the
/// exporter, and it is taken whether that run succeeds or fails.
pub proof fn lemma_written_ignore_file_is_cleaned_up(skip_frontmatter: bool, succeeded: bool)
    ensures
        ({
            let steps = export_steps(skip_frontmatter, true);
            &&& steps[3] is WriteIgnoreFile
            &&& steps[4] is RunExporter
            &&& steps.last() is CleanUpIgnoreFile
            &&& step_after(steps, 4, succeeded) == Some(5int)
            &&& step_after(steps, 5, succeeded) is None
        }),
{
}

/// The steps of an export with the given passthrough patterns.
pub fn plan_export(skip_frontmatter: bool, passthrough_patterns: &Vec<String>) -> (steps: Vec<
    ExportStep,
>)
    ensures
        steps@ == export_steps(skip_frontmatter, passthrough_patterns@.len() > 0),
{
    let frontmatter = if skip_frontmatter {
        FrontmatterMode::Never
    } else {
        FrontmatterMode::Always
    };
    let mut steps: Vec<ExportStep> = Vec::new();
    steps.push(ExportStep::ValidateSource);
    steps.push(ExportStep::PrepareDestination);
    if passthrough_patterns.len() > 0 {
        steps.push(ExportStep::CopyPassthroughFiles);
        steps.push(ExportStep::WriteIgnoreFile);
    }
    steps.push(ExportStep::RunExporter { frontmatter });
    if passthrough_patterns.len() > 0 {
        steps.push(ExportStep::CleanUpIgnoreFile);
    }
    proof {
        assert(steps@ =~= export_steps(skip_frontmatter, passthrough_patterns@.len() > 0));
    }
    steps
}

/// The position of the step to take after the one at `position`.
pub fn next_step(steps: &Vec<ExportStep>, position: usize, succeeded: bool) -> (next: Option<
    usize,
>)
    ensures
        match next {
            Some(n) => step_after(steps@, position as int, succeeded) == Some(n as int),
            None => step_after(steps@, position as int, succeeded) is None,
        },
{
    if position >= steps.len() || position + 1 >= steps.len() {
        return None;
    }
    if succeeded {
        return Some(position + 1);
    }
    match (steps[position], steps[position + 1]) {
        (ExportStep::RunExporter { .. }, ExportStep::CleanUpIgnoreFile) => Some(position + 1),
        _ => None,
    }
}

/// What to do about the destination of an export.
#[derive(Clone, Copy, Debug, PartialEq, Eq)]
pub enum DestinationAction {
    /// Nothing is there: make the directory, and those above it.
    Create,
    /// The directory is there.
    UseExisting,
}

/// A destination that is not there is made; one that is there has to be a
/// directory.
pub fn prepare_destination(path: &str, status: PathStatus) -> (result: Result<
    DestinationAction,
    DirectoryError,
>)
    ensures
        !status.exists ==> result == Ok::<DestinationAction, DirectoryError>(
            DestinationAction::Create,
        ),
        status.exists && status.is_dir ==> result == Ok::<DestinationAction, DirectoryError>(
            DestinationAction::UseExisting,
        ),
        status.exists && !status.is_dir ==> (result matches Err(error) && error.problem
            == DirectoryProblem::NotADirectory && error.description@ == "Destination directory"@
            && error.path@ == path@),
{
    if !status.exists {
        Ok(DestinationAction::Create)
    } else {
        match validate_directory(path, "Destination directory", status) {
            Ok(()) => Ok(DestinationAction::UseExisting),
            Err(error) => Err(error),
        }
    }
}

} // verus!
