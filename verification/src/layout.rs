//! The files of a repository besides its objects: the skeleton of
//! directories, `HEAD`, and one file for each ref. Paths are relative to the
//! repository's root.

use crate::hex_text::hex_encoded;
use crate::oid::Oid;
use vstd::prelude::*;
use vstd::string::StringExecFns;

verus! {

/// One change to the files of a repository.
#[derive(Clone, Debug, PartialEq, Eq)]
pub enum Step {
    /// Create the directory at `path`.
    CreateDir { path: String },
    /// Write the file at `path` with the given content.
    WriteFile { path: String, content: String },
}

/// A change as the contracts see it.
pub enum StepView {
    /// Create the directory at `path`.
    CreateDir { path: Seq<char> },
    /// Write the file at `path` with the given content.
    WriteFile { path: Seq<char>, content: Seq<char> },
}

impl View for Step {
    type V = StepView;

    open spec fn view(&self) -> StepView {
        match self {
            Step::CreateDir { path } => StepView::CreateDir { path: path@ },
            Step::WriteFile { path, content } => StepView::WriteFile {
                path: path@,
                content: content@,
            },
        }
    }
}

impl DeepView for Step {
    type V = StepView;

    open spec fn deep_view(&self) -> StepView {
        self@
    }
}

/// The step that points `HEAD` at the branch `main`.
pub open spec fn head_step() -> StepView {
    StepView::WriteFile { path: ".git/HEAD"@, content: "ref: refs/heads/main\n"@ }
}

/// The steps that lay out a repository: the directories `.git`,
/// `.git/objects`, `.git/refs` and `.git/refs/heads`, then `HEAD`.
pub open spec fn init_steps() -> Seq<StepView> {
    seq![
        StepView::CreateDir { path: ".git"@ },
        StepView::CreateDir { path: ".git/objects"@ },
        StepView::CreateDir { path: ".git/refs"@ },
        StepView::CreateDir { path: ".git/refs/heads"@ },
        head_step(),
    ]
}

/// The step that writes the file of the ref `name`: forty hexadecimal
/// digits and a line feed, at `.git/<name>`.
pub open spec fn ref_step(name: Seq<char>, oid: Seq<u8>) -> StepView {
    StepView::WriteFile { path: ".git/"@ + name, content: hex_encoded(oid) + "\n"@ }
}

/// Makes the step that points `HEAD` at the branch `main`.
pub fn write_head() -> (step: Step)
    ensures
        step@ == head_step(),
{
    Step::WriteFile {
        path: String::from_str(".git/HEAD"),
        content: String::from_str("ref: refs/heads/main\n"),
    }
}

/// Makes the steps that lay out a repository.
pub fn skeleton() -> (steps: Vec<Step>)
    ensures
        steps.deep_view() == init_steps(),
{
    let mut steps: Vec<Step> = Vec::new();
    steps.push(Step::CreateDir { path: String::from_str(".git") });
    steps.push(Step::CreateDir { path: String::from_str(".git/objects") });
    steps.push(Step::CreateDir { path: String::from_str(".git/refs") });
    steps.push(Step::CreateDir { path: String::from_str(".git/refs/heads") });
    steps.push(write_head());
    steps
}

/// Makes the step that writes the file of the ref `name`.
pub fn write_ref(name: &str, oid: &Oid) -> (step: Step)
    ensures
        step@ == ref_step(name@, oid@),
{
    let mut path = String::from_str(".git/");
    path.append(name);
    let mut content = oid.to_hex();
    content.append("\n");
    Step::WriteFile { path, content }
}

} // verus!
