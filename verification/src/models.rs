//! Small shared records: the interaction mode, plan items and attachments.
use vstd::prelude::*;

use crate::text::owned;

verus! {

/// How the agent treats tool calls: plan reads only, agent asks, yolo runs.
#[derive(Debug, Clone, Copy, PartialEq, Eq, Structural)]
pub enum AppMode {
    Agent,
    Plan,
    Yolo,
}

/// An item of the plan checklist.
#[derive(Debug, Clone, PartialEq, Eq)]
pub struct PlanItem {
    pub text: String,
    pub done: bool,
}

impl PlanItem {
    /// An open item with the given text.
    pub fn new(text: &str) -> (r: PlanItem)
        ensures
            r.text@ == text@,
            !r.done,
    {
        PlanItem { text: owned(text), done: false }
    }
}

/// A file or directory attached to the next prompt.
#[derive(Debug, Clone, PartialEq, Eq)]
pub struct FileAttachment {
    pub path: String,
}

impl FileAttachment {
    pub fn new(path: &str) -> (r: FileAttachment)
        ensures
            r.path@ == path@,
    {
        FileAttachment { path: owned(path) }
    }
}

} // verus!
