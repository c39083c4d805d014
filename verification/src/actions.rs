//! Editor command definitions: plain data carried by editor actions.

use vstd::prelude::*;

verus! {

/// A row in display coordinates.
#[derive(Debug, PartialEq, Eq, Clone, Copy)]
pub struct DisplayRow(pub u32);

#[derive(PartialEq, Clone, Default, Debug)]
pub struct SelectNext {
    pub replace_newest: bool,
}

#[derive(PartialEq, Clone, Default, Debug)]
pub struct SelectPrevious {
    pub replace_newest: bool,
}

#[derive(PartialEq, Clone, Debug)]
pub struct MoveToBeginningOfLine {
    pub stop_at_soft_wraps: bool,
    pub stop_at_indent: bool,
}

impl Default for MoveToBeginningOfLine {
    fn default() -> (r: Self)
        ensures
            r.stop_at_soft_wraps == true,
            r.stop_at_indent == false,
    {
        MoveToBeginningOfLine { stop_at_soft_wraps: true, stop_at_indent: false }
    }
}

#[derive(PartialEq, Clone, Default, Debug)]
pub struct SelectToBeginningOfLine {
    pub(crate) stop_at_soft_wraps: bool,
    pub stop_at_indent: bool,
}

#[derive(PartialEq, Clone, Default, Debug)]
pub struct DeleteToBeginningOfLine {
    pub(crate) stop_at_indent: bool,
}

#[derive(PartialEq, Clone, Default, Debug)]
pub struct MovePageUp {
    pub(crate) center_cursor: bool,
}

#[derive(PartialEq, Clone, Default, Debug)]
pub struct MovePageDown {
    pub(crate) center_cursor: bool,
}

#[derive(PartialEq, Clone, Debug)]
pub struct MoveToEndOfLine {
    pub stop_at_soft_wraps: bool,
}

impl Default for MoveToEndOfLine {
    fn default() -> (r: Self)
        ensures
            r.stop_at_soft_wraps == true,
    {
        MoveToEndOfLine { stop_at_soft_wraps: true }
    }
}

#[derive(PartialEq, Clone, Default, Debug)]
pub struct SelectToEndOfLine {
    pub(crate) stop_at_soft_wraps: bool,
}

#[derive(PartialEq, Clone, Default, Debug)]
pub struct ToggleCodeActions {
    /// Source from which the action was deployed.
    pub deployed_from: Option<CodeActionSource>,
    /// Run first available task if there is only one.
    pub quick_launch: bool,
}

#[derive(PartialEq, Clone, Debug)]
pub enum CodeActionSource {
    Indicator(DisplayRow),
    RunMenu(DisplayRow),
    QuickActionBar,
}

#[derive(PartialEq, Clone, Default, Debug)]
pub struct ConfirmCompletion {
    pub item_ix: Option<usize>,
}

#[derive(PartialEq, Clone, Default, Debug)]
pub struct ComposeCompletion {
    pub item_ix: Option<usize>,
}

#[derive(PartialEq, Clone, Default, Debug)]
pub struct ConfirmCodeAction {
    pub item_ix: Option<usize>,
}

#[derive(PartialEq, Clone, Default, Debug)]
pub struct ToggleComments {
    pub advance_downwards: bool,
    pub ignore_indent: bool,
}

#[derive(PartialEq, Clone, Default, Debug)]
pub struct MoveUpByLines {
    pub(crate) lines: u32,
}

#[derive(PartialEq, Clone, Default, Debug)]
pub struct MoveDownByLines {
    pub(crate) lines: u32,
}

#[derive(PartialEq, Clone, Default, Debug)]
pub struct SelectUpByLines {
    pub(crate) lines: u32,
}

#[derive(PartialEq, Clone, Default, Debug)]
pub struct SelectDownByLines {
    pub(crate) lines: u32,
}

#[derive(PartialEq, Clone, Default, Debug)]
pub struct ExpandExcerpts {
    pub(crate) lines: u32,
}

#[derive(PartialEq, Clone, Default, Debug)]
pub struct ExpandExcerptsUp {
    pub(crate) lines: u32,
}

#[derive(PartialEq, Clone, Default, Debug)]
pub struct ExpandExcerptsDown {
    pub(crate) lines: u32,
}

#[derive(PartialEq, Clone, Default, Debug)]
pub struct ShowCompletions {
    pub(crate) trigger: Option<String>,
}

#[derive(PartialEq, Clone, Default, Debug)]
pub struct HandleInput(pub String);

#[derive(PartialEq, Clone, Default, Debug)]
pub struct DeleteToNextWordEnd {
    pub ignore_newlines: bool,
}

#[derive(PartialEq, Clone, Default, Debug)]
pub struct DeleteToPreviousWordStart {
    pub ignore_newlines: bool,
}

#[derive(PartialEq, Clone, Default, Debug)]
pub struct FoldAtLevel(pub u32);

#[derive(Debug, PartialEq, Eq, Clone, Copy, Default)]
pub enum UuidVersion {
    #[default]
    V4,
    V7,
}

} // verus!
