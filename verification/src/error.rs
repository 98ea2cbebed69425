//! What the rendering core reports when it cannot go on.

use crate::html_parser::TreeBuilderError;
use vstd::prelude::*;

verus! {

/// A chapter could not be rendered. The pages rendered before stay as they are.
#[derive(Debug)]
pub enum IllustratorRenderError {
    /// The markup tree could not be built.
    TreeBuilder(TreeBuilderError),
    /// A block element was closed that had not been opened.
    UnexpectedExtraClose,
    /// The chapter holds no body element.
    MissingBody,
    /// The chapter holds more blocks than can be numbered.
    TooManyBlocks,
    /// The walk through the markup tree did not end: a node hangs under itself.
    EndlessWalk,
    /// The layout does not hold one box for each block.
    LayoutMismatch,
}

/// A request could not be handed to the worker.
#[derive(Debug, Clone, Copy, PartialEq, Eq, Structural)]
pub enum IllustratorRequestError {
    /// The worker has ended.
    NotRunning,
}

/// A book could not be opened.
#[derive(Debug)]
pub enum IllustratorSpawnError {
    /// The stored state of the book could not be read; the text says why.
    RecordKeeper(String),
}

impl IllustratorRenderError {
    /// The error in words.
    pub fn message(&self) -> (s: &'static str)
        ensures
            s@ == render_error_text(*self),
    {
        match self {
            IllustratorRenderError::TreeBuilder(_) => "Tree builder failed",
            IllustratorRenderError::UnexpectedExtraClose => "Unexpected extra close",
            IllustratorRenderError::MissingBody => "Missing body",
            IllustratorRenderError::TooManyBlocks => "Too many blocks",
            IllustratorRenderError::EndlessWalk => "Walk through the tree does not end",
            IllustratorRenderError::LayoutMismatch => "Layout does not match the blocks",
        }
    }
}

pub open spec fn render_error_text(e: IllustratorRenderError) -> Seq<char> {
    match e {
        IllustratorRenderError::TreeBuilder(_) => "Tree builder failed"@,
        IllustratorRenderError::UnexpectedExtraClose => "Unexpected extra close"@,
        IllustratorRenderError::MissingBody => "Missing body"@,
        IllustratorRenderError::TooManyBlocks => "Too many blocks"@,
        IllustratorRenderError::EndlessWalk => "Walk through the tree does not end"@,
        IllustratorRenderError::LayoutMismatch => "Layout does not match the blocks"@,
    }
}

impl IllustratorRequestError {
    /// The error in words.
    pub fn message(&self) -> (s: &'static str)
        ensures
            s@ == "Illustrator not running"@,
    {
        "Illustrator not running"
    }
}

} // verus!
