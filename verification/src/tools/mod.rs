//! Tools that the assistant can call.

pub mod browser;
pub mod schema;
pub mod screenshot;
pub mod web;

use crate::bus::{MediaAttachment, MediaView};
use crate::error::{ErrorView, ZeptoError};
use crate::utils::text::option_text;
use vstd::prelude::*;

verus! {

/// What a tool does to the world, for policies.
#[derive(Clone, Copy, Debug, PartialEq, Eq, Structural)]
pub enum ToolCategory {
    /// Writes files.
    FilesystemWrite,
    /// Runs programs.
    Shell,
}

/// What a tool returns.
#[derive(Debug)]
pub struct ToolOutput {
    /// What the model reads.
    pub for_llm: String,
    /// What the user reads.
    pub for_user: Option<String>,
    /// What is shown.
    pub media: Option<MediaAttachment>,
}

/// The contents of a [`ToolOutput`].
pub struct OutputView {
    /// See [`ToolOutput::for_llm`].
    pub for_llm: Seq<char>,
    /// See [`ToolOutput::for_user`].
    pub for_user: Option<Seq<char>>,
    /// See [`ToolOutput::media`].
    pub media: Option<MediaView>,
}

impl View for ToolOutput {
    type V = OutputView;

    open spec fn view(&self) -> OutputView {
        OutputView {
            for_llm: self.for_llm@,
            for_user: option_text(self.for_user),
            media: match self.media {
                None => None,
                Some(media) => Some(media@),
            },
        }
    }
}

/// The contents of what a tool returns or fails with.
pub open spec fn result_view(r: Result<ToolOutput, ZeptoError>) -> Result<OutputView, ErrorView> {
    match r {
        Ok(output) => Ok(output@),
        Err(e) => Err(e@),
    }
}

/// An output for the model alone.
pub open spec fn for_model(text: Seq<char>) -> OutputView {
    OutputView { for_llm: text, for_user: None, media: None }
}

impl ToolOutput {
    /// An output for the model alone.
    pub fn llm_only(text: String) -> (r: ToolOutput)
        ensures
            r@ == for_model(text@),
    {
        ToolOutput { for_llm: text, for_user: None, media: None }
    }

    /// An output for the model, and another for the user.
    pub fn split(for_llm: String, for_user: String) -> (r: ToolOutput)
        ensures
            r@ == (OutputView { for_llm: for_llm@, for_user: Some(for_user@), media: None }),
    {
        ToolOutput { for_llm, for_user: Some(for_user), media: None }
    }

    /// The output with an attachment.
    pub fn with_media(self, media: MediaAttachment) -> (r: ToolOutput)
        ensures
            r@ == (OutputView { media: Some(media@), ..self@ }),
    {
        ToolOutput { media: Some(media), ..self }
    }
}

} // verus!
