//! What goes with a message.

use crate::utils::text::option_text;
use vstd::prelude::*;

verus! {

/// What an attachment is.
#[derive(Clone, Copy, Debug, PartialEq, Eq, Structural)]
pub enum MediaType {
    /// A picture.
    Image,
}

/// An attachment of a message.
#[derive(Debug)]
pub struct MediaAttachment {
    /// What it is.
    pub media_type: MediaType,
    /// Its bytes.
    pub data: Option<Vec<u8>>,
    /// Its file name.
    pub filename: Option<String>,
    /// Its MIME type.
    pub mime_type: Option<String>,
}

/// The contents of a [`MediaAttachment`].
pub struct MediaView {
    /// See [`MediaAttachment::media_type`].
    pub media_type: MediaType,
    /// See [`MediaAttachment::data`].
    pub data: Option<Seq<u8>>,
    /// See [`MediaAttachment::filename`].
    pub filename: Option<Seq<char>>,
    /// See [`MediaAttachment::mime_type`].
    pub mime_type: Option<Seq<char>>,
}

impl View for MediaAttachment {
    type V = MediaView;

    open spec fn view(&self) -> MediaView {
        MediaView {
            media_type: self.media_type,
            data: match self.data {
                None => None,
                Some(data) => Some(data@),
            },
            filename: option_text(self.filename),
            mime_type: option_text(self.mime_type),
        }
    }
}

impl MediaAttachment {
    /// An attachment that has nothing yet.
    pub fn new(media_type: MediaType) -> (r: MediaAttachment)
        ensures
            r@ == (MediaView { media_type, data: None, filename: None, mime_type: None }),
    {
        MediaAttachment { media_type, data: None, filename: None, mime_type: None }
    }

    /// The attachment with these bytes.
    pub fn with_data(self, data: Vec<u8>) -> (r: MediaAttachment)
        ensures
            r@ == (MediaView { data: Some(data@), ..self@ }),
    {
        MediaAttachment { data: Some(data), ..self }
    }

    /// The attachment with this file name.
    pub fn with_filename(self, filename: &str) -> (r: MediaAttachment)
        ensures
            r@ == (MediaView { filename: Some(filename@), ..self@ }),
    {
        MediaAttachment { filename: Some(filename.to_owned()), ..self }
    }

    /// The attachment with this MIME type.
    pub fn with_mime_type(self, mime_type: &str) -> (r: MediaAttachment)
        ensures
            r@ == (MediaView { mime_type: Some(mime_type@), ..self@ }),
    {
        MediaAttachment { mime_type: Some(mime_type.to_owned()), ..self }
    }
}

} // verus!
