//! Pages of plain text.

use crate::frontmatter::split;
use crate::metadata::MetadataDecoder;
use crate::page::{body_of, metadata_read, PageError};
use vstd::prelude::*;

verus! {

/// A page read from a text document.
#[derive(Debug)]
pub struct TextPage<M> {
    /// The decoded metadata block, if the document has one.
    pub metadata: Option<M>,
    /// The body, as it stands in the document.
    pub content: String,
}

/// The metadata of the result of reading a page.
pub open spec fn metadata_of<M>(out: Result<TextPage<M>, PageError>) -> Result<
    Option<M>,
    PageError,
> {
    match out {
        Ok(page) => Ok(page.metadata),
        Err(error) => Err(error),
    }
}

impl<M: Clone> Clone for TextPage<M> {
    fn clone(&self) -> (page: Self)
        ensures
            page.content@ == self.content@,
            self.metadata is None ==> page.metadata is None,
            self.metadata matches Some(metadata) ==> page.metadata matches Some(copy) && cloned(
                metadata,
                copy,
            ),
    {
        TextPage { metadata: self.metadata.clone(), content: self.content.clone() }
    }
}

impl<M> TextPage<M> {
    /// Reads a page from the document `content`: splits off the metadata block and
    /// decodes it with `decoder`. The body is kept as text.
    ///
    /// Fails where the metadata block is not closed, and where the decoder fails,
    /// with the decoder's error.
    pub fn parse<D>(content: String, decoder: &D) -> (out: Result<Self, PageError>) where
        D: MetadataDecoder<Metadata = M>,

        ensures
            metadata_read(decoder, content@, metadata_of(out)),
            out matches Ok(page) ==> page.content@ == body_of(content@),
    {
        let parts = match split(content.as_str()) {
            Ok(parts) => parts,
            Err(_) => {
                return Err(PageError::MalformedFrontmatter);
            },
        };
        let metadata = match parts.metadata {
            None => None,
            Some(raw) => match decoder.decode(raw.as_str()) {
                Ok(metadata) => Some(metadata),
                Err(error) => {
                    return Err(PageError::Metadata(error));
                },
            },
        };
        Ok(TextPage { metadata, content: parts.body })
    }
}

} // verus!
