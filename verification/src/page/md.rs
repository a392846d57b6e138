//! Pages written in Markdown.

use crate::frontmatter::split;
use crate::md::{markdown_to_html, rendered, PAGE_OPTIONS};
use crate::metadata::MetadataDecoder;
use crate::page::{body_of, metadata_read, AsHtml, PageError};
use vstd::prelude::*;

verus! {

/// A page read from a Markdown document.
#[derive(Debug)]
pub struct MarkdownPage<M> {
    /// The decoded metadata block, if the document has one.
    pub metadata: Option<M>,
    /// The body, rendered as HTML.
    pub content: String,
}

/// The metadata of the result of reading a page.
pub open spec fn metadata_of<M>(out: Result<MarkdownPage<M>, PageError>) -> Result<
    Option<M>,
    PageError,
> {
    match out {
        Ok(page) => Ok(page.metadata),
        Err(error) => Err(error),
    }
}

impl<M> MarkdownPage<M> {
    /// Reads a page from the document `content`: splits off the metadata block,
    /// decodes it with `decoder`, and renders the body as HTML.
    ///
    /// Fails where the metadata block is not closed, and where the decoder fails,
    /// with the decoder's error.
    pub fn parse<D>(content: String, decoder: &D) -> (out: Result<Self, PageError>) where
        D: MetadataDecoder<Metadata = M>,

        ensures
            metadata_read(decoder, content@, metadata_of(out)),
            out matches Ok(page) ==> page.content@ == rendered(body_of(content@), PAGE_OPTIONS),
    {
        let parts = match split(content.as_str()) {
            Ok(parts) => parts,
            Err(_) => {
                return Err(PageError::MalformedFrontmatter);
            },
        };
        let metadata = match parts.metadata {
            None => None,
            Some(raw) => match decoder.decode(raw.as_str()) {
                Ok(metadata) => Some(metadata),
                Err(error) => {
                    return Err(PageError::Metadata(error));
                },
            },
        };
        Ok(MarkdownPage { metadata, content: markdown_to_html(parts.body.as_str()) })
    }
}

impl<M> AsHtml for MarkdownPage<M> {
    /// The rendered body.
    fn as_html(&self) -> (html: String)
        ensures
            html@ == self.content@,
    {
        self.content.clone()
    }
}

} // verus!
