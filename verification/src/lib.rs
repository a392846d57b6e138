//! Pages for a static site: documents with an optional metadata block in front of a
//! body, read into pages, and a transform that finds the code to highlight in a
//! stream of markup tokens.
//!
//! The contracts are stated over sequences of characters: `lines` says how a text
//! falls into lines, `sections` how a document falls into metadata and body, and
//! `steps` what the highlight transform does for each token of a stream.

pub mod chars;
pub mod de;
pub mod frontmatter;
pub mod line;
pub mod md;
pub mod metadata;
pub mod page;
pub mod shiki;

pub use page::md::MarkdownPage;
pub use page::text::TextPage;
pub use page::AsHtml;
pub use page::PageCollection;
pub use page::PageError;
