//! Pages and collections of pages.

pub mod md;
pub mod text;

use crate::frontmatter::sections;
use crate::metadata::{DecodeError, MetadataDecoder};
use vstd::prelude::*;
use vstd::std_specs::convert::FromSpecImpl;
use vstd::std_specs::iter::IteratorSpec;

verus! {

/// Something that can be shown as HTML.
pub trait AsHtml {
    /// The HTML of this value.
    fn as_html(&self) -> String;
}

/// Why a document could not be read as a page.
#[derive(Debug, PartialEq, Eq)]
pub enum PageError {
    /// The document opens a metadata block and never closes it.
    MalformedFrontmatter,
    /// The metadata block could not be decoded.
    Metadata(DecodeError),
}

/// Whether `out` is a result of reading the metadata of the document `source` with
/// `decoder`. A document without a metadata block has none, whatever the decoder; a
/// metadata block is handed to the decoder as it stands between its delimiter lines,
/// and what the decoder makes of it is the result.
pub open spec fn metadata_read<D: MetadataDecoder>(
    decoder: &D,
    source: Seq<char>,
    out: Result<Option<D::Metadata>, PageError>,
) -> bool {
    match sections(source) {
        None => out matches Err(PageError::MalformedFrontmatter),
        Some((None, _)) => out matches Ok(None),
        Some((Some(raw), _)) => match out {
            Ok(Some(metadata)) => decoder.decodes(raw, Ok(metadata)),
            Err(PageError::Metadata(error)) => decoder.decodes(raw, Err(error)),
            _ => false,
        },
    }
}

/// The body of the document `source`.
pub open spec fn body_of(source: Seq<char>) -> Seq<char> {
    match sections(source) {
        Some((_, body)) => body,
        None => Seq::empty(),
    }
}

/// An ordered collection of pages.
pub struct PageCollection<E: AsHtml> {
    pages: Vec<E>,
}

impl<E: AsHtml> View for PageCollection<E> {
    type V = Seq<E>;

    /// The pages, in order.
    closed spec fn view(&self) -> Seq<E> {
        self.pages@
    }
}

/// The members of `pages` that `keep` marks, in their order. `keep` has one mark for
/// each page.
pub open spec fn select<E>(pages: Seq<E>, keep: Seq<bool>) -> Seq<E>
    decreases pages.len(),
{
    if pages.len() == 0 || keep.len() != pages.len() {
        Seq::empty()
    } else if keep.last() {
        select(pages.drop_last(), keep.drop_last()).push(pages.last())
    } else {
        select(pages.drop_last(), keep.drop_last())
    }
}

/// Where each mark says whether `accepts` holds of its page, the marked pages are
/// the pages that `accepts` holds of.
pub proof fn lemma_select_is_filter<E>(pages: Seq<E>, keep: Seq<bool>, accepts: spec_fn(E) -> bool)
    requires
        keep.len() == pages.len(),
        forall|i: int| 0 <= i < pages.len() ==> #[trigger] keep[i] == accepts(pages[i]),
    ensures
        select(pages, keep) == pages.filter(accepts),
    decreases pages.len(),
{
    reveal(Seq::filter);
    if pages.len() > 0 {
        lemma_select_is_filter(pages.drop_last(), keep.drop_last(), accepts);
    }
}

impl<E: AsHtml> PageCollection<E> {
    /// An iterator over the pages, in order.
    pub fn iter(&self) -> (it: core::slice::Iter<'_, E>)
        ensures
            IteratorSpec::remaining(&it) == self@.as_ref(),
            IteratorSpec::decrease(&it) is Some,
            IteratorSpec::initial_value_relation(&it, &it),
    {
        self.pages.iter()
    }

    /// Keeps the pages for which `f` returns `true`, in their order, and drops the
    /// others. `f` is asked once for each page, in order.
    pub fn retain<F>(&mut self, f: F) where F: FnMut(&E) -> bool
        requires
            forall|i: int| 0 <= i < old(self)@.len() ==> call_requires(f, (&#[trigger] old(self)@[i],)),
        ensures
            exists|keep: Seq<bool>|
                keep.len() == old(self)@.len() && final(self)@ == select(old(self)@, keep) && (
                forall|i: int|
                    0 <= i < keep.len() ==> call_ensures(f, (&old(self)@[i],), #[trigger] keep[i])),
            forall|accepts: spec_fn(E) -> bool|
                (forall|page: &E, kept: bool|
                    call_ensures(f, (page,), kept) ==> kept == accepts(*page)) ==> final(self)@
                    == #[trigger] old(self)@.filter(accepts),
    {
        let mut ask = f;
        let mut all: Vec<E> = Vec::new();
        core::mem::swap(&mut self.pages, &mut all);
        let ghost mut keep: Seq<bool> = Seq::empty();
        for page in it: all
            invariant
                ask == f,
                forall|i: int|
                    0 <= i < old(self)@.len() ==> call_requires(f, (&#[trigger] old(self)@[i],)),
                it.seq() == old(self)@,
                keep.len() == it.index(),
                forall|i: int|
                    0 <= i < keep.len() ==> call_ensures(f, (&old(self)@[i],), #[trigger] keep[i]),
                self.pages@ == select(old(self)@.take(it.index()), keep),
        {
            let kept = ask(&page);
            proof {
                let ghost before = keep;
                keep = keep.push(kept);
                assert(keep.drop_last() =~= before);
                assert(old(self)@.take(it.index() + 1).drop_last() =~= old(self)@.take(
                    it.index(),
                ));
            }
            if kept {
                self.pages.push(page);
            }
        }
        proof {
            assert(old(self)@.take(old(self)@.len() as int) =~= old(self)@);
            assert(keep.len() == old(self)@.len());
            assert(self.pages@ == select(old(self)@, keep));
            assert forall|accepts: spec_fn(E) -> bool|
                (forall|page: &E, kept: bool|
                    call_ensures(f, (page,), kept) ==> kept == accepts(*page)) implies self.pages@
                == #[trigger] old(self)@.filter(accepts) by {
                lemma_select_is_filter(old(self)@, keep, accepts);
            }
        }
    }
}

impl<E: AsHtml> From<Vec<E>> for PageCollection<E> {
    /// The collection of `pages`, in their order.
    fn from(pages: Vec<E>) -> (collection: Self)
        ensures
            collection@ == pages@,
    {
        PageCollection { pages }
    }
}

impl<E: AsHtml> FromSpecImpl<Vec<E>> for PageCollection<E> {
    open spec fn obeys_from_spec() -> bool {
        true
    }

    closed spec fn from_spec(pages: Vec<E>) -> Self {
        PageCollection { pages }
    }
}

impl<E: AsHtml> IntoIterator for PageCollection<E> {
    type Item = E;

    type IntoIter = std::vec::IntoIter<E>;

    /// An iterator that hands the pages out, in order.
    fn into_iter(self) -> (it: std::vec::IntoIter<E>)
        ensures
            IteratorSpec::remaining(&it) == self@,
    {
        self.pages.into_iter()
    }
}

} // verus!
