//! Conversions for the values of metadata fields.

use crate::chars::{chars_of, find, find_in, lemma_find, string_of, trim, trim_in};
use crate::line::views;
use crate::md::{markdown_to_html, rendered, PAGE_OPTIONS};
use vstd::prelude::*;

verus! {

/// The pieces of `text` between its commas. A text with `n` commas has `n + 1` pieces.
pub open spec fn fields(text: Seq<char>) -> Seq<Seq<char>>
    decreases text.len(),
{
    let comma = find(text, ',');
    if 0 <= comma < text.len() {
        seq![text.take(comma)] + fields(text.skip(comma + 1))
    } else {
        seq![text]
    }
}

/// The pieces of `text` between its commas, each trimmed.
pub open spec fn tags(text: Seq<char>) -> Seq<Seq<char>> {
    fields(text).map_values(|field: Seq<char>| trim(field))
}

/// Reads a list of tags from a field that separates them by commas. Each tag is
/// trimmed; an empty field gives one empty tag.
pub fn comma_separated(field: &str) -> (out: Vec<String>)
    ensures
        views(out@) == tags(field@),
{
    let chars = chars_of(field);
    let n = chars.len();
    let mut out: Vec<String> = Vec::new();
    let mut pos: usize = 0;
    let mut done = false;
    proof {
        assert(chars@.skip(0) =~= chars@);
        assert(views(out@) + tags(chars@) =~= tags(chars@));
    }
    while !done
        invariant
            n == chars.len(),
            pos <= n,
            !done ==> tags(chars@) == views(out@) + tags(chars@.skip(pos as int)),
            done ==> tags(chars@) == views(out@),
        decreases n - pos + (if done { 0int } else { 1int }),
    {
        let ghost rest = chars@.skip(pos as int);
        let comma = find_in(&chars, pos, n, ',');
        proof {
            assert(chars@.subrange(pos as int, n as int) =~= rest);
            lemma_find(rest, ',');
        }
        let bounds = trim_in(&chars, pos, comma);
        let tag = string_of(&chars, bounds.0, bounds.1);
        let ghost before = views(out@);
        out.push(tag);
        proof {
            assert(views(out@) =~= before + seq![tag@]);
            assert(chars@.subrange(pos as int, comma as int) =~= rest.take(comma - pos));
            if comma < n {
                assert(rest.skip(comma - pos + 1) =~= chars@.skip(comma + 1));
                assert(tags(rest) =~= seq![tag@] + tags(chars@.skip(comma + 1)));
            } else {
                assert(rest.take(comma - pos) =~= rest);
                assert(tags(rest) =~= seq![tag@]);
            }
        }
        if comma < n {
            pos = comma + 1;
        } else {
            done = true;
        }
    }
    out
}

/// Reads a field that holds Markdown, as HTML.
pub fn markdown(field: &str) -> (html: String)
    ensures
        html@ == rendered(field@, PAGE_OPTIONS),
{
    markdown_to_html(field)
}

/// Reads a field that holds Markdown, as HTML, for a field that may be absent.
pub fn option_markdown(field: &str) -> (html: Option<String>)
    ensures
        html matches Some(text) && text@ == rendered(field@, PAGE_OPTIONS),
{
    Some(markdown_to_html(field))
}

} // verus!
