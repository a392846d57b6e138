//! Splitting a document into its metadata block and its body.
//!
//! A document may open with a metadata block: after any number of blank lines, a
//! delimiter line, the lines of the block, and a second delimiter line. What follows
//! is the body. A document whose first line that is not blank is no delimiter line
//! has no metadata block, and is all body from that line on.

use crate::chars::blank;
use crate::line::{
    delimiter, is_blank, is_delimiter, join, join_lines, lemma_join_concat, lemma_join_one,
    lemma_lines_cons, lines, split_lines, strip_cr, views,
};
use vstd::prelude::*;

verus! {

/// The two parts of a document.
#[derive(Debug, PartialEq, Eq)]
pub struct Sections {
    /// The text between the two delimiter lines, if the document has a metadata block.
    pub metadata: Option<String>,
    /// The text of the body.
    pub body: String,
}

/// The document opens a metadata block and never closes it.
#[derive(Debug, Clone, Copy, PartialEq, Eq)]
pub struct MalformedFrontmatter;

impl View for Sections {
    type V = (Option<Seq<char>>, Seq<char>);

    open spec fn view(&self) -> (Option<Seq<char>>, Seq<char>) {
        (
            match self.metadata {
                Some(text) => Some(text@),
                None => None,
            },
            self.body@,
        )
    }
}

/// Number of blank lines at the start of `lines`.
pub open spec fn leading_blanks(lines: Seq<Seq<char>>) -> int
    decreases lines.len(),
{
    if lines.len() > 0 && blank(lines[0]) {
        1 + leading_blanks(lines.drop_first())
    } else {
        0
    }
}

/// Index of the first delimiter line in `lines`, or `lines.len()` where there is none.
pub open spec fn first_delimiter(lines: Seq<Seq<char>>) -> int
    decreases lines.len(),
{
    if lines.len() == 0 || delimiter(lines[0]) {
        0
    } else {
        1 + first_delimiter(lines.drop_first())
    }
}

/// The parts of a document given by its lines: the metadata text, if any, and the
/// body, each line followed by one `\n`. `None` where a metadata block is opened and
/// not closed.
pub open spec fn sections_of(lines: Seq<Seq<char>>) -> Option<(Option<Seq<char>>, Seq<char>)> {
    let rest = lines.skip(leading_blanks(lines));
    if rest.len() > 0 && delimiter(rest[0]) {
        let inner = rest.drop_first();
        let close = first_delimiter(inner);
        if close < inner.len() {
            Some((Some(join(inner.take(close))), join(inner.skip(close + 1))))
        } else {
            None
        }
    } else {
        Some((None, join(rest)))
    }
}

/// The parts of the document `source`.
pub open spec fn sections(source: Seq<char>) -> Option<(Option<Seq<char>>, Seq<char>)> {
    sections_of(lines(source))
}

/// `leading_blanks` counts exactly the blank lines before the first line that is not blank.
pub proof fn lemma_leading_blanks(lines: Seq<Seq<char>>)
    ensures
        0 <= leading_blanks(lines) <= lines.len(),
        forall|i: int| 0 <= i < leading_blanks(lines) ==> blank(#[trigger] lines[i]),
        leading_blanks(lines) < lines.len() ==> !blank(lines[leading_blanks(lines)]),
    decreases lines.len(),
{
    if lines.len() > 0 && blank(lines[0]) {
        let rest = lines.drop_first();
        lemma_leading_blanks(rest);
        assert forall|i: int| 0 <= i < leading_blanks(lines) implies blank(#[trigger] lines[i]) by {
            if i > 0 {
                assert(lines[i] == rest[i - 1]);
            }
        }
        if leading_blanks(rest) < rest.len() {
            assert(lines[leading_blanks(lines)] == rest[leading_blanks(rest)]);
        }
    }
}

/// An index with only blank lines before it, and none at it, is `leading_blanks`.
pub proof fn lemma_leading_blanks_is(lines: Seq<Seq<char>>, n: int)
    requires
        0 <= n <= lines.len(),
        forall|i: int| 0 <= i < n ==> blank(#[trigger] lines[i]),
        n < lines.len() ==> !blank(lines[n]),
    ensures
        leading_blanks(lines) == n,
{
    lemma_leading_blanks(lines);
}

/// `first_delimiter` is the least index of a delimiter line.
pub proof fn lemma_first_delimiter(lines: Seq<Seq<char>>)
    ensures
        0 <= first_delimiter(lines) <= lines.len(),
        forall|i: int| 0 <= i < first_delimiter(lines) ==> !delimiter(#[trigger] lines[i]),
        first_delimiter(lines) < lines.len() ==> delimiter(lines[first_delimiter(lines)]),
    decreases lines.len(),
{
    if lines.len() == 0 || delimiter(lines[0]) {
    } else {
        let rest = lines.drop_first();
        lemma_first_delimiter(rest);
        assert forall|i: int| 0 <= i < first_delimiter(lines) implies !delimiter(
            #[trigger] lines[i],
        ) by {
            if i > 0 {
                assert(lines[i] == rest[i - 1]);
            }
        }
        if first_delimiter(rest) < rest.len() {
            assert(lines[first_delimiter(lines)] == rest[first_delimiter(rest)]);
        }
    }
}

/// An index with no delimiter line before it, and one at it, is `first_delimiter`.
pub proof fn lemma_first_delimiter_is(lines: Seq<Seq<char>>, n: int)
    requires
        0 <= n <= lines.len(),
        forall|i: int| 0 <= i < n ==> !delimiter(#[trigger] lines[i]),
        n < lines.len() ==> delimiter(lines[n]),
    ensures
        first_delimiter(lines) == n,
{
    lemma_first_delimiter(lines);
}

/// Splits `source` into its metadata block and its body.
///
/// Blank lines before the first line that is not blank are left out. If that line is
/// a delimiter line, the lines up to the next delimiter line are the metadata and the
/// lines after it the body; the two delimiter lines belong to neither. Without a
/// second delimiter line the document is malformed. If the first line that is not
/// blank is no delimiter line, there is no metadata and the body starts with it. Each
/// line of the metadata and of the body is followed by one `\n`.
pub fn split(source: &str) -> (out: Result<Sections, MalformedFrontmatter>)
    ensures
        (match out {
            Ok(parts) => sections(source@) == Some(parts@),
            Err(_) => sections(source@) is None,
        }),
{
    let all = split_lines(source);
    let n = all.len();
    let mut start: usize = 0;
    while start < n && is_blank(all[start].as_str())
        invariant
            n == all.len(),
            start <= n,
            forall|i: int| 0 <= i < start ==> blank(#[trigger] views(all@)[i]),
        decreases n - start,
    {
        start += 1;
    }
    let ghost rest = views(all@).skip(start as int);
    proof {
        lemma_leading_blanks_is(views(all@), start as int);
    }
    if start < n && is_delimiter(all[start].as_str()) {
        let first = start + 1;
        let mut close: usize = first;
        while close < n && !is_delimiter(all[close].as_str())
            invariant
                n == all.len(),
                first <= close <= n,
                forall|i: int| first <= i < close ==> !delimiter(#[trigger] views(all@)[i]),
            decreases n - close,
        {
            close += 1;
        }
        let ghost inner = rest.drop_first();
        proof {
            assert(inner =~= views(all@).skip(first as int));
            assert forall|i: int| 0 <= i < close - first implies !delimiter(#[trigger] inner[i]) by {
                assert(inner[i] == views(all@)[first + i]);
            }
            lemma_first_delimiter_is(inner, close - first);
            assert(inner.take(close - first) =~= views(all@).subrange(first as int, close as int));
        }
        if close == n {
            return Err(MalformedFrontmatter);
        }
        let metadata = join_lines(&all, first, close);
        let body = join_lines(&all, close + 1, n);
        proof {
            assert(inner.skip(close - first + 1) =~= views(all@).subrange(close + 1, n as int));
        }
        Ok(Sections { metadata: Some(metadata), body })
    } else {
        let body = join_lines(&all, start, n);
        proof {
            assert(rest =~= views(all@).subrange(start as int, n as int));
        }
        Ok(Sections { metadata: None, body })
    }
}

/// A document whose first line that is not blank is no delimiter line, or that has
/// only blank lines, has no metadata, and its body is made of all lines from that
/// line on.
pub proof fn lemma_split_without_frontmatter(source: Seq<char>)
    requires
        ({
            let all = lines(source);
            let first = leading_blanks(all);
            first < all.len() ==> !delimiter(all[first])
        }),
    ensures
        sections(source) == Some(
            (None::<Seq<char>>, join(lines(source).skip(leading_blanks(lines(source))))),
        ),
{
    lemma_leading_blanks(lines(source));
}

/// A document is malformed exactly when its first line that is not blank is a
/// delimiter line and no line after it is one.
pub proof fn lemma_malformed(source: Seq<char>)
    ensures
        sections(source) is None <==> ({
            let all = lines(source);
            let first = leading_blanks(all);
            &&& first < all.len()
            &&& delimiter(all[first])
            &&& forall|i: int| first < i < all.len() ==> !delimiter(#[trigger] all[i])
        }),
{
    let all = lines(source);
    let first = leading_blanks(all);
    lemma_leading_blanks(all);
    let rest = all.skip(first);
    if rest.len() > 0 && delimiter(rest[0]) {
        let inner = rest.drop_first();
        lemma_first_delimiter(inner);
        let close = first_delimiter(inner);
        if close < inner.len() {
            assert(inner[close] == all[first + 1 + close]);
        } else {
            assert forall|i: int| first < i < all.len() implies !delimiter(#[trigger] all[i]) by {
                assert(all[i] == inner[i - first - 1]);
            }
        }
    }
}

/// A document of blank lines only has no metadata and an empty body.
pub proof fn lemma_split_blank_document(source: Seq<char>)
    requires
        forall|i: int| 0 <= i < lines(source).len() ==> blank(#[trigger] lines(source)[i]),
    ensures
        sections(source) == Some((None::<Seq<char>>, Seq::<char>::empty())),
{
    let all = lines(source);
    lemma_leading_blanks_is(all, all.len() as int);
    assert(all.skip(all.len() as int) =~= Seq::<Seq<char>>::empty());
}

/// The lines of a text that starts with complete lines are those lines, each without
/// a trailing carriage return, and then the lines of what follows them.
pub proof fn lemma_lines_of_joined(head: Seq<Seq<char>>, tail: Seq<char>)
    requires
        forall|i: int| 0 <= i < head.len() ==> !(#[trigger] head[i]).contains('\n'),
    ensures
        lines(join(head) + tail) == head.map_values(|line: Seq<char>| strip_cr(line)) + lines(tail),
    decreases head.len(),
{
    let stripped = head.map_values(|line: Seq<char>| strip_cr(line));
    if head.len() == 0 {
        assert(join(head) + tail =~= tail);
        assert(stripped + lines(tail) =~= lines(tail));
    } else {
        let first = head[0];
        let others = head.drop_first();
        assert(head =~= seq![first] + others);
        lemma_join_concat(seq![first], others);
        lemma_join_one(first);
        assert(join(head) + tail =~= first + seq!['\n'] + (join(others) + tail));
        lemma_lines_cons(first, join(others) + tail);
        assert forall|i: int| 0 <= i < others.len() implies !(#[trigger] others[i]).contains(
            '\n',
        ) by {
            assert(others[i] == head[i + 1]);
        }
        lemma_lines_of_joined(others, tail);
        assert(stripped =~= seq![strip_cr(first)] + others.map_values(
            |line: Seq<char>| strip_cr(line),
        ));
    }
}

/// Lines that start with blank lines, a delimiter line, lines that are no delimiter
/// lines and a second delimiter line split into the lines between the two delimiter
/// lines and the lines after the second.
pub proof fn lemma_sections_of_frontmatter(
    blanks: Seq<Seq<char>>,
    open: Seq<char>,
    metadata: Seq<Seq<char>>,
    close: Seq<char>,
    body: Seq<Seq<char>>,
)
    requires
        forall|i: int| 0 <= i < blanks.len() ==> blank(#[trigger] blanks[i]),
        delimiter(open),
        delimiter(close),
        forall|i: int| 0 <= i < metadata.len() ==> !delimiter(#[trigger] metadata[i]),
    ensures
        sections_of(blanks + seq![open] + metadata + seq![close] + body) == Some(
            (Some(join(metadata)), join(body)),
        ),
{
    let all = blanks + seq![open] + metadata + seq![close] + body;
    let first = blanks.len() as int;
    let count = metadata.len() as int;
    assert forall|i: int| 0 <= i < first implies blank(#[trigger] all[i]) by {
        assert(all[i] == blanks[i]);
    }
    assert(all[first] == open);
    assert(!blank(open)) by {
        assert(open[0] == '-');
    }
    lemma_leading_blanks_is(all, first);
    let inner = all.skip(first).drop_first();
    assert(inner =~= metadata + seq![close] + body);
    assert forall|i: int| 0 <= i < count implies !delimiter(#[trigger] inner[i]) by {
        assert(inner[i] == metadata[i]);
    }
    assert(inner[count] == close);
    lemma_first_delimiter_is(inner, count);
    assert(inner.take(count) =~= metadata);
    assert(inner.skip(count + 1) =~= body);
}

/// A delimiter line holds neither a line feed nor a carriage return.
pub proof fn lemma_delimiter_is_plain(line: Seq<char>)
    requires
        delimiter(line),
    ensures
        !line.contains('\n'),
        strip_cr(line) == line,
{
    if line.contains('\n') {
        let j = choose|j: int| 0 <= j < line.len() && line[j] == '\n';
        assert(line[j] == '-');
    }
    assert(line.last() == '-');
}

/// A document made of blank lines, a delimiter line, metadata lines, a second
/// delimiter line and a body splits into exactly those metadata lines, each followed
/// by `\n`, and the lines of the body, each followed by `\n`.
///
/// The parts are given line by line, so no line holds a `\n`. A metadata line must
/// not itself be a delimiter line, which would close the block early, and must not
/// end in a carriage return, which belongs to the line ending and is left out.
pub proof fn lemma_split_with_frontmatter(
    blanks: Seq<Seq<char>>,
    open: Seq<char>,
    metadata: Seq<Seq<char>>,
    close: Seq<char>,
    body: Seq<char>,
)
    requires
        forall|i: int|
            0 <= i < blanks.len() ==> blank(#[trigger] blanks[i]) && !blanks[i].contains('\n'),
        delimiter(open),
        delimiter(close),
        forall|i: int|
            0 <= i < metadata.len() ==> !(#[trigger] metadata[i]).contains('\n') && !delimiter(
                metadata[i],
            ) && !(metadata[i].len() > 0 && metadata[i].last() == '\r'),
    ensures
        sections(
            join(blanks) + open + seq!['\n'] + join(metadata) + close + seq!['\n'] + body,
        ) == Some((Some(join(metadata)), join(lines(body)))),
{
    let source = join(blanks) + open + seq!['\n'] + join(metadata) + close + seq!['\n'] + body;
    let strip = |line: Seq<char>| strip_cr(line);
    let head = blanks + seq![open] + metadata + seq![close];
    lemma_delimiter_is_plain(open);
    lemma_delimiter_is_plain(close);
    assert(source == join(head) + body) by {
        lemma_join_one(open);
        lemma_join_one(close);
        lemma_join_concat(blanks, seq![open]);
        lemma_join_concat(blanks + seq![open], metadata);
        lemma_join_concat(blanks + seq![open] + metadata, seq![close]);
        assert(source =~= join(head) + body);
    }
    assert forall|i: int| 0 <= i < head.len() implies !(#[trigger] head[i]).contains('\n') by {
        if i < blanks.len() {
            assert(head[i] == blanks[i]);
        } else if i == blanks.len() {
            assert(head[i] == open);
        } else if i < blanks.len() + 1 + metadata.len() {
            assert(head[i] == metadata[i - blanks.len() - 1]);
        } else {
            assert(head[i] == close);
        }
    }
    lemma_lines_of_joined(head, body);
    let stripped = blanks.map_values(strip);
    assert(head.map_values(strip) =~= stripped + seq![open] + metadata + seq![close]) by {
        assert(metadata.map_values(strip) =~= metadata);
        assert(head.map_values(strip) =~= stripped + seq![strip_cr(open)] + metadata.map_values(
            strip,
        ) + seq![strip_cr(close)]);
    }
    assert forall|i: int| 0 <= i < stripped.len() implies blank(#[trigger] stripped[i]) by {
        assert forall|j: int| 0 <= j < stripped[i].len() implies crate::chars::whitespace(
            #[trigger] stripped[i][j],
        ) by {
            assert(stripped[i][j] == blanks[i][j]);
        }
    }
    lemma_sections_of_frontmatter(stripped, open, metadata, close, lines(body));
}

} // verus!
