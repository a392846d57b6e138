//! Lines of a document: how a text falls into lines, how lines are put back
//! together, and which lines are blank or delimit a metadata block.

use crate::chars::{blank, chars_of, find, find_in, is_whitespace, lemma_find, string_of};
use vstd::prelude::*;
use vstd::string::StringExecFns;

verus! {

/// A delimiter line is three or more `-` and nothing else.
pub open spec fn delimiter(line: Seq<char>) -> bool {
    line.len() >= 3 && forall|i: int| 0 <= i < line.len() ==> line[i] == '-'
}

/// `line` without one trailing carriage return, if it has one.
pub open spec fn strip_cr(line: Seq<char>) -> Seq<char> {
    if line.len() > 0 && line.last() == '\r' {
        line.drop_last()
    } else {
        line
    }
}

/// The lines of `text`. A line ends at `\n` or `\r\n`; the ending is not part of the
/// line. What follows the last line ending is a line too unless it is empty, and it
/// keeps a trailing carriage return.
pub open spec fn lines(text: Seq<char>) -> Seq<Seq<char>>
    decreases text.len(),
{
    if text.len() == 0 {
        Seq::empty()
    } else {
        let end = find(text, '\n');
        if 0 <= end < text.len() {
            seq![strip_cr(text.take(end))] + lines(text.skip(end + 1))
        } else {
            seq![text]
        }
    }
}

/// The text in which each of `lines` is followed by one `\n`.
pub open spec fn join(lines: Seq<Seq<char>>) -> Seq<char>
    decreases lines.len(),
{
    if lines.len() == 0 {
        Seq::empty()
    } else {
        join(lines.drop_last()) + lines.last() + seq!['\n']
    }
}

/// The views of a vector of strings.
pub open spec fn views(lines: Seq<String>) -> Seq<Seq<char>> {
    lines.map_values(|line: String| line@)
}

/// One line joins to the line and its `\n`.
pub proof fn lemma_join_one(line: Seq<char>)
    ensures
        join(seq![line]) == line + seq!['\n'],
{
    reveal_with_fuel(join, 2);
    assert(seq![line].drop_last() =~= Seq::<Seq<char>>::empty());
    assert(join(seq![line]) =~= line + seq!['\n']);
}

/// Joining splits over concatenation.
pub proof fn lemma_join_concat(a: Seq<Seq<char>>, b: Seq<Seq<char>>)
    ensures
        join(a + b) == join(a) + join(b),
    decreases b.len(),
{
    if b.len() == 0 {
        assert(a + b =~= a);
        assert(join(a) + join(b) =~= join(a));
    } else {
        lemma_join_concat(a, b.drop_last());
        assert((a + b).drop_last() =~= a + b.drop_last());
        assert((a + b).last() == b.last());
        assert(join(a + b) =~= join(a) + join(b));
    }
}

/// A text that starts with a line and its `\n` has that line first, with a trailing
/// carriage return taken off, and then the lines of the rest.
pub proof fn lemma_lines_cons(line: Seq<char>, rest: Seq<char>)
    requires
        !line.contains('\n'),
    ensures
        lines(line + seq!['\n'] + rest) == seq![strip_cr(line)] + lines(rest),
{
    let text = line + seq!['\n'] + rest;
    assert forall|j: int| 0 <= j < line.len() implies text[j] != '\n' by {
        assert(text[j] == line[j]);
        assert(line.contains(line[j]));
    }
    assert(text[line.len() as int] == '\n');
    crate::chars::lemma_find_is(text, '\n', line.len() as int);
    assert(text.take(line.len() as int) =~= line);
    assert(text.skip(line.len() as int + 1) =~= rest);
}

/// Splitting and joining gives the text back where every line of it ends in `\n` and
/// no line ending has a carriage return.
pub proof fn lemma_join_restores(text: Seq<char>)
    requires
        text.len() > 0 ==> text.last() == '\n',
        forall|i: int| 0 <= i < text.len() - 1 && #[trigger] text[i] == '\r' ==> text[i + 1] != '\n',
    ensures
        join(lines(text)) == text,
    decreases text.len(),
{
    if text.len() > 0 {
        let end = find(text, '\n');
        lemma_find(text, '\n');
        assert(text.contains(text.last()));
        let line = text.take(end);
        let rest = text.skip(end + 1);
        assert(strip_cr(line) == line) by {
            if end > 0 {
                assert(line.last() == text[end - 1]);
            }
        }
        assert forall|i: int| 0 <= i < rest.len() - 1 && #[trigger] rest[i] == '\r' implies rest[i
            + 1] != '\n' by {
            assert(rest[i] == text[end + 1 + i]);
            assert(rest[i + 1] == text[end + 2 + i]);
        }
        if rest.len() > 0 {
            assert(rest.last() == text.last());
        }
        lemma_join_restores(rest);
        lemma_join_concat(seq![line], lines(rest));
        lemma_join_one(line);
        assert(line + seq!['\n'] + rest =~= text);
    }
}

/// Whether `line` is a delimiter line.
pub fn is_delimiter(line: &str) -> (b: bool)
    ensures
        b == delimiter(line@),
{
    let mut count: usize = 0;
    let mut dashes = true;
    for c in it: line.chars()
        invariant
            it.seq() == line@,
            count == (if it.index() < 3 { it.index() } else { 3 }),
            dashes == (forall|i: int| 0 <= i < it.index() ==> line@[i] == '-'),
    {
        if c != '-' {
            dashes = false;
        }
        if count < 3 {
            count += 1;
        }
    }
    dashes && count >= 3
}

/// Whether `line` holds nothing but white space.
pub fn is_blank(line: &str) -> (b: bool)
    ensures
        b == blank(line@),
{
    let mut all = true;
    for c in it: line.chars()
        invariant
            it.seq() == line@,
            all == (forall|i: int| 0 <= i < it.index() ==> crate::chars::whitespace(line@[i])),
    {
        if !is_whitespace(c) {
            all = false;
        }
    }
    all
}

/// Splits `text` into its lines.
pub fn split_lines(text: &str) -> (out: Vec<String>)
    ensures
        views(out@) == lines(text@),
{
    let chars = chars_of(text);
    let n = chars.len();
    let mut out: Vec<String> = Vec::new();
    let mut pos: usize = 0;
    proof {
        assert(chars@.skip(0) =~= chars@);
        assert(views(out@) + lines(chars@) =~= lines(chars@));
    }
    while pos < n
        invariant
            n == chars.len(),
            pos <= n,
            lines(chars@) == views(out@) + lines(chars@.skip(pos as int)),
        decreases n - pos,
    {
        let ghost rest = chars@.skip(pos as int);
        let end = find_in(&chars, pos, n, '\n');
        proof {
            assert(chars@.subrange(pos as int, n as int) =~= rest);
            lemma_find(rest, '\n');
        }
        let mut stop = end;
        if end < n && end > pos && chars[end - 1] == '\r' {
            stop = end - 1;
        }
        let line = string_of(&chars, pos, stop);
        let ghost before = views(out@);
        out.push(line);
        proof {
            assert(views(out@) =~= before + seq![line@]);
            if end < n {
                assert(rest.take(end - pos) =~= chars@.subrange(pos as int, end as int));
                assert(line@ =~= strip_cr(rest.take(end - pos)));
                assert(rest.skip(end - pos + 1) =~= chars@.skip(end + 1));
            } else {
                assert(line@ =~= rest);
                assert(chars@.skip(n as int) =~= Seq::<char>::empty());
                assert(lines(chars@.skip(n as int)) =~= Seq::<Seq<char>>::empty());
            }
        }
        pos = if end < n {
            end + 1
        } else {
            n
        };
    }
    proof {
        assert(chars@.skip(n as int) =~= Seq::<char>::empty());
        assert(views(out@) + lines(chars@.skip(n as int)) =~= views(out@));
    }
    out
}

/// Puts `lines[from..to]` back together, each followed by one `\n`.
pub(crate) fn join_lines(lines: &Vec<String>, from: usize, to: usize) -> (text: String)
    requires
        from <= to <= lines.len(),
    ensures
        text@ == join(views(lines@).subrange(from as int, to as int)),
{
    let mut text = String::new();
    let mut i: usize = from;
    proof {
        reveal_strlit("\n");
        assert("\n"@ =~= seq!['\n']);
    }
    while i < to
        invariant
            from <= i <= to <= lines.len(),
            "\n"@ == seq!['\n'],
            text@ == join(views(lines@).subrange(from as int, i as int)),
        decreases to - i,
    {
        text.append(lines[i].as_str());
        text.append("\n");
        i += 1;
        proof {
            let done = views(lines@).subrange(from as int, i as int);
            assert(done.drop_last() =~= views(lines@).subrange(from as int, i - 1));
            assert(done.last() == lines@[i - 1]@);
        }
    }
    text
}

} // verus!
