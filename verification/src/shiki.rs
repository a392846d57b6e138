//! The highlight transform: a pass over a stream of markup tokens that finds the text
//! inside fenced code blocks, which is to be replaced by highlighted markup.
//!
//! The transform decides; it does not highlight. For each token it says either that
//! the token is to be emitted as it is, or that the highlight service is to be asked
//! for the markup of a piece of code in a language, which is then emitted as raw
//! markup in place of the token. Whoever drives the transform asks the service, step
//! by step, or hands the service over as a function and lets `run` drive.

use std::collections::VecDeque;
use vstd::prelude::*;

verus! {

/// A token of a markup stream, as far as the transform looks at it.
#[derive(Debug, PartialEq, Eq)]
pub enum Token<T> {
    /// The start of a fenced code block, with the language it is tagged with.
    FencedStart(String),
    /// The end of a code block.
    BlockEnd,
    /// A run of text.
    Text(String),
    /// Markup that is passed on as it is.
    RawMarkup(String),
    /// Any other token.
    Other(T),
}

/// Where the transform is in the stream.
#[derive(Debug, PartialEq, Eq)]
pub enum CodeBlockState {
    /// Not in a fenced code block.
    Outside,
    /// In a fenced code block tagged with this language.
    InsideBlock(String),
}

/// What is to be done for one token of the stream.
#[derive(Debug, PartialEq, Eq)]
pub enum Step<T> {
    /// Emit the token as it is.
    Emit(Token<T>),
    /// Ask the highlight service for the markup of `code` in `language`, and emit that
    /// as raw markup in place of the token.
    Highlight { code: String, language: String },
}

impl CodeBlockState {
    /// The state after `token`. A fenced start outside a block enters a block, a block
    /// end inside a block leaves it, and nothing else changes the state.
    pub open spec fn after<T>(self, token: Token<T>) -> CodeBlockState {
        match (self, token) {
            (CodeBlockState::Outside, Token::FencedStart(language)) => CodeBlockState::InsideBlock(
                language,
            ),
            (CodeBlockState::InsideBlock(_), Token::BlockEnd) => CodeBlockState::Outside,
            _ => self,
        }
    }

    /// The step for `token` in this state. Text inside a block is to be highlighted in
    /// the language of the block, and every other token is emitted as it is.
    pub open spec fn step<T>(self, token: Token<T>) -> Step<T> {
        match (self, token) {
            (CodeBlockState::InsideBlock(language), Token::Text(code)) => Step::Highlight {
                code,
                language,
            },
            _ => Step::Emit(token),
        }
    }
}

/// The state after all of `tokens`, starting in `state`.
pub open spec fn state_after<T>(state: CodeBlockState, tokens: Seq<Token<T>>) -> CodeBlockState
    decreases tokens.len(),
{
    if tokens.len() == 0 {
        state
    } else {
        state_after(state, tokens.drop_last()).after(tokens.last())
    }
}

/// The steps for `tokens`, one for each token and in their order, starting in `state`.
pub open spec fn steps_from<T>(state: CodeBlockState, tokens: Seq<Token<T>>) -> Seq<Step<T>> {
    Seq::new(tokens.len(), |i: int| state_after(state, tokens.take(i)).step(tokens[i]))
}

/// Whether `service` can be asked for what `step` asks for, if it asks for anything.
pub open spec fn can_ask<T, F: FnMut(&str, &str) -> String>(service: F, step: Step<T>) -> bool {
    step matches Step::Highlight { code, language } ==> forall|
        asked_code: &str,
        asked_language: &str,
    |
        asked_code@ == code@ && asked_language@ == language@ ==> #[trigger] call_requires(
            service,
            (asked_code, asked_language),
        )
}

/// Whether `markup` is an answer of `service` when asked for `code` in `language`.
pub open spec fn answers<F: FnMut(&str, &str) -> String>(
    service: F,
    code: Seq<char>,
    language: Seq<char>,
    markup: String,
) -> bool {
    exists|asked_code: &str, asked_language: &str|
        {
            &&& asked_code@ == code
            &&& asked_language@ == language
            &&& #[trigger] call_ensures(service, (asked_code, asked_language), markup)
        }
}

/// Whether `out` is what `step` emits when `service` is asked: the token of the step
/// as it is, or the markup that the service returns for the code and the language of
/// the step, as raw markup.
pub open spec fn emits<T, F: FnMut(&str, &str) -> String>(
    service: F,
    step: Step<T>,
    out: Token<T>,
) -> bool {
    match step {
        Step::Emit(token) => out == token,
        Step::Highlight { code, language } => out matches Token::RawMarkup(markup) && answers(
            service,
            code@,
            language@,
            markup,
        ),
    }
}

/// The steps for a whole stream: those from the state outside any block.
pub open spec fn steps<T>(tokens: Seq<Token<T>>) -> Seq<Step<T>> {
    steps_from(CodeBlockState::Outside, tokens)
}

/// The state after a token and then more tokens is the state after all of them.
pub proof fn lemma_state_after_first<T>(state: CodeBlockState, tokens: Seq<Token<T>>)
    requires
        tokens.len() > 0,
    ensures
        state_after(state, tokens) == state_after(state.after(tokens[0]), tokens.drop_first()),
    decreases tokens.len(),
{
    let rest = tokens.drop_first();
    if tokens.len() == 1 {
        assert(tokens.drop_last() =~= Seq::<Token<T>>::empty());
        assert(state_after(state, tokens.drop_last()) == state);
        assert(rest =~= Seq::<Token<T>>::empty());
    } else {
        lemma_state_after_first(state, tokens.drop_last());
        assert(tokens.drop_last().drop_first() =~= rest.drop_last());
        assert(tokens.drop_last()[0] == tokens[0]);
        assert(rest.last() == tokens.last());
    }
}

/// The steps for a stream are the step for its first token and then the steps for
/// the rest, from the state after the first token.
pub proof fn lemma_steps_first<T>(state: CodeBlockState, tokens: Seq<Token<T>>)
    requires
        tokens.len() > 0,
    ensures
        steps_from(state, tokens) == seq![state.step(tokens[0])] + steps_from(
            state.after(tokens[0]),
            tokens.drop_first(),
        ),
{
    let rest = tokens.drop_first();
    let left = steps_from(state, tokens);
    let right = seq![state.step(tokens[0])] + steps_from(state.after(tokens[0]), rest);
    assert(left.len() == right.len());
    assert forall|i: int| 0 <= i < left.len() implies left[i] == right[i] by {
        if i == 0 {
            assert(tokens.take(0) =~= Seq::<Token<T>>::empty());
        } else {
            lemma_state_after_first(state, tokens.take(i));
            assert(tokens.take(i).drop_first() =~= rest.take(i - 1));
            assert(tokens.take(i)[0] == tokens[0]);
            assert(rest[i - 1] == tokens[i]);
        }
    }
    assert(left =~= right);
}

/// Outside a block, tokens that start no fenced block leave the transform outside.
pub proof fn lemma_stays_outside<T>(tokens: Seq<Token<T>>, from: int, to: int)
    requires
        0 <= from <= to <= tokens.len(),
        state_after(CodeBlockState::Outside, tokens.take(from)) == CodeBlockState::Outside,
        forall|i: int| from <= i < to ==> !(#[trigger] tokens[i] is FencedStart),
    ensures
        state_after(CodeBlockState::Outside, tokens.take(to)) == CodeBlockState::Outside,
    decreases to - from,
{
    if from < to {
        lemma_stays_outside(tokens, from, to - 1);
        assert(tokens.take(to).drop_last() =~= tokens.take(to - 1));
        assert(tokens.take(to).last() == tokens[to - 1]);
    }
}

/// Inside a block, tokens that end no block leave the transform in that block.
pub proof fn lemma_stays_inside<T>(tokens: Seq<Token<T>>, from: int, to: int, language: String)
    requires
        0 <= from <= to <= tokens.len(),
        state_after(CodeBlockState::Outside, tokens.take(from)) == CodeBlockState::InsideBlock(
            language,
        ),
        forall|i: int| from <= i < to ==> !(#[trigger] tokens[i] is BlockEnd),
    ensures
        state_after(CodeBlockState::Outside, tokens.take(to)) == CodeBlockState::InsideBlock(
            language,
        ),
    decreases to - from,
{
    if from < to {
        lemma_stays_inside(tokens, from, to - 1, language);
        assert(tokens.take(to).drop_last() =~= tokens.take(to - 1));
        assert(tokens.take(to).last() == tokens[to - 1]);
    }
}

/// Identity: over a stream without the start of a fenced block, every token is
/// emitted as it is, in the order of the stream, and the service is never asked.
pub proof fn lemma_without_fenced_block<T>(tokens: Seq<Token<T>>)
    requires
        forall|i: int| 0 <= i < tokens.len() ==> !(#[trigger] tokens[i] is FencedStart),
    ensures
        steps(tokens) == tokens.map_values(|token: Token<T>| Step::Emit(token)),
{
    let emitted = tokens.map_values(|token: Token<T>| Step::Emit(token));
    assert forall|i: int| 0 <= i < tokens.len() implies steps(tokens)[i] == emitted[i] by {
        assert(tokens.take(0) =~= Seq::<Token<T>>::empty());
        lemma_stays_outside(tokens, 0, i);
    }
    assert(steps(tokens) =~= emitted);
}

/// One call: over a stream with one fenced block, which holds one text token, the
/// service is asked once, for the code of that token in the language of the block.
/// The markup takes the place of the text token; every other token, before, in and
/// after the block, is emitted as it is, in the order of the stream.
///
/// The block starts at `start` and ends at `end`, the first block end after `start`;
/// `text` is the one text token between them.
pub proof fn lemma_single_fenced_block<T>(
    tokens: Seq<Token<T>>,
    start: int,
    text: int,
    end: int,
    language: String,
    code: String,
)
    requires
        0 <= start < text < end < tokens.len(),
        tokens[start] == Token::<T>::FencedStart(language),
        tokens[text] == Token::<T>::Text(code),
        tokens[end] is BlockEnd,
        forall|i: int| 0 <= i < tokens.len() && i != start ==> !(#[trigger] tokens[i] is FencedStart),
        forall|i: int| start < i < end ==> !(#[trigger] tokens[i] is BlockEnd),
        forall|i: int| start < i < end && i != text ==> !(#[trigger] tokens[i] is Text),
    ensures
        steps(tokens).len() == tokens.len(),
        steps(tokens)[text] == (Step::<T>::Highlight { code, language }),
        forall|i: int|
            0 <= i < tokens.len() && i != text ==> #[trigger] steps(tokens)[i] == Step::Emit(
                tokens[i],
            ),
{
    let outside = CodeBlockState::Outside;
    let inside = CodeBlockState::InsideBlock(language);
    assert(tokens.take(0) =~= Seq::<Token<T>>::empty());
    lemma_stays_outside(tokens, 0, start);
    assert(state_after(outside, tokens.take(start + 1)) == inside) by {
        assert(tokens.take(start + 1).drop_last() =~= tokens.take(start));
        assert(tokens.take(start + 1).last() == tokens[start]);
    }
    lemma_stays_inside(tokens, start + 1, end, language);
    assert(state_after(outside, tokens.take(end + 1)) == outside) by {
        assert(tokens.take(end + 1).drop_last() =~= tokens.take(end));
        assert(tokens.take(end + 1).last() == tokens[end]);
    }
    lemma_stays_inside(tokens, start + 1, text, language);
    assert forall|i: int| 0 <= i < tokens.len() && i != text implies #[trigger] steps(tokens)[i]
        == Step::Emit(tokens[i]) by {
        if i <= start {
            lemma_stays_outside(tokens, 0, i);
        } else if i <= end {
            lemma_stays_inside(tokens, start + 1, i, language);
        } else {
            lemma_stays_outside(tokens, end + 1, i);
        }
    }
}

/// Identity: what is emitted for a stream without the start of a fenced block is the
/// stream itself, token for token, whatever the service.
pub proof fn lemma_emits_stream_without_fenced_block<T, F: FnMut(&str, &str) -> String>(
    service: F,
    tokens: Seq<Token<T>>,
    out: Seq<Token<T>>,
)
    requires
        forall|i: int| 0 <= i < tokens.len() ==> !(#[trigger] tokens[i] is FencedStart),
        out.len() == tokens.len(),
        forall|i: int| 0 <= i < out.len() ==> emits(service, steps(tokens)[i], #[trigger] out[i]),
    ensures
        out == tokens,
{
    lemma_without_fenced_block(tokens);
    assert(out =~= tokens);
}

/// One call: what is emitted for a stream with one fenced block, which holds one text
/// token, is the stream with an answer of the service, for the code of that token in
/// the language of the block, in the place of the text token.
pub proof fn lemma_emits_single_fenced_block<T, F: FnMut(&str, &str) -> String>(
    service: F,
    tokens: Seq<Token<T>>,
    out: Seq<Token<T>>,
    start: int,
    text: int,
    end: int,
    language: String,
    code: String,
)
    requires
        0 <= start < text < end < tokens.len(),
        tokens[start] == Token::<T>::FencedStart(language),
        tokens[text] == Token::<T>::Text(code),
        tokens[end] is BlockEnd,
        forall|i: int| 0 <= i < tokens.len() && i != start ==> !(#[trigger] tokens[i] is FencedStart),
        forall|i: int| start < i < end ==> !(#[trigger] tokens[i] is BlockEnd),
        forall|i: int| start < i < end && i != text ==> !(#[trigger] tokens[i] is Text),
        out.len() == tokens.len(),
        forall|i: int| 0 <= i < out.len() ==> emits(service, steps(tokens)[i], #[trigger] out[i]),
    ensures
        out[text] matches Token::RawMarkup(markup) && answers(service, code@, language@, markup),
        forall|i: int| 0 <= i < tokens.len() && i != text ==> #[trigger] out[i] == tokens[i],
{
    lemma_single_fenced_block(tokens, start, text, end, language, code);
    assert(emits(service, steps(tokens)[text], out[text]));
    assert forall|i: int| 0 <= i < tokens.len() && i != text implies #[trigger] out[i]
        == tokens[i] by {
        assert(emits(service, steps(tokens)[i], out[i]));
    }
}

/// The transform over a stream of tokens.
pub struct ShikiHighlighterParser<T> {
    state: CodeBlockState,
    tokens: VecDeque<Token<T>>,
}

/// A stream of tokens that the transform can run over.
pub trait Highlight<T> {
    /// The transform over this stream, before its first token.
    fn highlight(self) -> ShikiHighlighterParser<T>;
}

impl<T> Highlight<T> for Vec<Token<T>> {
    fn highlight(self) -> (parser: ShikiHighlighterParser<T>)
        ensures
            parser.state() == CodeBlockState::Outside,
            parser.remaining() == self@,
    {
        let mut tokens: VecDeque<Token<T>> = VecDeque::new();
        for token in it: self
            invariant
                it.seq() == self@,
                tokens@ == self@.take(it.index()),
        {
            tokens.push_back(token);
            proof {
                assert(self@.take(it.index() + 1) =~= self@.take(it.index()).push(self@[it.index()]));
            }
        }
        proof {
            assert(self@.take(self@.len() as int) =~= self@);
        }
        ShikiHighlighterParser { state: CodeBlockState::Outside, tokens }
    }
}

impl<T> ShikiHighlighterParser<T> {
    /// The state before the next token.
    pub closed spec fn state(&self) -> CodeBlockState {
        self.state
    }

    /// The tokens that are still to come.
    pub closed spec fn remaining(&self) -> Seq<Token<T>> {
        self.tokens@
    }

    /// Takes the next token off the stream and says what is to be done for it; `None`
    /// at the end of the stream.
    pub fn next(&mut self) -> (step: Option<Step<T>>)
        ensures
            (match step {
                Some(step) => {
                    &&& old(self).remaining().len() > 0
                    &&& step == old(self).state().step(old(self).remaining()[0])
                    &&& final(self).state() == old(self).state().after(old(self).remaining()[0])
                    &&& final(self).remaining() == old(self).remaining().drop_first()
                },
                None => {
                    &&& old(self).remaining().len() == 0
                    &&& final(self).state() == old(self).state()
                    &&& final(self).remaining() == old(self).remaining()
                },
            }),
    {
        let token = match self.tokens.pop_front() {
            Some(token) => token,
            None => {
                return None;
            },
        };
        proof {
            assert(old(self).tokens@.subrange(1, old(self).tokens@.len() as int) =~= old(
                self,
            ).tokens@.drop_first());
        }
        match token {
            Token::FencedStart(language) => {
                if let CodeBlockState::Outside = &self.state {
                    self.state = CodeBlockState::InsideBlock(language.clone());
                }
                Some(Step::Emit(Token::FencedStart(language)))
            },
            Token::BlockEnd => {
                if let CodeBlockState::InsideBlock(_) = &self.state {
                    self.state = CodeBlockState::Outside;
                }
                Some(Step::Emit(Token::BlockEnd))
            },
            Token::Text(code) => match &self.state {
                CodeBlockState::InsideBlock(language) => Some(
                    Step::Highlight { code, language: language.clone() },
                ),
                CodeBlockState::Outside => Some(Step::Emit(Token::Text(code))),
            },
            Token::RawMarkup(markup) => Some(Step::Emit(Token::RawMarkup(markup))),
            Token::Other(other) => Some(Step::Emit(Token::Other(other))),
        }
    }

    /// Runs the transform to the end of the stream and collects the steps.
    pub fn collect(self) -> (out: Vec<Step<T>>)
        ensures
            out@ == steps_from(self.state(), self.remaining()),
    {
        let mut parser = self;
        let mut out: Vec<Step<T>> = Vec::new();
        proof {
            assert(out@ + steps_from(parser.state(), parser.remaining()) =~= steps_from(
                self.state(),
                self.remaining(),
            ));
        }
        loop
            invariant
                out@ + steps_from(parser.state(), parser.remaining()) == steps_from(
                    self.state(),
                    self.remaining(),
                ),
            ensures
                out@ == steps_from(self.state(), self.remaining()),
            decreases parser.remaining().len(),
        {
            let ghost state = parser.state();
            let ghost remaining = parser.remaining();
            let ghost before = out@;
            match parser.next() {
                Some(step) => {
                    out.push(step);
                    proof {
                        lemma_steps_first(state, remaining);
                        assert(out@ + steps_from(parser.state(), parser.remaining()) =~= before
                            + steps_from(state, remaining));
                    }
                },
                None => {
                    proof {
                        assert(out@ + steps_from(state, remaining) =~= out@);
                    }
                    break ;
                },
            }
        }
        out
    }

    /// Runs the transform to the end of the stream, asking `service` for the markup of
    /// each piece of code that is to be highlighted, and collects what is emitted.
    ///
    /// One token comes out for each token that is left in the stream. `service` is
    /// asked once for each step that asks for markup, in the order of the stream, and
    /// for nothing else.
    pub fn run<F>(self, service: F) -> (out: Vec<Token<T>>) where F: FnMut(&str, &str) -> String
        requires
            forall|i: int|
                0 <= i < self.remaining().len() ==> can_ask(
                    service,
                    #[trigger] steps_from(self.state(), self.remaining())[i],
                ),
        ensures
            out@.len() == self.remaining().len(),
            forall|i: int|
                0 <= i < out@.len() ==> emits(
                    service,
                    steps_from(self.state(), self.remaining())[i],
                    #[trigger] out@[i],
                ),
    {
        let mut parser = self;
        let mut ask = service;
        let mut out: Vec<Token<T>> = Vec::new();
        let ghost all = steps_from(self.state(), self.remaining());
        proof {
            assert(Seq::<Step<T>>::empty() + all =~= all);
        }
        let ghost mut done: Seq<Step<T>> = Seq::empty();
        loop
            invariant
                ask == service,
                forall|i: int| 0 <= i < all.len() ==> can_ask(service, #[trigger] all[i]),
                all == steps_from(self.state(), self.remaining()),
                done + steps_from(parser.state(), parser.remaining()) == all,
                out@.len() == done.len(),
                forall|i: int| 0 <= i < out@.len() ==> emits(service, done[i], #[trigger] out@[i]),
            ensures
                done == all,
                out@.len() == done.len(),
                forall|i: int| 0 <= i < out@.len() ==> emits(service, done[i], #[trigger] out@[i]),
            decreases parser.remaining().len(),
        {
            let ghost state = parser.state();
            let ghost remaining = parser.remaining();
            let ghost before = done;
            let ghost emitted = out@;
            match parser.next() {
                Some(step) => {
                    proof {
                        lemma_steps_first(state, remaining);
                        assert(all[done.len() as int] == step);
                        assert(can_ask(service, all[done.len() as int]));
                    }
                    let token = match step {
                        Step::Emit(token) => token,
                        Step::Highlight { code, language } => {
                            let asked_code = code.as_str();
                            let asked_language = language.as_str();
                            let markup = ask(asked_code, asked_language);
                            proof {
                                assert(call_ensures(service, (asked_code, asked_language), markup));
                                assert(answers(service, code@, language@, markup));
                            }
                            Token::RawMarkup(markup)
                        },
                    };
                    out.push(token);
                    proof {
                        done = done.push(step);
                        assert(done + steps_from(parser.state(), parser.remaining()) =~= before
                            + steps_from(state, remaining));
                        assert(emits(service, step, token));
                        assert forall|i: int| 0 <= i < out@.len() implies emits(
                            service,
                            done[i],
                            #[trigger] out@[i],
                        ) by {
                            if i < emitted.len() {
                                assert(out@[i] == emitted[i]);
                                assert(done[i] == before[i]);
                            }
                        }
                    }
                },
                None => {
                    proof {
                        assert(done + steps_from(state, remaining) =~= done);
                    }
                    break ;
                },
            }
        }
        out
    }
}

} // verus!
