use pocky::shiki::{Highlight, Step, Token};

type Tok = Token<u32>;

fn fenced(language: &str) -> Tok {
    Token::FencedStart(language.to_string())
}

fn text(content: &str) -> Tok {
    Token::Text(content.to_string())
}

fn raw(markup: &str) -> Tok {
    Token::RawMarkup(markup.to_string())
}

fn emit(token: Tok) -> Step<u32> {
    Step::Emit(token)
}

fn ask(code: &str, language: &str) -> Step<u32> {
    Step::Highlight { code: code.to_string(), language: language.to_string() }
}

fn fake(code: &str, language: &str) -> String {
    format!("<pre lang=\"{}\">{}</pre>", language, code.to_uppercase())
}

/// A paragraph, a fenced block with one text token, and a paragraph.
fn document() -> Vec<Tok> {
    vec![
        Token::Other(1),
        text("before"),
        Token::Other(2),
        fenced("rust"),
        text("fn main() {}\n"),
        Token::BlockEnd,
        Token::Other(3),
        text("after"),
        Token::Other(4),
    ]
}

#[test]
fn stream_without_fenced_block_is_unchanged() {
    let tokens = || {
        vec![
            Token::Other(7),
            text("plain"),
            Token::BlockEnd,
            raw("<b>x</b>"),
            text("more"),
            Token::Other(8),
        ]
    };
    let mut calls = 0;
    let out = tokens().highlight().run(|code, language| {
        calls += 1;
        fake(code, language)
    });
    assert_eq!(out, tokens());
    assert_eq!(calls, 0);
    let steps = tokens().highlight().collect();
    assert_eq!(steps, tokens().into_iter().map(emit).collect::<Vec<_>>());
}

#[test]
fn empty_stream() {
    assert_eq!(Vec::<Tok>::new().highlight().run(fake), Vec::<Tok>::new());
    assert_eq!(Vec::<Tok>::new().highlight().collect(), Vec::<Step<u32>>::new());
    assert_eq!(Vec::<Tok>::new().highlight().next(), None);
}

#[test]
fn one_block_with_one_text_asks_once() {
    let mut calls = Vec::new();
    let out = document().highlight().run(|code, language| {
        calls.push((code.to_string(), language.to_string()));
        fake(code, language)
    });
    assert_eq!(calls, vec![("fn main() {}\n".to_string(), "rust".to_string())]);
    let mut expected = document();
    expected[4] = raw("<pre lang=\"rust\">FN MAIN() {}\n</pre>");
    assert_eq!(out, expected);
}

#[test]
fn steps_of_one_block() {
    let steps = document().highlight().collect();
    let mut expected: Vec<Step<u32>> = document().into_iter().map(emit).collect();
    expected[4] = ask("fn main() {}\n", "rust");
    assert_eq!(steps, expected);
}

#[test]
fn next_goes_token_by_token() {
    let mut parser = vec![text("a"), fenced("js"), text("b"), Token::BlockEnd, text("c")].highlight();
    assert_eq!(parser.next(), Some(emit(text("a"))));
    assert_eq!(parser.next(), Some(emit(fenced("js"))));
    assert_eq!(parser.next(), Some(ask("b", "js")));
    assert_eq!(parser.next(), Some(emit(Token::BlockEnd)));
    assert_eq!(parser.next(), Some(emit(text("c"))));
    assert_eq!(parser.next(), None);
    assert_eq!(parser.next(), None);
}

#[test]
fn each_text_in_a_block_is_asked_for() {
    let tokens = vec![fenced("py"), text("a = 1\n"), text("b = 2\n"), Token::BlockEnd];
    let mut calls = 0;
    let out = tokens.highlight().run(|code, language| {
        calls += 1;
        format!("{}:{}", language, code)
    });
    assert_eq!(calls, 2);
    assert_eq!(out, vec![fenced("py"), raw("py:a = 1\n"), raw("py:b = 2\n"), Token::BlockEnd]);
}

#[test]
fn blocks_one_after_another() {
    let tokens = vec![
        fenced("a"),
        text("x"),
        Token::BlockEnd,
        text("between"),
        fenced("b"),
        text("y"),
        Token::BlockEnd,
    ];
    let steps = tokens.highlight().collect();
    assert_eq!(
        steps,
        vec![
            emit(fenced("a")),
            ask("x", "a"),
            emit(Token::BlockEnd),
            emit(text("between")),
            emit(fenced("b")),
            ask("y", "b"),
            emit(Token::BlockEnd),
        ]
    );
}

#[test]
fn fenced_start_inside_a_block_changes_nothing() {
    let tokens = vec![fenced("outer"), fenced("inner"), text("x"), Token::BlockEnd, text("y")];
    let steps = tokens.highlight().collect();
    assert_eq!(
        steps,
        vec![
            emit(fenced("outer")),
            emit(fenced("inner")),
            ask("x", "outer"),
            emit(Token::BlockEnd),
            emit(text("y")),
        ]
    );
}

#[test]
fn block_end_outside_a_block_changes_nothing() {
    let tokens = vec![Token::BlockEnd, text("x"), fenced(""), text("y")];
    let steps = tokens.highlight().collect();
    assert_eq!(
        steps,
        vec![emit(Token::BlockEnd), emit(text("x")), emit(fenced("")), ask("y", "")]
    );
}

#[test]
fn other_tokens_in_a_block_are_emitted() {
    let tokens = vec![fenced("c"), Token::Other(9), raw("<i>"), text("int x;"), Token::BlockEnd];
    let out = tokens.highlight().run(fake);
    assert_eq!(
        out,
        vec![
            fenced("c"),
            Token::Other(9),
            raw("<i>"),
            raw("<pre lang=\"c\">INT X;</pre>"),
            Token::BlockEnd
        ]
    );
}

#[test]
fn run_goes_on_from_where_next_stopped() {
    let mut parser = vec![fenced("sh"), text("ls"), text("cd"), Token::BlockEnd].highlight();
    assert_eq!(parser.next(), Some(emit(fenced("sh"))));
    assert_eq!(parser.next(), Some(ask("ls", "sh")));
    assert_eq!(parser.run(fake), vec![raw("<pre lang=\"sh\">CD</pre>"), Token::BlockEnd]);
}

#[test]
fn unclosed_block_highlights_to_the_end() {
    let tokens = vec![fenced("x"), text("a"), Token::Other(1), text("b")];
    let steps = tokens.highlight().collect();
    assert_eq!(steps, vec![emit(fenced("x")), ask("a", "x"), emit(Token::Other(1)), ask("b", "x")]);
}
