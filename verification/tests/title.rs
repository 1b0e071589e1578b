use micromark::construct::partial_title::{start, Options};
use micromark::token::{ContentType, Event, EventType, Point, Token};
use micromark::tokenizer::{Constructs, ParseState, State, StateName, Tokenizer};

fn tokenizer(input: &str) -> Tokenizer {
    Tokenizer::new(
        Point { line: 1, column: 1, index: 0, vs: 0 },
        ParseState { constructs: Constructs::default(), bytes: input.as_bytes().to_vec() },
    )
}

fn options() -> Options {
    Options {
        title: Token::ResourceTitle,
        marker: Token::ResourceTitleMarker,
        string: Token::ResourceTitleString,
    }
}

fn run(tokenizer: &mut Tokenizer) -> State {
    match start(tokenizer, options()) {
        State::Next(next) => tokenizer.run(next),
        state => state,
    }
}

fn names(events: &[Event]) -> Vec<(EventType, Token)> {
    events.iter().map(|event| (event.event_type, event.token_type)).collect()
}

fn enter(token: Token) -> (EventType, Token) {
    (EventType::Enter, token)
}

fn exit(token: Token) -> (EventType, Token) {
    (EventType::Exit, token)
}

/// The stretches of input of the data spans in the log.
fn data(tokenizer: &Tokenizer) -> Vec<(usize, usize)> {
    let mut spans = vec![];
    let mut from = 0;
    for event in &tokenizer.events {
        if event.token_type == Token::Data {
            if event.event_type == EventType::Enter {
                from = event.point.index;
            } else {
                spans.push((from, event.point.index));
            }
        }
    }
    spans
}

#[test]
fn a_title_between_double_quotes() {
    let mut t = tokenizer("\"ab\" c");
    assert_eq!(run(&mut t), State::Okay);
    assert_eq!(t.point.index, 4);
    assert_eq!(
        names(&t.events),
        vec![
            enter(Token::ResourceTitle),
            enter(Token::ResourceTitleMarker),
            exit(Token::ResourceTitleMarker),
            enter(Token::ResourceTitleString),
            enter(Token::Data),
            exit(Token::Data),
            exit(Token::ResourceTitleString),
            enter(Token::ResourceTitleMarker),
            exit(Token::ResourceTitleMarker),
            exit(Token::ResourceTitle),
        ]
    );
    assert_eq!(data(&t), vec![(1, 3)]);
    assert_eq!(t.events[4].link.unwrap().content_type, ContentType::String);
    assert_eq!(t.events[4].link.unwrap().previous, None);
}

#[test]
fn a_title_with_each_marker() {
    for input in ["\"a\"", "'a'", "(a)"] {
        let mut t = tokenizer(input);
        assert_eq!(run(&mut t), State::Okay, "{:?}", input);
        assert_eq!(t.current, None);
    }
}

#[test]
fn markers_must_match() {
    for input in ["\"a'", "'a\"", "(a(", "(a\"", "\"a)"] {
        let mut t = tokenizer(input);
        assert_eq!(run(&mut t), State::Nok, "{:?}", input);
    }
}

#[test]
fn what_does_not_open_a_title() {
    for input in ["", "a", ")a)", " \"a\""] {
        let mut t = tokenizer(input);
        assert_eq!(start(&mut t, options()), State::Nok, "{:?}", input);
        assert!(t.events.is_empty());
    }
}

#[test]
fn an_empty_title() {
    let mut t = tokenizer("\"\"");
    assert_eq!(run(&mut t), State::Okay);
    assert_eq!(
        names(&t.events),
        vec![
            enter(Token::ResourceTitle),
            enter(Token::ResourceTitleMarker),
            exit(Token::ResourceTitleMarker),
            enter(Token::ResourceTitleMarker),
            exit(Token::ResourceTitleMarker),
            exit(Token::ResourceTitle),
        ]
    );
}

#[test]
fn an_unterminated_title_fails() {
    for input in ["\"", "\"abc", "'abc\"", "(abc", "\"abc\n", "\"abc\ndef", "\"abc\\\""] {
        let mut t = tokenizer(input);
        assert_eq!(run(&mut t), State::Nok, "{:?}", input);
    }
}

#[test]
fn a_blank_line_in_a_title_fails() {
    for input in ["\"a\n\nb\"", "\"a\n  \nb\"", "\"a\n\t\nb\"", "\"\n\n\"", "(a\n\n)"] {
        let mut t = tokenizer(input);
        assert_eq!(run(&mut t), State::Nok, "{:?}", input);
        assert!(!t.attempt(StateName::TitleStart(options())));
    }
}

#[test]
fn a_line_ending_in_a_title() {
    let mut t = tokenizer("\"a\n  b\"");
    assert_eq!(run(&mut t), State::Okay);
    assert_eq!(
        names(&t.events),
        vec![
            enter(Token::ResourceTitle),
            enter(Token::ResourceTitleMarker),
            exit(Token::ResourceTitleMarker),
            enter(Token::ResourceTitleString),
            enter(Token::Data),
            exit(Token::Data),
            enter(Token::LineEnding),
            exit(Token::LineEnding),
            enter(Token::SpaceOrTab),
            exit(Token::SpaceOrTab),
            enter(Token::Data),
            exit(Token::Data),
            exit(Token::ResourceTitleString),
            enter(Token::ResourceTitleMarker),
            exit(Token::ResourceTitleMarker),
            exit(Token::ResourceTitle),
        ]
    );
    assert_eq!(data(&t), vec![(1, 2), (5, 6)]);
    // The pieces of the string are tied together, last to first.
    assert_eq!(t.events[4].link.unwrap().previous, None);
    assert_eq!(t.events[6].link.unwrap().previous, Some(4));
    assert_eq!(t.events[8].link.unwrap().previous, Some(6));
    assert_eq!(t.events[10].link.unwrap().previous, Some(8));
}

#[test]
fn a_title_that_starts_with_a_line_ending() {
    let mut t = tokenizer("\"\na\"");
    assert_eq!(run(&mut t), State::Okay);
    assert_eq!(t.events[4].token_type, Token::LineEnding);
    assert_eq!(t.events[4].link.unwrap().previous, None);
    assert_eq!(t.events[6].token_type, Token::Data);
    assert_eq!(t.events[6].link.unwrap().previous, Some(4));
}

#[test]
fn an_escaped_closing_marker_does_not_close() {
    let mut t = tokenizer("\"a\\\"b\" c");
    assert_eq!(run(&mut t), State::Okay);
    assert_eq!(t.point.index, 6);
    assert_eq!(data(&t), vec![(1, 5)]);
}

#[test]
fn an_escaped_marker_of_another_kind_is_data() {
    let mut t = tokenizer("\"a\\'b\\)c\"");
    assert_eq!(run(&mut t), State::Okay);
    assert_eq!(data(&t), vec![(1, 8)]);
    let mut t = tokenizer("(a\\)b)");
    assert_eq!(run(&mut t), State::Okay);
    assert_eq!(data(&t), vec![(1, 5)]);
}

#[test]
fn any_other_backslash_is_literal() {
    let mut t = tokenizer("\"a\\b\"");
    assert_eq!(run(&mut t), State::Okay);
    assert_eq!(data(&t), vec![(1, 4)]);
    // A backslash before the opening paren escapes nothing.
    let mut t = tokenizer("(a\\(b)");
    assert_eq!(run(&mut t), State::Okay);
    assert_eq!(data(&t), vec![(1, 5)]);
    // The second of two backslashes is read as a backslash again, so it
    // escapes the marker after it.
    let mut t = tokenizer("\"a\\\\\" b");
    assert_eq!(run(&mut t), State::Nok);
    let mut t = tokenizer("\"a\\\\\"\"");
    assert_eq!(run(&mut t), State::Okay);
    assert_eq!(data(&t), vec![(1, 5)]);
    // A backslash before a line ending is data of its own line.
    let mut t = tokenizer("\"a\\\nb\"");
    assert_eq!(run(&mut t), State::Okay);
    assert_eq!(data(&t), vec![(1, 3), (4, 5)]);
}

#[test]
fn the_names_of_the_spans_are_configured() {
    let mut t = tokenizer("'a'");
    let options = Options {
        title: Token::DefinitionTitle,
        marker: Token::DefinitionTitleMarker,
        string: Token::DefinitionTitleString,
    };
    assert_eq!(t.run(StateName::TitleStart(options)), State::Okay);
    assert_eq!(t.events[0].token_type, Token::DefinitionTitle);
    assert_eq!(t.events[1].token_type, Token::DefinitionTitleMarker);
    assert_eq!(t.events[3].token_type, Token::DefinitionTitleString);
}
