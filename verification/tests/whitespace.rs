use micromark::construct::partial_space_or_tab::{
    space_or_tab, space_or_tab_eol, space_or_tab_eol_with_options, space_or_tab_min_max,
    space_or_tab_with_options, EolOptions, Options,
};
use micromark::token::{ContentType, Event, EventType, Point, Token};
use micromark::tokenizer::{Constructs, ParseState, State, StateName, Tokenizer};

fn tokenizer(input: &str) -> Tokenizer {
    Tokenizer::new(
        Point { line: 1, column: 1, index: 0, vs: 0 },
        ParseState { constructs: Constructs::default(), bytes: input.as_bytes().to_vec() },
    )
}

fn names(events: &[Event]) -> Vec<(EventType, Token)> {
    events.iter().map(|event| (event.event_type, event.token_type)).collect()
}

#[test]
fn space_or_tab_takes_the_whole_run() {
    let mut t = tokenizer(" \t a");
    assert_eq!(t.run(space_or_tab()), State::Okay);
    assert_eq!(t.current, Some(b'a'));
    assert_eq!(t.point.index, 3);
    assert_eq!(names(&t.events), vec![(EventType::Enter, Token::SpaceOrTab), (EventType::Exit, Token::SpaceOrTab)]);
    assert_eq!(t.events[0].point.index, 0);
    assert_eq!(t.events[1].point.index, 3);
}

#[test]
fn space_or_tab_needs_one() {
    let mut t = tokenizer("a");
    assert_eq!(t.run(space_or_tab()), State::Nok);
    assert!(t.events.is_empty());
}

#[test]
fn space_or_tab_min_max_stops_at_max() {
    let mut t = tokenizer("     a");
    assert_eq!(t.run(space_or_tab_min_max(1, 4)), State::Okay);
    assert_eq!(t.point.index, 4);
    assert_eq!(t.current, Some(b' '));
}

#[test]
fn space_or_tab_min_max_fails_below_min() {
    let mut t = tokenizer("  a");
    assert_eq!(t.run(space_or_tab_min_max(3, 3)), State::Nok);
    // The span was opened and closed all the same.
    assert_eq!(t.events.len(), 2);
}

#[test]
fn space_or_tab_min_max_emits_nothing_for_nothing() {
    let mut t = tokenizer("a");
    assert_eq!(t.run(space_or_tab_min_max(0, 4)), State::Okay);
    assert!(t.events.is_empty());
    let mut t = tokenizer("  a");
    assert_eq!(t.run(space_or_tab_min_max(0, 0)), State::Okay);
    assert!(t.events.is_empty());
    assert_eq!(t.point.index, 0);
}

#[test]
fn space_or_tab_counts_the_columns_of_a_tab() {
    let mut t = tokenizer("\ta");
    assert_eq!(t.run(space_or_tab_min_max(0, 2)), State::Okay);
    assert_eq!(t.point, Point { line: 1, column: 3, index: 0, vs: 2 });
    assert_eq!(t.current, Some(b' '));
}

#[test]
fn space_or_tab_with_options_names_and_tags_the_span() {
    let mut t = tokenizer(" a");
    let options = Options {
        min: 1,
        max: 1,
        kind: Token::BlockQuotePrefix,
        content_type: Some(ContentType::String),
        connect: false,
    };
    assert_eq!(t.run(space_or_tab_with_options(options)), State::Okay);
    assert_eq!(t.events[0].token_type, Token::BlockQuotePrefix);
    assert_eq!(t.events[0].link.unwrap().content_type, ContentType::String);
}

#[test]
fn eol_takes_whitespace_alone() {
    let mut t = tokenizer("  a");
    assert_eq!(t.run(space_or_tab_eol()), State::Okay);
    assert_eq!(t.current, Some(b'a'));
    assert_eq!(names(&t.events), vec![(EventType::Enter, Token::SpaceOrTab), (EventType::Exit, Token::SpaceOrTab)]);
}

#[test]
fn eol_takes_one_line_ending_with_whitespace_around_it() {
    let mut t = tokenizer(" \n\tb");
    assert_eq!(t.run(space_or_tab_eol()), State::Okay);
    assert_eq!(t.current, Some(b'b'));
    assert_eq!(
        names(&t.events),
        vec![
            (EventType::Enter, Token::SpaceOrTab),
            (EventType::Exit, Token::SpaceOrTab),
            (EventType::Enter, Token::LineEnding),
            (EventType::Exit, Token::LineEnding),
            (EventType::Enter, Token::SpaceOrTab),
            (EventType::Exit, Token::SpaceOrTab),
        ]
    );
}

#[test]
fn eol_fails_on_nothing() {
    let mut t = tokenizer("a");
    assert_eq!(t.run(space_or_tab_eol()), State::Nok);
    assert!(t.events.is_empty());
}

#[test]
fn eol_fails_on_two_line_endings() {
    let mut t = tokenizer("\n\na");
    assert_eq!(t.run(space_or_tab_eol()), State::Nok);
    let mut t = tokenizer("\n  \na");
    assert_eq!(t.run(space_or_tab_eol()), State::Nok);
    let mut t = tokenizer("\n");
    assert_eq!(t.run(space_or_tab_eol()), State::Nok);
}

#[test]
fn eol_ties_its_spans_when_asked() {
    let mut t = tokenizer("a \n b");
    t.enter_with_content(Token::Data, Some(ContentType::String));
    t.consume();
    t.exit(Token::Data);
    let options = EolOptions { content_type: Some(ContentType::String), connect: true };
    assert_eq!(t.run(space_or_tab_eol_with_options(options)), State::Okay);
    assert_eq!(t.events[2].token_type, Token::SpaceOrTab);
    assert_eq!(t.events[2].link.unwrap().previous, Some(0));
    assert_eq!(t.events[4].token_type, Token::LineEnding);
    assert_eq!(t.events[4].link.unwrap().previous, Some(2));
    assert_eq!(t.events[6].token_type, Token::SpaceOrTab);
    assert_eq!(t.events[6].link.unwrap().previous, Some(4));
}

#[test]
fn eol_does_not_tie_its_first_span_unless_asked() {
    let mut t = tokenizer("a\n b");
    t.enter_with_content(Token::Data, Some(ContentType::String));
    t.consume();
    t.exit(Token::Data);
    let options = EolOptions { content_type: Some(ContentType::String), connect: false };
    assert_eq!(t.run(space_or_tab_eol_with_options(options)), State::Okay);
    assert_eq!(t.events[2].token_type, Token::LineEnding);
    assert_eq!(t.events[2].link.unwrap().previous, None);
    assert_eq!(t.events[4].link.unwrap().previous, Some(2));
}

#[test]
fn blank_line_matches_whitespace_up_to_the_end_of_the_line() {
    for (input, expected) in [("", State::Okay), ("  ", State::Okay), (" \t\na", State::Okay), (" a", State::Nok), ("a", State::Nok)] {
        let mut t = tokenizer(input);
        assert_eq!(t.run(StateName::BlankLineStart), expected, "{:?}", input);
    }
}

#[test]
fn thematic_break_needs_three_markers_of_one_kind() {
    for (input, expected) in [
        ("***", State::Okay),
        ("---\n", State::Okay),
        ("___", State::Okay),
        (" * * *", State::Okay),
        ("*\t*\t*\t", State::Okay),
        ("*****", State::Okay),
        ("**", State::Nok),
        ("*-*", State::Nok),
        ("***a", State::Nok),
        ("+++", State::Nok),
        ("", State::Nok),
        ("    ***", State::Nok),
    ] {
        let mut t = tokenizer(input);
        assert_eq!(t.run(StateName::ThematicBreakStart), expected, "{:?}", input);
    }
}

#[test]
fn thematic_break_may_be_indented_more_without_indented_code() {
    let mut t = Tokenizer::new(
        Point { line: 1, column: 1, index: 0, vs: 0 },
        ParseState {
            constructs: Constructs { code_indented: false, list: true, thematic_break: true },
            bytes: b"     ***".to_vec(),
        },
    );
    assert_eq!(t.run(StateName::ThematicBreakStart), State::Okay);
}

#[test]
fn thematic_break_emits_its_sequences() {
    let mut t = tokenizer("** *");
    t.interrupt = true;
    assert_eq!(t.run(StateName::ThematicBreakStart), State::Okay);
    assert!(!t.interrupt);
    assert_eq!(
        names(&t.events),
        vec![
            (EventType::Enter, Token::ThematicBreak),
            (EventType::Enter, Token::ThematicBreakSequence),
            (EventType::Exit, Token::ThematicBreakSequence),
            (EventType::Enter, Token::SpaceOrTab),
            (EventType::Exit, Token::SpaceOrTab),
            (EventType::Enter, Token::ThematicBreakSequence),
            (EventType::Exit, Token::ThematicBreakSequence),
            (EventType::Exit, Token::ThematicBreak),
        ]
    );
}
