use micromark::construct::partial_title::Options;
use micromark::nesting::{is_well_nested, read};
use micromark::subtokenize::chain;
use micromark::token::{ContentType, Event, EventType, Link, Point, Token};
use micromark::tokenizer::{Constructs, ParseState, State, StateName, Tokenizer};

fn event(event_type: EventType, token_type: Token) -> Event {
    Event { event_type, token_type, point: Point { line: 1, column: 1, index: 0, vs: 0 }, link: None }
}

fn enter(token_type: Token) -> Event {
    event(EventType::Enter, token_type)
}

fn exit(token_type: Token) -> Event {
    event(EventType::Exit, token_type)
}

fn tied(previous: Option<usize>) -> Event {
    Event { link: Some(Link { previous, content_type: ContentType::String }), ..enter(Token::Data) }
}

fn tokenizer(input: &str) -> Tokenizer {
    Tokenizer::new(
        Point { line: 1, column: 1, index: 0, vs: 0 },
        ParseState { constructs: Constructs::default(), bytes: input.as_bytes().to_vec() },
    )
}

#[test]
fn read_returns_what_is_left_open() {
    assert_eq!(read(&vec![]), Some(vec![]));
    assert_eq!(read(&vec![enter(Token::ListItem)]), Some(vec![Token::ListItem]));
    assert_eq!(
        read(&vec![enter(Token::ListItem), enter(Token::Data), exit(Token::Data), enter(Token::LineEnding)]),
        Some(vec![Token::ListItem, Token::LineEnding])
    );
    assert_eq!(read(&vec![enter(Token::Data), exit(Token::Data)]), Some(vec![]));
}

#[test]
fn read_fails_on_an_exit_that_closes_nothing() {
    assert_eq!(read(&vec![exit(Token::Data)]), None);
    assert_eq!(read(&vec![enter(Token::Data), exit(Token::Data), exit(Token::Data)]), None);
}

#[test]
fn read_fails_on_an_exit_that_closes_another_span() {
    assert_eq!(read(&vec![enter(Token::Data), exit(Token::LineEnding)]), None);
    assert_eq!(
        read(&vec![enter(Token::ListItem), enter(Token::Data), exit(Token::ListItem), exit(Token::Data)]),
        None
    );
    // What comes after the bad exit does not mend it.
    assert_eq!(read(&vec![exit(Token::Data), enter(Token::Data)]), None);
}

#[test]
fn well_nested_means_read_to_the_empty_stack() {
    assert!(is_well_nested(&vec![]));
    assert!(is_well_nested(&vec![
        enter(Token::ListItem),
        enter(Token::Data),
        exit(Token::Data),
        exit(Token::ListItem)
    ]));
    assert!(!is_well_nested(&vec![enter(Token::ListItem)]));
    assert!(!is_well_nested(&vec![exit(Token::ListItem)]));
}

#[test]
fn a_matched_title_is_well_nested() {
    let options = Options {
        title: Token::ResourceTitle,
        marker: Token::ResourceTitleMarker,
        string: Token::ResourceTitleString,
    };
    for input in ["\"a\"", "'a\nb'", "(a\\)b)", "\"\""] {
        let mut t = tokenizer(input);
        assert_eq!(t.run(StateName::TitleStart(options)), State::Okay);
        assert!(is_well_nested(&t.events), "{:?}", input);
        assert!(is_well_nested(&t.resolve().unwrap()), "{:?}", input);
    }
}

#[test]
fn a_matched_item_start_leaves_the_item_open() {
    let mut t = tokenizer("1. a");
    assert_eq!(t.run(StateName::ListStart), State::Okay);
    assert_eq!(read(&t.events), Some(vec![Token::ListItem]));
}

#[test]
fn chain_follows_the_ties_back() {
    let events = vec![
        tied(None),
        exit(Token::Data),
        tied(Some(0)),
        exit(Token::Data),
        enter(Token::LineEnding),
        exit(Token::LineEnding),
        tied(Some(2)),
        exit(Token::Data),
    ];
    assert_eq!(chain(&events, 6), vec![0, 2, 6]);
    assert_eq!(chain(&events, 2), vec![0, 2]);
    assert_eq!(chain(&events, 0), vec![0]);
    assert_eq!(chain(&events, 4), vec![4]);
}

#[test]
fn chain_stops_at_a_tie_that_does_not_point_back() {
    let events = vec![tied(Some(2)), exit(Token::Data), tied(Some(2)), exit(Token::Data), tied(Some(2))];
    assert_eq!(chain(&events, 4), vec![2, 4]);
    assert_eq!(chain(&events, 0), vec![0]);
}

#[test]
fn chain_of_a_title_holds_its_pieces() {
    let options = Options {
        title: Token::ResourceTitle,
        marker: Token::ResourceTitleMarker,
        string: Token::ResourceTitleString,
    };
    let mut t = tokenizer("\"a\n b\nc\"");
    assert_eq!(t.run(StateName::TitleStart(options)), State::Okay);
    let last = t
        .events
        .iter()
        .rposition(|e| e.event_type == EventType::Enter && e.token_type == Token::Data)
        .unwrap();
    let run = chain(&t.events, last);
    let names: Vec<Token> = run.iter().map(|&i| t.events[i].token_type).collect();
    assert_eq!(
        names,
        vec![Token::Data, Token::LineEnding, Token::SpaceOrTab, Token::Data, Token::LineEnding, Token::Data]
    );
}
