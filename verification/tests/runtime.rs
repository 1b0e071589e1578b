use micromark::construct::partial_space_or_tab::{space_or_tab, space_or_tab_min_max};
use micromark::construct::partial_title::Options;
use micromark::token::{ContentType, Event, EventType, Point, Token};
use micromark::tokenizer::{Constructs, ParseState, Resolver, State, StateName, Tokenizer};

fn tokenizer(input: &str) -> Tokenizer {
    Tokenizer::new(
        Point { line: 1, column: 1, index: 0, vs: 0 },
        ParseState { constructs: Constructs::default(), bytes: input.as_bytes().to_vec() },
    )
}

fn point(line: usize, column: usize, index: usize, vs: usize) -> Point {
    Point { line, column, index, vs }
}

/// A stack-based reader: `None` if an exit finds the stack empty or another
/// name on top, else what is left open.
fn read(events: &[Event]) -> Option<Vec<Token>> {
    let mut stack = vec![];
    for event in events {
        if event.event_type == EventType::Enter {
            stack.push(event.token_type);
        } else if stack.pop() != Some(event.token_type) {
            return None;
        }
    }
    Some(stack)
}

fn title_options() -> Options {
    Options {
        title: Token::DefinitionTitle,
        marker: Token::DefinitionTitleMarker,
        string: Token::DefinitionTitleString,
    }
}

#[test]
fn new_starts_with_an_empty_log() {
    let t = tokenizer("ab");
    assert_eq!(t.current, Some(b'a'));
    assert_eq!(t.point, point(1, 1, 0, 0));
    assert!(t.events.is_empty());
    assert!(t.resolver_ids.is_empty());
    assert_eq!(t.container, None);
    assert!(!t.interrupt);
}

#[test]
fn current_is_none_at_the_end() {
    let t = tokenizer("");
    assert_eq!(t.current, None);
}

#[test]
fn consume_counts_lines_and_columns() {
    let mut t = tokenizer("a\nb");
    t.consume();
    assert_eq!(t.point, point(1, 2, 1, 0));
    assert_eq!(t.current, Some(b'\n'));
    t.consume();
    assert_eq!(t.point, point(2, 1, 2, 0));
    assert_eq!(t.current, Some(b'b'));
    t.consume();
    assert_eq!(t.point, point(2, 2, 3, 0));
    assert_eq!(t.current, None);
}

#[test]
fn consume_reads_a_tab_one_column_at_a_time() {
    let mut t = tokenizer("\ta");
    assert_eq!(t.current, Some(b'\t'));
    t.consume();
    assert_eq!(t.point, point(1, 2, 0, 1));
    assert_eq!(t.current, Some(b' '));
    t.consume();
    assert_eq!(t.point, point(1, 3, 0, 2));
    t.consume();
    assert_eq!(t.point, point(1, 4, 0, 3));
    assert_eq!(t.current, Some(b' '));
    t.consume();
    assert_eq!(t.point, point(1, 5, 1, 0));
    assert_eq!(t.current, Some(b'a'));
}

#[test]
fn consume_reads_a_tab_up_to_the_next_tab_stop() {
    let mut t = tokenizer("ab\tc");
    t.consume();
    t.consume();
    assert_eq!(t.point, point(1, 3, 2, 0));
    t.consume();
    assert_eq!(t.point, point(1, 4, 2, 1));
    t.consume();
    assert_eq!(t.point, point(1, 5, 3, 0));
    assert_eq!(t.current, Some(b'c'));
}

#[test]
fn enter_and_exit_append_events() {
    let mut t = tokenizer("ab");
    t.enter(Token::Data);
    t.consume();
    t.exit(Token::Data);
    assert_eq!(
        t.events,
        vec![
            Event { event_type: EventType::Enter, token_type: Token::Data, point: point(1, 1, 0, 0), link: None },
            Event { event_type: EventType::Exit, token_type: Token::Data, point: point(1, 2, 1, 0), link: None },
        ]
    );
}

#[test]
fn enter_with_content_tags_the_span() {
    let mut t = tokenizer("ab");
    t.enter_with_content(Token::Data, Some(ContentType::String));
    let link = t.events[0].link.unwrap();
    assert_eq!(link.content_type, ContentType::String);
    assert_eq!(link.previous, None);
}

#[test]
fn link_last_ties_to_the_previous_span_of_the_same_content() {
    let mut t = tokenizer("abc");
    t.enter_with_content(Token::Data, Some(ContentType::String));
    t.consume();
    t.exit(Token::Data);
    t.enter_with_content(Token::LineEnding, Some(ContentType::Text));
    t.consume();
    t.exit(Token::LineEnding);
    t.enter_with_content(Token::Data, Some(ContentType::String));
    t.link_last();
    assert_eq!(t.events[4].link.unwrap().previous, Some(0));
    assert_eq!(t.events[2].link.unwrap().previous, None);
}

#[test]
fn link_last_finds_nothing_to_tie_to() {
    let mut t = tokenizer("abc");
    t.enter(Token::Data);
    t.exit(Token::Data);
    t.enter_with_content(Token::Data, Some(ContentType::String));
    t.link_last();
    assert_eq!(t.events[2].link.unwrap().previous, None);
}

#[test]
fn register_resolver_before_is_idempotent() {
    let mut t = tokenizer("");
    t.register_resolver_before(Resolver::ListItem);
    assert_eq!(t.resolver_ids, vec![Resolver::ListItem]);
    t.register_resolver_before(Resolver::ListItem);
    assert_eq!(t.resolver_ids, vec![Resolver::ListItem]);
}

#[test]
fn attempt_keeps_what_a_match_did() {
    let mut t = tokenizer("  a");
    assert!(t.attempt(space_or_tab()));
    assert_eq!(t.point, point(1, 3, 2, 0));
    assert_eq!(t.events.len(), 2);
    assert_eq!(t.events[0].token_type, Token::SpaceOrTab);
}

#[test]
fn attempt_undoes_a_failure() {
    // A title that is never closed fails after it wrote to the log.
    let mut t = tokenizer("x\"abc");
    t.enter(Token::Data);
    t.consume();
    t.exit(Token::Data);
    let events = t.events.clone();
    let point = t.point;
    assert!(!t.attempt(StateName::TitleStart(title_options())));
    assert_eq!(t.events, events);
    assert_eq!(t.point, point);
    assert_eq!(t.current, Some(b'"'));
}

#[test]
fn run_does_not_undo_a_failure() {
    let mut t = tokenizer("\"abc");
    assert_eq!(t.run(StateName::TitleStart(title_options())), State::Nok);
    assert!(!t.events.is_empty());
    assert_eq!(t.current, None);
}

#[test]
fn check_undoes_a_match() {
    let mut t = tokenizer("***\nrest");
    assert!(t.check(StateName::ThematicBreakStart));
    assert!(t.events.is_empty());
    assert_eq!(t.point, point(1, 1, 0, 0));
    assert_eq!(t.current, Some(b'*'));
}

#[test]
fn check_undoes_a_failure() {
    let mut t = tokenizer("**a");
    assert!(!t.check(StateName::ThematicBreakStart));
    assert!(t.events.is_empty());
    assert_eq!(t.point, point(1, 1, 0, 0));
}

#[test]
fn check_restores_the_interrupt_flag() {
    let mut t = tokenizer("***");
    t.interrupt = true;
    assert!(t.check(StateName::ThematicBreakStart));
    assert!(t.interrupt);
}

#[test]
fn go_keeps_what_a_failure_did() {
    let mut t = tokenizer(" a");
    assert!(!t.go(space_or_tab_min_max(2, 4)));
    assert_eq!(t.point, point(1, 2, 1, 0));
    assert_eq!(t.events.len(), 2);
}

#[test]
fn capture_and_free_go_back() {
    let mut t = tokenizer("ab");
    let frame = t.capture();
    t.enter(Token::Data);
    t.consume();
    t.register_resolver_before(Resolver::ListItem);
    t.free(frame);
    assert!(t.events.is_empty());
    assert!(t.resolver_ids.is_empty());
    assert_eq!(t.point, point(1, 1, 0, 0));
    assert_eq!(t.current, Some(b'a'));
}

#[test]
fn call_takes_one_step() {
    let mut t = tokenizer("  a");
    let state = t.call(space_or_tab());
    assert!(matches!(state, State::Next(StateName::SpaceOrTabInside(_))));
    assert_eq!(t.point, point(1, 2, 1, 0));
}

#[test]
fn a_match_leaves_the_log_well_nested() {
    for input in ["\"a\\\"b\nc\"", "(a)", "''"] {
        let mut t = tokenizer(input);
        assert_eq!(t.run(StateName::TitleStart(title_options())), State::Okay);
        assert_eq!(read(&t.events), Some(vec![]));
    }
    for input in ["***", " - - -", "_\t_ _"] {
        let mut t = tokenizer(input);
        assert_eq!(t.run(StateName::ThematicBreakStart), State::Okay);
        assert_eq!(read(&t.events), Some(vec![]));
    }
}

#[test]
fn a_log_can_always_be_read() {
    for input in ["\"abc", "1. a", "* a", "*a", "12345678901. a", "\"a\n\nb\""] {
        for name in [
            StateName::TitleStart(title_options()),
            StateName::ListStart,
            StateName::ThematicBreakStart,
            StateName::BlankLineStart,
        ] {
            let mut t = tokenizer(input);
            t.run(name);
            assert!(read(&t.events).is_some());
        }
    }
}

#[test]
fn disabled_constructs_do_not_touch_the_log() {
    let mut t = Tokenizer::new(
        point(1, 1, 0, 0),
        ParseState {
            constructs: Constructs { code_indented: true, list: false, thematic_break: false },
            bytes: b"* a".to_vec(),
        },
    );
    assert_eq!(t.run(StateName::ListStart), State::Nok);
    assert!(t.events.is_empty());
    assert_eq!(t.run(StateName::ThematicBreakStart), State::Nok);
    assert!(t.events.is_empty());
    assert_eq!(t.point, point(1, 1, 0, 0));
}

#[test]
fn constructs_are_on_by_default() {
    let constructs = Constructs::default();
    assert!(constructs.code_indented);
    assert!(constructs.list);
    assert!(constructs.thematic_break);
}

#[test]
fn a_construct_writes_only_its_own_names() {
    for input in ["* a", "  12) a", "*", "1.\n", "*      a", "*a", "- - -", "1234567890. a"] {
        let mut t = tokenizer(input);
        t.run(StateName::ListStart);
        for event in &t.events {
            assert!(
                matches!(
                    event.token_type,
                    Token::ListItem
                        | Token::ListItemPrefix
                        | Token::ListItemValue
                        | Token::ListItemMarker
                        | Token::SpaceOrTab
                ),
                "{:?}: {:?}",
                input,
                event.token_type
            );
        }
    }
    for input in ["\"a\n b\"", "(a", "'a\n\nb'"] {
        let mut t = tokenizer(input);
        t.run(StateName::TitleStart(title_options()));
        for event in &t.events {
            assert!(
                matches!(
                    event.token_type,
                    Token::DefinitionTitle
                        | Token::DefinitionTitleMarker
                        | Token::DefinitionTitleString
                        | Token::Data
                        | Token::LineEnding
                        | Token::SpaceOrTab
                ),
                "{:?}: {:?}",
                input,
                event.token_type
            );
        }
    }
}

#[test]
fn a_run_changes_no_event_that_it_found() {
    let mut t = tokenizer("a\"b\nc\"");
    t.enter_with_content(Token::Data, Some(ContentType::String));
    t.consume();
    t.exit(Token::Data);
    let before = t.events.clone();
    assert_eq!(t.run(StateName::TitleStart(title_options())), State::Okay);
    assert_eq!(t.events[..before.len()], before[..]);
}
