use micromark::construct::list::{
    blank_cont, cont, list_items_resolvable, not_blank_cont, ok, resolve_list_item, start, Kind,
};
use micromark::token::{Event, EventType, Point, Token};
use micromark::tokenizer::{
    Constructs, ContainerState, ParseState, Resolver, State, StateName, Tokenizer,
};

fn tokenizer_with(input: &str, constructs: Constructs) -> Tokenizer {
    let mut tokenizer = Tokenizer::new(
        Point { line: 1, column: 1, index: 0, vs: 0 },
        ParseState { constructs, bytes: input.as_bytes().to_vec() },
    );
    tokenizer.container = Some(ContainerState { blank_initial: false, size: 0 });
    tokenizer
}

fn tokenizer(input: &str) -> Tokenizer {
    tokenizer_with(input, Constructs::default())
}

fn names(events: &[Event]) -> Vec<(EventType, Token)> {
    events.iter().map(|event| (event.event_type, event.token_type)).collect()
}

fn enter(token: Token) -> (EventType, Token) {
    (EventType::Enter, token)
}

fn exit(token: Token) -> (EventType, Token) {
    (EventType::Exit, token)
}

/// Run the item start as the machine would: `start` takes the first step.
fn run_start(tokenizer: &mut Tokenizer) -> State {
    match start(tokenizer) {
        State::Next(next) => tokenizer.run(next),
        state => state,
    }
}

/// Tokenize `input` as lines that each hold a list item or plain data, as
/// a document would: an item ends with its line.
fn lines(input: &str) -> Tokenizer {
    let mut t = tokenizer(input);
    while t.current.is_some() {
        if t.attempt(StateName::BlankLineStart) {
            if t.current.is_some() {
                t.enter(Token::BlankLineEnding);
                t.consume();
                t.exit(Token::BlankLineEnding);
            }
            continue;
        }
        let item = t.attempt(StateName::ListStart);
        t.enter(Token::Data);
        while t.current.is_some() && t.current != Some(b'\n') {
            t.consume();
        }
        t.exit(Token::Data);
        if item {
            t.exit(Token::ListItem);
        }
        if t.current.is_some() {
            t.enter(Token::LineEnding);
            t.consume();
            t.exit(Token::LineEnding);
        }
    }
    t
}

fn list_names(events: &[Event]) -> Vec<(EventType, Token)> {
    names(events)
        .into_iter()
        .filter(|(_, token)| {
            matches!(token, Token::ListOrdered | Token::ListUnordered | Token::ListItem | Token::Data)
        })
        .collect()
}

#[test]
fn kind_from_byte() {
    assert_eq!(Kind::from_byte(b'.'), Kind::Dot);
    assert_eq!(Kind::from_byte(b')'), Kind::Paren);
    assert_eq!(Kind::from_byte(b'*'), Kind::Asterisk);
    assert_eq!(Kind::from_byte(b'+'), Kind::Plus);
    assert_eq!(Kind::from_byte(b'-'), Kind::Dash);
}

#[test]
fn start_of_an_unordered_item() {
    let mut t = tokenizer("* a");
    assert_eq!(run_start(&mut t), State::Okay);
    assert_eq!(
        names(&t.events),
        vec![
            enter(Token::ListItem),
            enter(Token::ListItemPrefix),
            enter(Token::ListItemMarker),
            exit(Token::ListItemMarker),
            enter(Token::SpaceOrTab),
            exit(Token::SpaceOrTab),
            exit(Token::ListItemPrefix),
        ]
    );
    assert_eq!(t.events[2].point, Point { line: 1, column: 1, index: 0, vs: 0 });
    assert_eq!(t.events[3].point, Point { line: 1, column: 2, index: 1, vs: 0 });
    assert_eq!(t.container, Some(ContainerState { blank_initial: false, size: 2 }));
    assert_eq!(t.resolver_ids, vec![Resolver::ListItem]);
    assert_eq!(t.current, Some(b'a'));
}

#[test]
fn start_of_an_ordered_item() {
    let mut t = tokenizer("12) a");
    assert_eq!(run_start(&mut t), State::Okay);
    assert_eq!(
        names(&t.events),
        vec![
            enter(Token::ListItem),
            enter(Token::ListItemPrefix),
            enter(Token::ListItemValue),
            exit(Token::ListItemValue),
            enter(Token::ListItemMarker),
            exit(Token::ListItemMarker),
            enter(Token::SpaceOrTab),
            exit(Token::SpaceOrTab),
            exit(Token::ListItemPrefix),
        ]
    );
    assert_eq!(t.events[3].point.index, 2);
    assert_eq!(t.container, Some(ContainerState { blank_initial: false, size: 4 }));
}

#[test]
fn start_for_each_marker() {
    for input in ["* a", "+ a", "- a", "1. a", "1) a", "0. a", "123456789. a"] {
        let mut t = tokenizer(input);
        assert_eq!(run_start(&mut t), State::Okay, "{:?}", input);
    }
}

#[test]
fn start_fails_on_what_is_no_item() {
    for input in ["", "a", "*a", "1.a", "1 a", "1234567890. a", "_ a", ". a", "***", "- - -", "    * a"] {
        let mut t = tokenizer(input);
        assert_eq!(run_start(&mut t), State::Nok, "{:?}", input);
    }
}

#[test]
fn start_is_off_when_lists_are() {
    let mut t = tokenizer_with(
        "* a",
        Constructs { code_indented: true, list: false, thematic_break: true },
    );
    assert_eq!(start(&mut t), State::Nok);
    assert!(t.events.is_empty());
}

#[test]
fn start_takes_any_indent_without_indented_code() {
    let mut t = tokenizer_with(
        "     * a",
        Constructs { code_indented: false, list: true, thematic_break: true },
    );
    assert_eq!(run_start(&mut t), State::Okay);
    assert_eq!(t.container, Some(ContainerState { blank_initial: false, size: 7 }));
}

#[test]
fn start_takes_up_to_three_columns_of_indent() {
    let mut t = tokenizer("   * a");
    assert_eq!(run_start(&mut t), State::Okay);
    assert_eq!(t.container, Some(ContainerState { blank_initial: false, size: 5 }));
}

#[test]
fn start_prefers_a_thematic_break() {
    let mut t = tokenizer("* * *");
    assert_eq!(run_start(&mut t), State::Nok);
    let mut t = tokenizer_with(
        "* * *",
        Constructs { code_indented: true, list: true, thematic_break: false },
    );
    assert_eq!(run_start(&mut t), State::Okay);
}

#[test]
fn start_with_a_blank_first_line() {
    for input in ["*", "*\n", "*  \na", "1.", "-\t\n"] {
        let mut t = tokenizer(input);
        assert_eq!(run_start(&mut t), State::Okay, "{:?}", input);
        assert_eq!(t.container.unwrap().blank_initial, true);
        // The whitespace after the marker is not part of the prefix.
        assert_eq!(t.events.last().unwrap().token_type, Token::ListItemPrefix);
        assert_eq!(t.events[t.events.len() - 2].token_type, Token::ListItemMarker);
    }
    let mut t = tokenizer("*\n");
    run_start(&mut t);
    assert_eq!(t.container, Some(ContainerState { blank_initial: true, size: 2 }));
    let mut t = tokenizer("1.");
    run_start(&mut t);
    assert_eq!(t.container, Some(ContainerState { blank_initial: true, size: 3 }));
}

#[test]
fn start_takes_one_to_four_columns_after_the_marker() {
    for (input, size) in [("* a", 2), ("*  a", 3), ("*   a", 4), ("*    a", 5), ("*     a", 2), ("*      a", 2)] {
        let mut t = tokenizer(input);
        assert_eq!(run_start(&mut t), State::Okay, "{:?}", input);
        assert_eq!(t.container.unwrap().size, size, "{:?}", input);
    }
}

#[test]
fn start_that_interrupts_a_paragraph() {
    for (input, expected) in [
        ("1. a", State::Okay),
        ("1) a", State::Okay),
        ("2. a", State::Nok),
        ("12. a", State::Nok),
        ("11. a", State::Nok),
        ("* a", State::Okay),
        ("*", State::Nok),
        ("1.\n", State::Nok),
    ] {
        let mut t = tokenizer(input);
        t.interrupt = true;
        assert_eq!(run_start(&mut t), expected, "{:?}", input);
    }
}

#[test]
fn cont_takes_the_indent_of_the_item() {
    let mut t = tokenizer("  b");
    t.container = Some(ContainerState { blank_initial: true, size: 2 });
    assert_eq!(cont(&mut t), State::Okay);
    assert_eq!(t.point.index, 2);
    assert_eq!(t.container, Some(ContainerState { blank_initial: false, size: 2 }));
    assert_eq!(names(&t.events), vec![enter(Token::SpaceOrTab), exit(Token::SpaceOrTab)]);
}

#[test]
fn cont_fails_on_too_little_indent() {
    let mut t = tokenizer(" b");
    t.container = Some(ContainerState { blank_initial: false, size: 2 });
    assert_eq!(cont(&mut t), State::Nok);
    let mut t = tokenizer("b");
    t.container = Some(ContainerState { blank_initial: false, size: 2 });
    assert_eq!(cont(&mut t), State::Nok);
}

#[test]
fn cont_takes_no_more_than_the_indent() {
    let mut t = tokenizer("    b");
    t.container = Some(ContainerState { blank_initial: false, size: 2 });
    assert_eq!(cont(&mut t), State::Okay);
    assert_eq!(t.point.index, 2);
}

#[test]
fn cont_on_a_blank_line() {
    let mut t = tokenizer("\nb");
    t.container = Some(ContainerState { blank_initial: false, size: 2 });
    assert_eq!(cont(&mut t), State::Okay);
    assert_eq!(t.point.index, 0);
    let mut t = tokenizer("    \nb");
    t.container = Some(ContainerState { blank_initial: false, size: 2 });
    assert_eq!(cont(&mut t), State::Okay);
    assert_eq!(t.point.index, 2);
}

#[test]
fn cont_fails_on_a_blank_line_after_a_blank_start() {
    let mut t = tokenizer("\nb");
    t.container = Some(ContainerState { blank_initial: true, size: 2 });
    assert_eq!(cont(&mut t), State::Nok);
    assert_eq!(t.container, Some(ContainerState { blank_initial: true, size: 2 }));
}

#[test]
fn blank_cont_and_not_blank_cont() {
    let mut t = tokenizer(" ");
    t.container = Some(ContainerState { blank_initial: false, size: 3 });
    assert_eq!(blank_cont(&mut t), State::Okay);
    assert_eq!(t.point.index, 1);
    let mut t = tokenizer("   a");
    t.container = Some(ContainerState { blank_initial: true, size: 3 });
    assert_eq!(not_blank_cont(&mut t), State::Okay);
    assert_eq!(t.container, Some(ContainerState { blank_initial: false, size: 3 }));
    let mut t = tokenizer("  a");
    t.container = Some(ContainerState { blank_initial: true, size: 3 });
    assert_eq!(not_blank_cont(&mut t), State::Nok);
}

#[test]
fn ok_yields_a_match() {
    let mut t = tokenizer("a");
    assert_eq!(ok(&mut t), State::Okay);
    assert!(t.events.is_empty());
    assert_eq!(t.point.index, 0);
}

#[test]
fn resolve_groups_items_with_the_same_marker() {
    let mut t = lines("* a\n* b");
    assert!(list_items_resolvable(&t));
    resolve_list_item(&mut t);
    assert_eq!(t.map.map.len(), 2);
    assert_eq!((t.map.map[0].index, t.map.map[0].remove), (0, 0));
    assert_eq!(t.map.map[0].add.len(), 1);
    assert_eq!(t.map.map[0].add[0].token_type, Token::ListUnordered);
    assert_eq!(t.map.map[0].add[0].event_type, EventType::Enter);
    assert_eq!(t.map.map[0].add[0].point, t.events[0].point);
    let last = t.events.len();
    assert_eq!((t.map.map[1].index, t.map.map[1].remove), (last, 0));
    assert_eq!(t.map.map[1].add[0].token_type, Token::ListUnordered);
    assert_eq!(t.map.map[1].add[0].event_type, EventType::Exit);
    assert_eq!(t.map.map[1].add[0].point, t.events[last - 1].point);
    // The log itself is untouched until the edits are applied.
    assert_eq!(t.events.len(), 22);
}

#[test]
fn resolved_items_with_the_same_marker_make_one_list() {
    let events = lines("* a\n* b").resolve().unwrap();
    assert_eq!(
        list_names(&events),
        vec![
            enter(Token::ListUnordered),
            enter(Token::ListItem),
            enter(Token::Data),
            exit(Token::Data),
            exit(Token::ListItem),
            enter(Token::ListItem),
            enter(Token::Data),
            exit(Token::Data),
            exit(Token::ListItem),
            exit(Token::ListUnordered),
        ]
    );
}

#[test]
fn resolved_items_across_a_blank_line_make_one_list() {
    let events = lines("1. a\n\n2. b").resolve().unwrap();
    assert_eq!(
        list_names(&events),
        vec![
            enter(Token::ListOrdered),
            enter(Token::ListItem),
            enter(Token::Data),
            exit(Token::Data),
            exit(Token::ListItem),
            enter(Token::ListItem),
            enter(Token::Data),
            exit(Token::Data),
            exit(Token::ListItem),
            exit(Token::ListOrdered),
        ]
    );
}

#[test]
fn resolved_items_with_other_markers_make_two_lists() {
    let events = lines("1. a\n- b").resolve().unwrap();
    assert_eq!(
        list_names(&events),
        vec![
            enter(Token::ListOrdered),
            enter(Token::ListItem),
            enter(Token::Data),
            exit(Token::Data),
            exit(Token::ListItem),
            exit(Token::ListOrdered),
            enter(Token::ListUnordered),
            enter(Token::ListItem),
            enter(Token::Data),
            exit(Token::Data),
            exit(Token::ListItem),
            exit(Token::ListUnordered),
        ]
    );
}

#[test]
fn markers_of_one_family_do_not_mix() {
    for input in ["* a\n- b", "* a\n+ b", "1. a\n2) b"] {
        let events = lines(input).resolve().unwrap();
        let lists = events
            .iter()
            .filter(|e| {
                e.event_type == EventType::Enter
                    && matches!(e.token_type, Token::ListOrdered | Token::ListUnordered)
            })
            .count();
        assert_eq!(lists, 2, "{:?}", input);
    }
}

#[test]
fn data_between_items_splits_the_list() {
    let events = lines("* a\nb\n* c").resolve().unwrap();
    assert_eq!(
        list_names(&events),
        vec![
            enter(Token::ListUnordered),
            enter(Token::ListItem),
            enter(Token::Data),
            exit(Token::Data),
            exit(Token::ListItem),
            exit(Token::ListUnordered),
            enter(Token::Data),
            exit(Token::Data),
            enter(Token::ListUnordered),
            enter(Token::ListItem),
            enter(Token::Data),
            exit(Token::Data),
            exit(Token::ListItem),
            exit(Token::ListUnordered),
        ]
    );
}

#[test]
fn resolving_keeps_the_events_of_the_main_pass_in_order() {
    for input in ["* a\n* b", "1. a\n\n2. b", "1. a\n- b", "* a\nb\n* c", "a\nb", ""] {
        let t = lines(input);
        let before = t.events.clone();
        let after = t.resolve().unwrap();
        let kept: Vec<Event> = after
            .into_iter()
            .filter(|e| !matches!(e.token_type, Token::ListOrdered | Token::ListUnordered))
            .collect();
        assert_eq!(kept, before, "{:?}", input);
    }
}

#[test]
fn resolving_leaves_the_log_well_nested() {
    for input in ["* a\n* b", "1. a\n\n2. b", "1. a\n- b", "* a\nb\n* c"] {
        let events = lines(input).resolve().unwrap();
        let mut stack = vec![];
        for event in &events {
            if event.event_type == EventType::Enter {
                stack.push(event.token_type);
            } else {
                assert_eq!(stack.pop(), Some(event.token_type), "{:?}", input);
            }
        }
        assert!(stack.is_empty());
    }
}

#[test]
fn resolving_without_items_changes_nothing() {
    let t = lines("a\nb");
    let before = t.events.clone();
    assert_eq!(t.resolve().unwrap(), before);
}

#[test]
fn resolve_runs_a_resolver_once_however_often_it_was_registered() {
    let mut t = lines("* a\n* b");
    t.register_resolver_before(Resolver::ListItem);
    t.register_resolver_before(Resolver::ListItem);
    let events = t.resolve().unwrap();
    let lists = events.iter().filter(|e| e.token_type == Token::ListUnordered).count();
    assert_eq!(lists, 2);
}

#[test]
fn an_item_that_is_not_closed_cannot_be_resolved() {
    let mut t = tokenizer("* a");
    assert_eq!(run_start(&mut t), State::Okay);
    assert!(!list_items_resolvable(&t));
    assert_eq!(t.resolve(), None);
}

#[test]
fn an_item_without_a_marker_cannot_be_resolved() {
    let mut t = tokenizer("a");
    t.enter(Token::ListItem);
    t.exit(Token::ListItem);
    assert!(!list_items_resolvable(&t));
}

#[test]
fn three_siblings_make_one_list() {
    let events = lines("- a\n- b\n\n- c").resolve().unwrap();
    let names = list_names(&events);
    assert_eq!(names.first(), Some(&enter(Token::ListUnordered)));
    assert_eq!(names.last(), Some(&exit(Token::ListUnordered)));
    assert_eq!(names.iter().filter(|name| name.1 == Token::ListUnordered).count(), 2);
    assert_eq!(names.iter().filter(|name| **name == enter(Token::ListItem)).count(), 3);
}

#[test]
fn resolving_reads_the_log_and_the_bytes_only() {
    let one = lines("1. a\n2. b\nc\n* d");
    let mut two = lines("1. a\n2. b\nc\n* d");
    two.point = Point { line: 1, column: 1, index: 0, vs: 0 };
    two.current = Some(b'1');
    two.container = None;
    two.interrupt = true;
    two.parse_state.constructs = Constructs { code_indented: false, list: false, thematic_break: false };
    assert_eq!(one.resolve(), two.resolve());
}

#[test]
fn resolving_a_resolved_log_again_wraps_the_items_again() {
    let bytes = b"* a".to_vec();
    let first = lines("* a").resolve().unwrap();
    let mut again = Tokenizer::new(
        Point { line: 1, column: 1, index: 0, vs: 0 },
        ParseState { constructs: Constructs::default(), bytes },
    );
    again.events = first.clone();
    again.register_resolver_before(Resolver::ListItem);
    let second = again.resolve().unwrap();
    assert_eq!(second.len(), first.len() + 2);
}

#[test]
fn start_with_a_tab_after_the_marker() {
    // The tab is read in three steps, up to the tab stop; of the prefix it
    // is one byte.
    let mut t = tokenizer("-\ta");
    assert_eq!(run_start(&mut t), State::Okay);
    assert_eq!(t.point, Point { line: 1, column: 5, index: 2, vs: 0 });
    assert_eq!(t.container, Some(ContainerState { blank_initial: false, size: 2 }));
    // Two tabs are more than four columns: one column goes to the prefix.
    let mut t = tokenizer("-\t\ta");
    assert_eq!(run_start(&mut t), State::Okay);
    assert_eq!(t.point, Point { line: 1, column: 3, index: 1, vs: 1 });
    assert_eq!(t.container, Some(ContainerState { blank_initial: false, size: 2 }));
}

#[test]
fn cont_counts_the_columns_of_a_tab() {
    let mut t = tokenizer("\tb");
    t.container = Some(ContainerState { blank_initial: false, size: 2 });
    assert_eq!(cont(&mut t), State::Okay);
    assert_eq!(t.point, Point { line: 1, column: 3, index: 0, vs: 2 });
    assert_eq!(t.current, Some(b' '));
}
