use micromark::subtokenize::link;
use micromark::token::{ContentType, Event, EventType, Link, Point, Token};
use micromark::util::edit_map::EditMap;
use micromark::util::skip;
use micromark::util::slice::{Position, Slice};

fn event(event_type: EventType, token_type: Token, index: usize) -> Event {
    Event { event_type, token_type, point: Point { line: 1, column: index + 1, index, vs: 0 }, link: None }
}

fn enter(token_type: Token, index: usize) -> Event {
    event(EventType::Enter, token_type, index)
}

fn exit(token_type: Token, index: usize) -> Event {
    event(EventType::Exit, token_type, index)
}

fn tied(token_type: Token, index: usize, previous: Option<usize>) -> Event {
    Event {
        link: Some(Link { previous, content_type: ContentType::String }),
        ..enter(token_type, index)
    }
}

fn point(index: usize, vs: usize) -> Point {
    Point { line: 1, column: 1, index, vs }
}

/// `Data(LineEnding)Data`, then a list item that holds a thematic break.
fn log() -> Vec<Event> {
    vec![
        enter(Token::Data, 0),
        exit(Token::Data, 1),
        enter(Token::LineEnding, 1),
        exit(Token::LineEnding, 2),
        enter(Token::SpaceOrTab, 2),
        exit(Token::SpaceOrTab, 3),
        enter(Token::ListItem, 3),
        enter(Token::ThematicBreak, 3),
        enter(Token::ThematicBreakSequence, 3),
        exit(Token::ThematicBreakSequence, 6),
        exit(Token::ThematicBreak, 6),
        exit(Token::ListItem, 6),
    ]
}

#[test]
fn skip_opt_skips_whole_spans() {
    let events = log();
    assert_eq!(skip::opt(&events, 0, &[Token::Data]), 2);
    assert_eq!(skip::opt(&events, 0, &[Token::Data, Token::LineEnding]), 4);
    assert_eq!(skip::opt(&events, 0, &[Token::Data, Token::LineEnding, Token::SpaceOrTab]), 6);
    assert_eq!(skip::opt(&events, 6, &[Token::ListItem]), 12);
}

#[test]
fn skip_opt_stays_where_nothing_is_to_skip() {
    let events = log();
    assert_eq!(skip::opt(&events, 0, &[Token::LineEnding]), 0);
    // An exit event opens no span.
    assert_eq!(skip::opt(&events, 1, &[Token::Data]), 1);
    assert_eq!(skip::opt(&events, 12, &[Token::Data]), 12);
    assert_eq!(skip::opt(&events, 0, &[]), 0);
}

#[test]
fn skip_opt_ends_with_the_log_in_a_span_that_is_not_closed() {
    let events = vec![enter(Token::Data, 0), enter(Token::LineEnding, 0), exit(Token::LineEnding, 1)];
    assert_eq!(skip::opt(&events, 0, &[Token::Data]), 3);
}

#[test]
fn skip_to_span_end_finds_the_matching_exit() {
    let events = log();
    assert_eq!(skip::to_span_end(&events, 7), 11);
    assert_eq!(skip::to_span_end(&events, 8), 10);
    assert_eq!(skip::to_span_end(&events, 9), 9);
    assert_eq!(skip::to_span_end(&events, 12), 12);
}

#[test]
fn skip_to_finds_the_next_event_of_a_name() {
    let events = log();
    assert_eq!(skip::to(&events, 0, &[Token::ThematicBreak]), 7);
    assert_eq!(skip::to(&events, 7, &[Token::ThematicBreak]), 7);
    assert_eq!(skip::to(&events, 8, &[Token::ThematicBreak]), 10);
    assert_eq!(skip::to(&events, 0, &[Token::ListItemMarker]), 12);
    assert_eq!(skip::to(&events, 0, &[Token::ListItem, Token::LineEnding]), 2);
}

#[test]
fn skip_to_back_finds_the_last_event_of_a_name() {
    let events = log();
    assert_eq!(skip::to_back(&events, 11, &[Token::ThematicBreak]), 10);
    assert_eq!(skip::to_back(&events, 9, &[Token::ListItem]), 6);
    assert_eq!(skip::to_back(&events, 6, &[Token::ListItem]), 6);
    assert_eq!(skip::to_back(&events, 5, &[Token::ListItem]), 0);
    assert_eq!(skip::to_back(&events, 0, &[Token::Data]), 0);
}

#[test]
fn skip_one_of() {
    assert!(skip::one_of(&[Token::Data, Token::LineEnding], Token::LineEnding));
    assert!(!skip::one_of(&[Token::Data, Token::LineEnding], Token::SpaceOrTab));
    assert!(!skip::one_of(&[], Token::Data));
}

#[test]
fn slice_between_two_places() {
    let bytes = b"ab\tcd";
    let slice = Slice::from_position(bytes, &Position { start: point(1, 0), end: point(4, 0) });
    assert_eq!(slice.bytes, b"b\tc");
    assert_eq!((slice.before, slice.after), (0, 0));
    assert_eq!(slice.size(), 3);
    assert_eq!(slice.head(), Some(b'b'));
}

#[test]
fn slice_with_columns_of_tabs_at_its_edges() {
    let bytes = b"\ta\tb";
    let slice = Slice::from_position(bytes, &Position { start: point(0, 1), end: point(2, 2) });
    assert_eq!(slice.bytes, b"a");
    assert_eq!((slice.before, slice.after), (3, 2));
    assert_eq!(slice.size(), 6);
    assert_eq!(slice.head(), Some(b' '));
}

#[test]
fn slice_inside_one_tab() {
    let bytes = b"\ta";
    let slice = Slice::from_position(bytes, &Position { start: point(0, 1), end: point(0, 3) });
    assert_eq!(slice.bytes, b"");
    assert_eq!(slice.size(), 2);
    let empty = Slice::from_position(bytes, &Position { start: point(1, 0), end: point(1, 0) });
    assert_eq!(empty.size(), 0);
    assert_eq!(empty.head(), None);
}

#[test]
fn slice_from_point_sees_what_the_cursor_sees() {
    let bytes = b"a\t";
    assert_eq!(Slice::from_point(bytes, &point(0, 0)).head(), Some(b'a'));
    assert_eq!(Slice::from_point(bytes, &point(1, 0)).head(), Some(b'\t'));
    assert_eq!(Slice::from_point(bytes, &point(1, 2)).head(), Some(b' '));
    assert_eq!(Slice::from_point(bytes, &point(2, 0)).head(), None);
}

#[test]
fn link_ties_to_the_last_span_with_the_same_content() {
    let mut events = vec![
        tied(Token::Data, 0, None),
        exit(Token::Data, 1),
        Event {
            link: Some(Link { previous: None, content_type: ContentType::Text }),
            ..enter(Token::Data, 1)
        },
        exit(Token::Data, 2),
        tied(Token::Data, 2, None),
    ];
    link(&mut events, 4);
    assert_eq!(events[4].link.unwrap().previous, Some(0));
    link(&mut events, 2);
    assert_eq!(events[2].link.unwrap().previous, None);
    link(&mut events, 0);
    assert_eq!(events[0].link.unwrap().previous, None);
    // An event without content is left alone.
    link(&mut events, 1);
    assert_eq!(events[1].link, None);
}

#[test]
fn edit_map_keeps_its_edits_sorted() {
    let mut map = EditMap::new();
    map.add(5, 0, vec![enter(Token::Data, 5)]);
    map.add(1, 2, vec![]);
    map.add(3, 0, vec![enter(Token::Data, 3)]);
    let indices: Vec<usize> = map.map.iter().map(|edit| edit.index).collect();
    assert_eq!(indices, vec![1, 3, 5]);
    assert_eq!(map.map[0].remove, 2);
}

#[test]
fn edit_map_merges_edits_at_one_index() {
    let mut map = EditMap::new();
    map.add(2, 1, vec![enter(Token::Data, 0)]);
    map.add(2, 2, vec![exit(Token::Data, 0)]);
    assert_eq!(map.map.len(), 1);
    assert_eq!(map.map[0].remove, 3);
    assert_eq!(map.map[0].add, vec![enter(Token::Data, 0), exit(Token::Data, 0)]);
}

#[test]
fn edit_map_ignores_an_empty_edit() {
    let mut map = EditMap::new();
    map.add(2, 0, vec![]);
    assert!(map.map.is_empty());
}

#[test]
fn edit_map_puts_in_and_takes_out() {
    let mut events = log();
    let before = events.clone();
    let mut map = EditMap::new();
    map.add(6, 0, vec![enter(Token::ListUnordered, 3)]);
    map.add(12, 0, vec![exit(Token::ListUnordered, 6)]);
    map.add(2, 4, vec![enter(Token::BlankLineEnding, 1), exit(Token::BlankLineEnding, 3)]);
    map.add(0, 0, vec![]);
    map.consume(&mut events);
    let mut expected = vec![];
    expected.extend_from_slice(&before[0..2]);
    expected.push(enter(Token::BlankLineEnding, 1));
    expected.push(exit(Token::BlankLineEnding, 3));
    expected.push(enter(Token::ListUnordered, 3));
    expected.extend_from_slice(&before[6..12]);
    expected.push(exit(Token::ListUnordered, 6));
    assert_eq!(events, expected);
    assert!(map.map.is_empty());
}

#[test]
fn edit_map_without_edits_changes_nothing() {
    let mut events = log();
    let mut map = EditMap::new();
    map.consume(&mut events);
    assert_eq!(events, log());
}

#[test]
fn edit_map_rewrites_the_ties() {
    let mut events = vec![
        tied(Token::Data, 0, None),
        exit(Token::Data, 1),
        tied(Token::LineEnding, 1, Some(0)),
        exit(Token::LineEnding, 2),
        tied(Token::Data, 2, Some(2)),
        exit(Token::Data, 3),
    ];
    let mut map = EditMap::new();
    map.add(0, 0, vec![enter(Token::ListItem, 0)]);
    map.add(2, 0, vec![enter(Token::ListItemPrefix, 1), exit(Token::ListItemPrefix, 1)]);
    map.consume(&mut events);
    assert_eq!(events.len(), 9);
    assert_eq!(events[1].token_type, Token::Data);
    assert_eq!(events[1].link.unwrap().previous, None);
    assert_eq!(events[5].token_type, Token::LineEnding);
    assert_eq!(events[5].link.unwrap().previous, Some(1));
    assert_eq!(events[7].token_type, Token::Data);
    assert_eq!(events[7].link.unwrap().previous, Some(5));
}

#[test]
fn edit_map_cuts_the_tie_to_a_span_that_is_taken_out() {
    let mut events = vec![
        tied(Token::Data, 0, None),
        exit(Token::Data, 1),
        tied(Token::Data, 1, Some(0)),
        exit(Token::Data, 2),
        tied(Token::Data, 2, Some(2)),
        exit(Token::Data, 3),
    ];
    let mut map = EditMap::new();
    map.add(0, 2, vec![]);
    map.consume(&mut events);
    assert_eq!(events.len(), 4);
    assert_eq!(events[0].link.unwrap().previous, None);
    assert_eq!(events[2].link.unwrap().previous, Some(0));
}

#[test]
fn edit_map_cuts_a_tie_that_does_not_point_back() {
    let mut events = vec![tied(Token::Data, 0, Some(0)), exit(Token::Data, 1)];
    let mut map = EditMap::new();
    map.add(0, 0, vec![enter(Token::ListItem, 0)]);
    map.consume(&mut events);
    assert_eq!(events[1].link.unwrap().previous, None);
}
