//! The core of a markdown tokenizer: a machine that reads bytes, writes a
//! log of events, and lets resolvers rewrite that log afterwards.
//!
//! A [`Tokenizer`](tokenizer::Tokenizer) holds a cursor over the input and an
//! append-only log of enter and exit events.  A construct is a small state
//! machine over these: each of its places is a function that takes one step
//! and says whether the construct matched, failed, or goes on at another
//! place with the next byte.  Constructs run each other through
//! [`attempt`](tokenizer::Tokenizer::attempt), which undoes a failure,
//! [`check`](tokenizer::Tokenizer::check), which undoes everything, and
//! [`go`](tokenizer::Tokenizer::go), which undoes nothing.
//!
//! What cannot be decided while reading forward is left to resolvers.  They
//! run after the main pass and ask for edits to the log, by index into the
//! log as the main pass left it; the edits are applied in one pass at the
//! end.
//!
//! Two constructs are worked out in full: the list item, a block construct
//! whose resolver groups adjacent items into lists, and the title, which
//! holds content that a later pass tokenizes again.  With them come the
//! constructs that they run: whitespace, blank lines, and thematic breaks.
//!
//! # Contracts and laws
//!
//! The state of a tokenizer has a mathematical value, a
//! [`Model`](tokenizer::Model), and every place of every construct has a
//! specification function on models that says what one step does there.
//! The executable functions are proved to do exactly that.  On top of the
//! step functions stand the laws: statements about whole runs that are
//! proved once and for all.  The most important of them are that
//!
//! - the log can always be read by a stack-based reader, and a construct
//!   that matches closes what it opened ([`advance`]);
//! - a run only appends to the log, and only names of the construct that
//!   was run ([`alphabet`]);
//! - a failed attempt, and any check, leaves the state as it was
//!   ([`tokenizer`]);
//! - the cursor never moves back ([`forward`]);
//! - a title fails without its closing marker and on a blank line, and a
//!   backslash escapes a closing marker and nothing else
//!   ([`construct::partial_title_proof`]);
//! - sibling list items make one list, anything else between two items
//!   makes two, and resolving keeps the events of the main pass in their
//!   order ([`construct::list_proof`]).
pub mod advance;
pub mod alphabet;
pub mod constant;
pub mod construct;
pub mod forward;
pub mod nesting;
pub mod subtokenize;
pub mod token;
pub mod tokenizer;
pub mod util;
