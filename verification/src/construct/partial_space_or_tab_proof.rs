//! What a run of spaces and tabs comes to, said without the machine.
use vstd::prelude::*;
use crate::construct::blank_line::{self, is_eol};
use crate::construct::partial_space_or_tab::{is_space_or_tab, space_or_tab_model, Info, Options};
use crate::token::{byte_at, lemma_point_after, point_after, point_valid, steps_left, Point};
use crate::tokenizer::{attempted, run_model, step_model, Model, State, StateName};

verus! {

/// Whether a cursor at `point` can take a step into a space or a tab.
pub open spec fn at_space(bytes: Seq<u8>, point: Point) -> bool {
    point_valid(bytes, point) && is_space_or_tab(byte_at(bytes, point))
}

/// The place after the spaces and tabs that start at `point`, `limit`
/// steps away at most.
pub open spec fn run_end(bytes: Seq<u8>, point: Point, limit: int) -> Point
    decreases steps_left(bytes, point),
{
    if limit > 0 && at_space(bytes, point) {
        proof {
            lemma_point_after(bytes, point);
        }
        run_end(bytes, point_after(bytes, point), limit - 1)
    } else {
        point
    }
}

/// The number of steps through the spaces and tabs that start at `point`,
/// `limit` at most.
pub open spec fn run_size(bytes: Seq<u8>, point: Point, limit: int) -> int
    decreases steps_left(bytes, point),
{
    if limit > 0 && at_space(bytes, point) {
        proof {
            lemma_point_after(bytes, point);
        }
        1 + run_size(bytes, point_after(bytes, point), limit - 1)
    } else {
        0
    }
}

/// The outcome of a run of spaces and tabs that has taken `info.size` steps:
/// the cursor is after the spaces and tabs, as far as `max` allows, the span
/// is closed there, and the run matches if it has `min` steps.
pub open spec fn inside_outcome(m: Model, info: Info) -> (Model, State) {
    let limit = info.options.max - info.size;
    (
        Model { point: run_end(m.bytes, m.point, limit), ..m }.exit(info.options.kind),
        if info.size + run_size(m.bytes, m.point, limit) >= info.options.min {
            State::Okay
        } else {
            State::Nok
        },
    )
}

/// The outcome of a run of spaces and tabs from its start.  Where there is
/// no space or tab, or none may be taken, nothing is emitted, and the run
/// matches if none is needed.  Else one span is emitted, from the cursor to
/// the place after the spaces and tabs, as far as `max` allows, and the run
/// matches if it has `min` steps.
pub open spec fn start_outcome(m: Model, options: Options) -> (Model, State) {
    if is_space_or_tab(m.current()) && options.max > 0 {
        let entered = m.enter_with_content(options.kind, options.content_type);
        let tied = if options.connect {
            entered.link_last()
        } else {
            entered
        };
        (
            Model { point: run_end(m.bytes, m.point, options.max as int), ..tied }.exit(options.kind),
            if run_size(m.bytes, m.point, options.max as int) >= options.min {
                State::Okay
            } else {
                State::Nok
            },
        )
    } else {
        (
            m,
            if options.min == 0 {
                State::Okay
            } else {
                State::Nok
            },
        )
    }
}

/// A run of spaces and tabs takes no more steps than it may.
pub proof fn lemma_run_size_bounds(bytes: Seq<u8>, point: Point, limit: int)
    ensures
        0 <= run_size(bytes, point, limit),
        limit >= 0 ==> run_size(bytes, point, limit) <= limit,
        at_space(bytes, point) && limit > 0 ==> run_size(bytes, point, limit) >= 1,
    decreases steps_left(bytes, point),
{
    if limit > 0 && at_space(bytes, point) {
        lemma_point_after(bytes, point);
        lemma_run_size_bounds(bytes, point_after(bytes, point), limit - 1);
    }
}

/// A run of spaces and tabs ends where there is no space or tab, or where
/// it has as many steps as it may.
pub proof fn lemma_run_end(bytes: Seq<u8>, point: Point, limit: int)
    requires
        point_valid(bytes, point),
    ensures
        point_valid(bytes, run_end(bytes, point, limit)),
        run_end(bytes, point, limit).index >= point.index,
        steps_left(bytes, run_end(bytes, point, limit)) <= steps_left(bytes, point),
        limit > 0 && at_space(bytes, point) ==> steps_left(bytes, run_end(bytes, point, limit)) < steps_left(
            bytes,
            point,
        ),
        !is_space_or_tab(byte_at(bytes, run_end(bytes, point, limit))) || run_size(bytes, point, limit)
            == limit || limit < 0,
    decreases steps_left(bytes, point),
{
    if limit > 0 && at_space(bytes, point) {
        lemma_point_after(bytes, point);
        lemma_run_end(bytes, point_after(bytes, point), limit - 1);
    }
}

/// The machine, entered in a run of spaces and tabs, takes the spaces and
/// tabs that follow, as far as `max` allows, and closes the span.
pub proof fn law_space_or_tab_inside(m: Model, info: Info)
    requires
        point_valid(m.bytes, m.point),
        info.size <= info.options.max,
    ensures
        run_model(StateName::SpaceOrTabInside(info), m) == inside_outcome(m, info),
    decreases m.steps_left(),
{
    let limit = info.options.max - info.size;
    if is_space_or_tab(m.current()) && info.size < info.options.max {
        lemma_point_after(m.bytes, m.point);
        let next = Info { size: (info.size + 1) as usize, ..info };
        law_space_or_tab_inside(m.consume(), next);
        assert(step_model(StateName::SpaceOrTabInside(info), m) == (
            m.consume(),
            State::Next(StateName::SpaceOrTabInside(next)),
        ));
        assert(run_model(StateName::SpaceOrTabInside(info), m) == run_model(
            StateName::SpaceOrTabInside(next),
            m.consume(),
        ));
        assert(run_end(m.bytes, m.point, limit) == run_end(m.bytes, m.consume().point, limit - 1));
        assert(run_size(m.bytes, m.point, limit) == 1 + run_size(m.bytes, m.consume().point, limit - 1));
        assert(Model { point: run_end(m.bytes, m.point, limit), ..m } == Model {
            point: run_end(m.bytes, m.consume().point, limit - 1),
            ..m.consume()
        });
    } else {
        assert(Model { point: m.point, ..m } == m);
        assert(step_model(StateName::SpaceOrTabInside(info), m).0 == m.exit(info.options.kind));
        assert(run_model(StateName::SpaceOrTabInside(info), m) == step_model(
            StateName::SpaceOrTabInside(info),
            m,
        ));
        assert(run_size(m.bytes, m.point, limit) == 0);
        assert(run_end(m.bytes, m.point, limit) == m.point);
    }
}

/// A run of spaces and tabs takes between `min` and `max` steps; it emits
/// one span if it takes any and none otherwise, and it matches if and only
/// if `min` steps could be taken.
pub proof fn law_space_or_tab(m: Model, options: Options)
    requires
        point_valid(m.bytes, m.point),
    ensures
        run_model(StateName::SpaceOrTabStart(options), m) == start_outcome(m, options),
{
    if is_space_or_tab(m.current()) && options.max > 0 {
        let entered = m.enter_with_content(options.kind, options.content_type);
        let tied = if options.connect {
            entered.link_last()
        } else {
            entered
        };
        let info = Info { size: 1, options };
        lemma_point_after(m.bytes, m.point);
        law_space_or_tab_inside(tied.consume(), info);
        assert(step_model(StateName::SpaceOrTabStart(options), m) == (
            tied.consume(),
            State::Next(StateName::SpaceOrTabInside(info)),
        ));
        assert(run_model(StateName::SpaceOrTabStart(options), m) == run_model(
            StateName::SpaceOrTabInside(info),
            tied.consume(),
        ));
        assert(tied.point == m.point && tied.bytes == m.bytes);
        assert(run_end(m.bytes, m.point, options.max as int) == run_end(
            m.bytes,
            tied.consume().point,
            options.max - 1,
        ));
        assert(run_size(m.bytes, m.point, options.max as int) == 1 + run_size(
            m.bytes,
            tied.consume().point,
            options.max - 1,
        ));
        assert(Model { point: run_end(m.bytes, m.point, options.max as int), ..tied } == Model {
            point: run_end(m.bytes, tied.consume().point, options.max - 1),
            ..tied.consume()
        });
    } else {
        assert(run_model(StateName::SpaceOrTabStart(options), m) == step_model(
            StateName::SpaceOrTabStart(options),
            m,
        ));
    }
}

/// A line is blank if and only if nothing but the end of the line follows
/// its spaces and tabs.
pub proof fn law_blank_line(m: Model)
    requires
        point_valid(m.bytes, m.point),
    ensures
        run_model(StateName::BlankLineStart, m).1 == if is_eol(
            byte_at(m.bytes, run_end(m.bytes, m.point, usize::MAX as int)),
        ) {
            State::Okay
        } else {
            State::Nok
        },
{
    let options = space_or_tab_model()->SpaceOrTabStart_0;
    law_space_or_tab(m, options);
    lemma_run_size_bounds(m.bytes, m.point, usize::MAX as int);
    lemma_run_end(m.bytes, m.point, usize::MAX as int);
    let after = attempted(m, run_model(space_or_tab_model(), m)).0;
    assert(run_end(m.bytes, m.point, usize::MAX as int) == m.point || is_space_or_tab(m.current()));
    assert(after.bytes == m.bytes);
    assert(after.point == run_end(m.bytes, m.point, usize::MAX as int));
    assert(step_model(StateName::BlankLineStart, m) == blank_line::after_model(after));
}

} // verus!
