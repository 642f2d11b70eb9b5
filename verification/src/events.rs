//! Events of a line as the editor makes and changes them.
//!
//! Values are single-precision bits, times are in ticks.

use vstd::prelude::*;

use vstd::arithmetic::div_mod::{lemma_mod_multiples_vanish, lemma_small_mod};

use crate::beats::{
    in_reach, law_on_grid_stays, law_snap_is_nearest, nearest, new_event_span, nudge_event, snap_beat,
    snapped, BEAT, FARTHEST,
};
use crate::editor::EventEdit;
use crate::floats::nan32;
use crate::panels::next_event_easing;
use crate::renderer::ONE;
use crate::scripting::{bezier_points, BadOp};

verus! {

/// The bits of minus one.
pub const MINUS_ONE: u32 = 0xBF80_0000;

/// An event: a value that goes from `start` to `end` in a span of time.
#[derive(Clone, Copy, Debug)]
pub struct Event {
    pub start: u32,
    pub end: u32,
    pub start_time: i64,
    pub end_time: i64,
    pub easing_type: i32,
    pub easing_left: u32,
    pub easing_right: u32,
    pub bezier: u8,
    pub bezier_points: [u32; 4],
}

/// No control points.
pub open spec fn no_points() -> [u32; 4] {
    [0u32, 0u32, 0u32, 0u32]
}

/// A new event at the place on the grid that is nearest to `beat`, but not before the chart: it goes
/// from zero to one in a step of the grid.
pub fn new_event(beat: i64, grid: i64) -> (r: Event)
    requires
        0 < grid <= BEAT,
        in_reach(beat as int),
    ensures
        r == (Event {
            start: 0,
            end: ONE,
            start_time: snapped(beat as int, grid as int, 0) as i64,
            end_time: (snapped(beat as int, grid as int, 0) + grid) as i64,
            easing_type: 1,
            easing_left: 0,
            easing_right: ONE,
            bezier: 0,
            bezier_points: no_points(),
        }),
        r.start_time >= 0,
        r.start_time as int % grid as int == 0,
        beat >= 0 ==> -grid <= 2 * (r.start_time - beat) <= grid,
        r.end_time - r.start_time == grid,
        r.start == 0,
        r.end == 0x3F80_0000,
{
    proof {
        lemma_snapped_fits(beat as int, grid as int);
    }
    let (start_time, end_time): (i64, i64) = new_event_span(beat, grid);
    Event {
        start: 0,
        end: ONE,
        start_time,
        end_time,
        easing_type: 1,
        easing_left: 0,
        easing_right: ONE,
        bezier: 0,
        bezier_points: [0, 0, 0, 0],
    }
}

/// A value between minus one and one. What is no number counts as one.
pub open spec fn within_one(b: u32) -> u32 {
    if nan32(b) || ONE < b < 0x8000_0000 {
        ONE
    } else if b > MINUS_ONE {
        MINUS_ONE
    } else {
        b
    }
}

/// A value cut to the range from minus one to one.
pub fn clamp_one(b: u32) -> (r: u32)
    ensures
        r == within_one(b),
{
    if b % 0x8000_0000 > 0x7F80_0000 || (ONE < b && b < 0x8000_0000) {
        ONE
    } else if b > MINUS_ONE {
        MINUS_ONE
    } else {
        b
    }
}

/// Law: a value in the range stays.
pub proof fn law_within_one_twice(b: u32)
    ensures
        within_one(within_one(b)) == within_one(b),
{
}

/// An event after a key. A time goes a step of the grid on or back and is put on the grid; a value
/// becomes `stepped`, which is what it is one step farther, inside its range; the easing goes to
/// the next or the one before.
pub open spec fn edited(e: Event, what: EventEdit, grid: int, stepped: u32) -> Event {
    match what {
        EventEdit::Start(on) => Event {
            start_time: snapped(
                e.start_time + (if on {
                    grid
                } else {
                    -grid
                }),
                grid,
                0,
            ) as i64,
            ..e
        },
        EventEdit::End(on) => Event {
            end_time: snapped(
                e.end_time + (if on {
                    grid
                } else {
                    -grid
                }),
                grid,
                0,
            ) as i64,
            ..e
        },
        EventEdit::StartValue(_) => Event { start: within_one(stepped), ..e },
        EventEdit::EndValue(_) => Event { end: within_one(stepped), ..e },
        EventEdit::Easing(up) => Event {
            easing_type: (if up {
                if e.easing_type >= 5 {
                    5int
                } else {
                    e.easing_type + 1
                }
            } else if e.easing_type <= 0 {
                0
            } else {
                e.easing_type - 1
            }) as i32,
            ..e
        },
        EventEdit::Same => e,
    }
}

/// Changes an event as a key asks for.
pub fn edit_event(e: Event, what: EventEdit, grid: i64, stepped: u32) -> (r: Event)
    requires
        0 < grid <= BEAT,
        in_reach(e.start_time - grid),
        in_reach(e.start_time + grid),
        in_reach(e.end_time - grid),
        in_reach(e.end_time + grid),
        i32::MIN < e.easing_type < i32::MAX,
    ensures
        r == edited(e, what, grid as int, stepped),
{
    match what {
        EventEdit::Start(on) => {
            let at: i64 = if on {
                e.start_time + grid
            } else {
                e.start_time - grid
            };
            Event { start_time: snap_beat(at, grid, 0), ..e }
        },
        EventEdit::End(on) => {
            let at: i64 = if on {
                e.end_time + grid
            } else {
                e.end_time - grid
            };
            Event { end_time: snap_beat(at, grid, 0), ..e }
        },
        EventEdit::StartValue(_) => Event { start: clamp_one(stepped), ..e },
        EventEdit::EndValue(_) => Event { end: clamp_one(stepped), ..e },
        EventEdit::Easing(up) => Event { easing_type: next_event_easing(e.easing_type, up), ..e },
        EventEdit::Same => e,
    }
}

/// An event of a group that was moved by `offset`: both of its ends on the grid.
pub fn move_event(e: Event, offset: i64, grid: i64) -> (r: Event)
    requires
        0 < grid <= FARTHEST,
        in_reach(e.start_time + offset),
        in_reach(e.end_time + offset),
    ensures
        r == (Event {
            start_time: snapped(e.start_time + offset, grid as int, 0) as i64,
            end_time: snapped(e.end_time + offset, grid as int, 0) as i64,
            ..e
        }),
        r.start == e.start,
        r.end == e.end,
        r.easing_type == e.easing_type,
        r.start_time >= 0,
        r.end_time >= 0,
        (e.start_time + offset) % grid as int == 0 && e.start_time + offset >= 0 ==> r.start_time
            == e.start_time + offset,
        (e.end_time + offset) % grid as int == 0 && e.end_time + offset >= 0 ==> r.end_time
            == e.end_time + offset,
{
    proof {
        law_on_grid_stays(e.start_time + offset, grid as int);
        law_on_grid_stays(e.end_time + offset, grid as int);
    }
    let (start_time, end_time): (i64, i64) = nudge_event(e.start_time, e.end_time, offset, grid);
    Event { start_time, end_time, ..e }
}

/// An event as a script makes it: with four control points, or none.
pub fn script_event(plain: Event, points: &Option<Vec<u32>>) -> (r: Result<Event, BadOp>)
    ensures
        match r {
            Ok(e) => {
                &&& e == (Event { bezier_points: e.bezier_points, ..plain })
                &&& match *points {
                    Some(v) => v@.len() == 4 && e.bezier_points@ == v@,
                    None => e.bezier_points@ == seq![0u32, 0u32, 0u32, 0u32],
                }
            },
            Err(b) => b == BadOp::BezierPoints && (*points matches Some(v) && v@.len() != 4),
        },
{
    match bezier_points(points) {
        Ok(p) => Ok(Event { bezier_points: p, ..plain }),
        Err(b) => Err(b),
    }
}

/// Whether single-precision bits are a number from minus one to one.
pub open spec fn is_small(b: u32) -> bool {
    b <= 0x3F80_0000 || 0x8000_0000 <= b <= 0xBF80_0000
}

/// Law: a key for the last value makes the stepped value the last one wherever that is between minus one
/// and one, and one or minus one where it is beyond; nothing else of the event changes.
pub proof fn law_end_value_only(e: Event, on: bool, grid: int, stepped: u32)
    ensures
        ({
            let r = edited(e, EventEdit::EndValue(on), grid, stepped);
            &&& is_small(stepped) ==> r.end == stepped
            &&& 0x3F80_0000 < stepped < 0x8000_0000 ==> r.end == 0x3F80_0000
            &&& 0xBF80_0000 < stepped <= 0xFF80_0000 ==> r.end == 0xBF80_0000
            &&& r.start == e.start
            &&& r.start_time == e.start_time
            &&& r.end_time == e.end_time
            &&& r.easing_type == e.easing_type
            &&& r.easing_left == e.easing_left
            &&& r.easing_right == e.easing_right
            &&& r.bezier == e.bezier
            &&& r.bezier_points == e.bezier_points
        }),
{
}

/// Law: a key for the first value makes the stepped value the first one wherever that is between minus one
/// and one, and one or minus one where it is beyond; nothing else of the event changes.
pub proof fn law_start_value_only(e: Event, on: bool, grid: int, stepped: u32)
    ensures
        ({
            let r = edited(e, EventEdit::StartValue(on), grid, stepped);
            &&& is_small(stepped) ==> r.start == stepped
            &&& 0x3F80_0000 < stepped < 0x8000_0000 ==> r.start == 0x3F80_0000
            &&& 0xBF80_0000 < stepped <= 0xFF80_0000 ==> r.start == 0xBF80_0000
            &&& r.end == e.end
            &&& r.start_time == e.start_time
            &&& r.end_time == e.end_time
            &&& r.easing_type == e.easing_type
            &&& r.easing_left == e.easing_left
            &&& r.easing_right == e.easing_right
            &&& r.bezier == e.bezier
            &&& r.bezier_points == e.bezier_points
        }),
{
}

/// Law: a value that goes into an event is always between minus one and one.
pub proof fn law_values_stay_small(e: Event, on: bool, grid: int, stepped: u32)
    ensures
        is_small(edited(e, EventEdit::StartValue(on), grid, stepped).start),
        is_small(edited(e, EventEdit::EndValue(on), grid, stepped).end),
{
}

/// Law: a key for the first beat puts it on the grid, not before the chart, no farther than half a step
/// from the place one step later or earlier. Of the event nothing else changes.
pub proof fn law_start_goes_a_step(e: Event, on: bool, grid: int, stepped: u32)
    requires
        0 < grid <= BEAT,
        in_reach(e.start_time - grid),
        in_reach(e.start_time + grid),
    ensures
        ({
            let r = edited(e, EventEdit::Start(on), grid, stepped);
            let to = if on {
                e.start_time + grid
            } else {
                e.start_time - grid
            };
            &&& r.start_time as int % grid == 0
            &&& r.start_time >= 0
            &&& to >= 0 ==> -grid <= 2 * (r.start_time - to) <= grid
            &&& to <= 0 ==> r.start_time == 0
            &&& r == Event { start_time: r.start_time, ..e }
        }),
{
    let to = if on {
        e.start_time + grid
    } else {
        e.start_time - grid
    };
    lemma_snapped_fits(to, grid);
}

/// Law: a key for the last beat puts it on the grid, not before the chart, no farther than half a step
/// from the place one step later or earlier. Of the event nothing else changes.
pub proof fn law_end_goes_a_step(e: Event, on: bool, grid: int, stepped: u32)
    requires
        0 < grid <= BEAT,
        in_reach(e.end_time - grid),
        in_reach(e.end_time + grid),
    ensures
        ({
            let r = edited(e, EventEdit::End(on), grid, stepped);
            let to = if on {
                e.end_time + grid
            } else {
                e.end_time - grid
            };
            &&& r.end_time as int % grid == 0
            &&& r.end_time >= 0
            &&& to >= 0 ==> -grid <= 2 * (r.end_time - to) <= grid
            &&& to <= 0 ==> r.end_time == 0
            &&& r == Event { end_time: r.end_time, ..e }
        }),
{
    let to = if on {
        e.end_time + grid
    } else {
        e.end_time - grid
    };
    lemma_snapped_fits(to, grid);
}

proof fn lemma_snapped_fits(to: int, grid: int)
    requires
        0 < grid <= BEAT,
        in_reach(to),
    ensures
        snapped(to, grid, 0) as i64 == snapped(to, grid, 0),
        snapped(to, grid, 0) % grid == 0,
        snapped(to, grid, 0) >= 0,
        to >= 0 ==> -grid <= 2 * (snapped(to, grid, 0) - to) <= grid,
        to <= 0 ==> snapped(to, grid, 0) == 0,
{
    law_snap_is_nearest(to, grid);
    if to <= 0 {
        let n = nearest(to, grid);
        assert(n <= 0) by (nonlinear_arith)
            requires
                grid > 0,
                to <= 0,
                n == nearest(to, grid),
                n == -((2 * -to + grid) / (2 * grid) * grid) || (to == 0 && n == (2 * to + grid) / (2
                    * grid) * grid),
        ;
        if to == 0 {
            assert((2 * to + grid) / (2 * grid) == 0) by (nonlinear_arith)
                requires
                    to == 0,
                    grid > 0,
            ;
        }
    } else {
        let n = nearest(to, grid);
        assert(n >= 0) by (nonlinear_arith)
            requires
                grid > 0,
                to >= 0,
                n == (2 * to + grid) / (2 * grid) * grid,
        ;
    }
    lemma_small_mod(0, grid as nat);
}

/// Law: from a place on the grid a step on and a step back lead to the same place again.
pub proof fn law_step_and_back(e: Event, grid: int, stepped: u32)
    requires
        0 < grid <= BEAT,
        e.start_time as int % grid == 0,
        e.end_time as int % grid == 0,
        0 <= e.start_time,
        0 <= e.end_time,
        in_reach(e.start_time + 2 * grid),
        in_reach(e.end_time + 2 * grid),
    ensures
        ({
            let on = edited(e, EventEdit::Start(true), grid, stepped);
            &&& on.start_time == e.start_time + grid
            &&& edited(on, EventEdit::Start(false), grid, stepped).start_time == e.start_time
        }),
        ({
            let on = edited(e, EventEdit::End(true), grid, stepped);
            &&& on.end_time == e.end_time + grid
            &&& edited(on, EventEdit::End(false), grid, stepped).end_time == e.end_time
        }),
{
    law_on_grid_stays(e.start_time as int, grid);
    law_on_grid_stays(e.end_time as int, grid);
    lemma_mod_multiples_vanish(1, e.start_time as int, grid);
    lemma_mod_multiples_vanish(1, e.end_time as int, grid);
    law_on_grid_stays(e.start_time + grid, grid);
    law_on_grid_stays(e.end_time + grid, grid);
}

/// Law: a key for the easing goes to the next number or the one before, never past the sixth nor before
/// the first; and a step up that was made is undone by a step down. Nothing else changes.
pub proof fn law_easing_goes_by_one(e: Event, up: bool, grid: int, stepped: u32)
    requires
        0 <= e.easing_type <= 5,
    ensures
        ({
            let r = edited(e, EventEdit::Easing(up), grid, stepped);
            &&& 0 <= r.easing_type <= 5
            &&& up && e.easing_type < 5 ==> r.easing_type == e.easing_type + 1
            &&& !up && e.easing_type > 0 ==> r.easing_type == e.easing_type - 1
            &&& r == Event { easing_type: r.easing_type, ..e }
            &&& up && e.easing_type < 5 ==> edited(
                r,
                EventEdit::Easing(false),
                grid,
                stepped,
            ).easing_type == e.easing_type
        }),
        edited(e, EventEdit::Same, grid, stepped) == e,
{
}

} // verus!
