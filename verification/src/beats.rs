//! Beats: places on the grid, and groups of notes that move together.

use vstd::arithmetic::div_mod::{lemma_fundamental_div_mod, lemma_mod_multiples_basic};
use vstd::prelude::*;

verus! {

/// Places in beats are held as whole ticks, of which a beat has this many. Every grid that the
/// editor offers is a whole number of ticks, so places on it are exact.
pub const BEAT: i64 = 0x1_0000_0000;

/// The largest place that is worked with, in ticks, on both sides of zero.
pub const FARTHEST: i64 = 0x1000_0000_0000_0000;

/// A playhead no farther than this, a billionth of a beat, is at the start.
pub const AT_START: i64 = 4;

/// Whether a place can be worked with.
pub open spec fn in_reach(t: int) -> bool {
    -FARTHEST <= t <= FARTHEST
}

/// The place on a grid that is nearest; of two as near, the one farther from zero.
pub open spec fn nearest(t: int, grid: int) -> int {
    if t >= 0 {
        (2 * t + grid) / (2 * grid) * grid
    } else {
        -((2 * -t + grid) / (2 * grid) * grid)
    }
}

/// The nearest place on the grid that is not before `least`, else `least`.
pub open spec fn snapped(t: int, grid: int, least: int) -> int {
    if nearest(t, grid) < least {
        least
    } else {
        nearest(t, grid)
    }
}

/// Law: the place on the grid is on the grid, and no farther than half a step.
pub proof fn law_snap_is_nearest(t: int, grid: int)
    requires
        grid > 0,
    ensures
        nearest(t, grid) % grid == 0,
        2 * (nearest(t, grid) - t) <= grid,
        2 * (t - nearest(t, grid)) <= grid,
{
    let a = if t >= 0 {
        t
    } else {
        -t
    };
    let q = (2 * a + grid) / (2 * grid);
    assert(2 * a + grid == 2 * grid * q + (2 * a + grid) % (2 * grid) && 0 <= (2 * a + grid) % (2
        * grid) < 2 * grid) by (nonlinear_arith)
        requires
            grid > 0,
            q == (2 * a + grid) / (2 * grid),
    ;
    assert(2 * grid * q == 2 * (q * grid)) by (nonlinear_arith);
    lemma_mod_multiples_basic(q, grid);
    assert(-(q * grid) == (-q) * grid) by (nonlinear_arith);
    lemma_mod_multiples_basic(-q, grid);
}

/// Law: what is on the grid stays there.
pub proof fn law_snap_twice(t: int, grid: int)
    requires
        grid > 0,
    ensures
        nearest(nearest(t, grid), grid) == nearest(t, grid),
{
    let b = if t >= 0 {
        t
    } else {
        -t
    };
    let k = (2 * b + grid) / (2 * grid);
    let a = k * grid;
    assert(k >= 0) by (nonlinear_arith)
        requires
            grid > 0,
            b >= 0,
            k == (2 * b + grid) / (2 * grid),
    ;
    assert(a >= 0) by (nonlinear_arith)
        requires
            grid > 0,
            k >= 0,
            a == k * grid,
    ;
    assert((2 * a + grid) / (2 * grid) == k) by (nonlinear_arith)
        requires
            grid > 0,
            a == k * grid,
            a >= 0,
    ;
}

/// The nearest place on the grid that is not before `least`.
pub fn snap_beat(t: i64, grid: i64, least: i64) -> (r: i64)
    requires
        0 < grid <= FARTHEST,
        in_reach(t as int),
    ensures
        r == snapped(t as int, grid as int, least as int),
{
    let g: i128 = grid as i128;
    let a: i128 = if t >= 0 {
        t as i128
    } else {
        -(t as i128)
    };
    let q: i128 = (2 * a + g) / (2 * g);
    proof {
        law_snap_is_nearest(t as int, grid as int);
        assert(0 <= q <= 2 * a + g) by (nonlinear_arith)
            requires
                a >= 0,
                g > 0,
                q == (2 * a + g) / (2 * g),
        ;
        assert(q * g <= 2 * a + g) by (nonlinear_arith)
            requires
                a >= 0,
                g > 0,
                q == (2 * a + g) / (2 * g),
        ;
        assert(q * g >= 0) by (nonlinear_arith)
            requires
                q >= 0,
                g > 0,
        ;
    }
    let p: i128 = q * g;
    let n: i64 = if t >= 0 {
        p as i64
    } else {
        (-p) as i64
    };
    if n < least {
        least
    } else {
        n
    }
}

/// Where notes are pasted or placed: at the playhead, or where that is at the start at the
/// selected note, else at the start; on the grid.
pub open spec fn target_beat(playhead: int, grid: int, note: Option<i64>) -> int {
    if playhead > AT_START {
        snapped(playhead, grid, 0)
    } else if note is Some {
        snapped(note->0 as int, grid, 0)
    } else {
        0
    }
}

/// Where notes are pasted or placed.
pub fn resolve_target_beat(playhead: i64, grid: i64, note: Option<i64>) -> (r: i64)
    requires
        0 < grid <= FARTHEST,
        in_reach(playhead as int),
        note matches Some(n) ==> in_reach(n as int),
    ensures
        r == target_beat(playhead as int, grid as int, note),
{
    if playhead > AT_START {
        return snap_beat(playhead, grid, 0);
    }
    match note {
        Some(n) => snap_beat(n, grid, 0),
        None => 0,
    }
}

/// When a note is: its first and its last tick, and its kind, of which `HOLD` is one.
#[derive(Clone, Copy, PartialEq, Eq, Structural, Debug)]
pub struct NoteTime {
    pub start: i64,
    pub end: i64,
    pub kind: u8,
}

/// The kind of note that is held down.
pub const HOLD: u8 = 2;

/// Whether all of a note's times can be worked with.
pub open spec fn notes_in_reach(notes: Seq<NoteTime>) -> bool {
    forall|i: int|
        0 <= i < notes.len() ==> in_reach((#[trigger] notes[i]).start as int) && in_reach(
            notes[i].end as int,
        )
}

/// Whether `first` is the earliest start of the notes.
pub open spec fn is_earliest(notes: Seq<NoteTime>, first: int) -> bool {
    &&& exists|i: int| 0 <= i < notes.len() && (#[trigger] notes[i]).start == first
    &&& forall|i: int| 0 <= i < notes.len() ==> first <= (#[trigger] notes[i]).start
}

/// A note that was moved by `offset`. An end that is not past the start of the chart stays.
pub open spec fn pasted(n: NoteTime, offset: int) -> NoteTime {
    NoteTime {
        start: (n.start + offset) as i64,
        end: if n.end > 0 {
            (n.end + offset) as i64
        } else {
            n.end
        },
        kind: n.kind,
    }
}

/// Law: pasting keeps the distances between the notes and their lengths, and puts the earliest
/// at the anchor. `first` is where the earliest note was.
pub proof fn law_paste_keeps_distances(notes: Seq<NoteTime>, anchor: int, first: int, i: int, j: int)
    requires
        notes_in_reach(notes),
        in_reach(anchor),
        is_earliest(notes, first),
        0 <= i < notes.len(),
        0 <= j < notes.len(),
    ensures
        pasted(notes[i], anchor - first).start - pasted(notes[j], anchor - first).start
            == notes[i].start - notes[j].start,
        notes[i].start == first ==> pasted(notes[i], anchor - first).start == anchor,
        pasted(notes[i], anchor - first).start >= anchor,
        notes[i].end > 0 ==> pasted(notes[i], anchor - first).end - pasted(
            notes[i],
            anchor - first,
        ).start == notes[i].end - notes[i].start,
        notes[i].end <= 0 ==> pasted(notes[i], anchor - first).end == notes[i].end,
        pasted(notes[i], anchor - first).kind == notes[i].kind,
{
}

/// A place that is not before the start of the chart.
pub open spec fn from_start(t: int) -> int {
    if t < 0 {
        0
    } else {
        t
    }
}

/// A note that was moved by `offset` without leaving the chart: it does not start before the
/// chart, nor end before it starts.
pub open spec fn moved(n: NoteTime, offset: int) -> NoteTime {
    let start = from_start(n.start + offset);
    NoteTime {
        start: start as i64,
        end: (if n.end + offset < start {
            start
        } else {
            n.end + offset
        }) as i64,
        kind: n.kind,
    }
}

/// A note that was moved by `offset`, inside the chart.
pub fn move_note(n: NoteTime, offset: i64) -> (r: NoteTime)
    requires
        in_reach(n.start as int),
        in_reach(n.end as int),
        -2 * FARTHEST <= offset <= 2 * FARTHEST,
    ensures
        r == moved(n, offset as int),
{
    let s: i64 = n.start + offset;
    let start: i64 = if s < 0 {
        0
    } else {
        s
    };
    let e: i64 = n.end + offset;
    let end: i64 = if e < start {
        start
    } else {
        e
    };
    NoteTime { start, end, kind: n.kind }
}

/// The notes of a line that a nudge reaches: those of `chosen` that the line has, each moved by
/// `offset`, with its index, in the order of the choice.
pub open spec fn nudged(notes: Seq<NoteTime>, chosen: Seq<usize>, offset: int) -> Seq<
    (usize, NoteTime),
>
    decreases chosen.len(),
{
    if chosen.len() == 0 {
        Seq::empty()
    } else {
        let rest = nudged(notes, chosen.drop_last(), offset);
        if chosen.last() < notes.len() {
            rest.push((chosen.last(), moved(notes[chosen.last() as int], offset)))
        } else {
            rest
        }
    }
}

/// What a nudge of the chosen notes changes.
pub fn nudge_selected(notes: &[NoteTime], chosen: &[usize], offset: i64) -> (r: Vec<
    (usize, NoteTime),
>)
    requires
        notes_in_reach(notes@),
        in_reach(offset as int),
    ensures
        r@ == nudged(notes@, chosen@, offset as int),
{
    let mut r: Vec<(usize, NoteTime)> = Vec::new();
    let mut i: usize = 0;
    while i < chosen.len()
        invariant
            i <= chosen.len(),
            notes_in_reach(notes@),
            in_reach(offset as int),
            r@ == nudged(notes@, chosen@.take(i as int), offset as int),
        decreases chosen.len() - i,
    {
        assert(chosen@.take(i + 1).drop_last() == chosen@.take(i as int));
        let c: usize = chosen[i];
        if c < notes.len() {
            assert(in_reach(notes@[c as int].start as int));
            r.push((c, move_note(notes[c], offset)));
        }
        i = i + 1;
    }
    assert(chosen@.take(chosen@.len() as int) == chosen@);
    r
}

/// Law: a nudge back undoes a nudge, for notes that stay clear of the start of the chart.
pub proof fn law_nudge_back(n: NoteTime, offset: int)
    requires
        in_reach(n.start as int),
        in_reach(n.end as int),
        in_reach(offset),
        0 <= n.start <= n.end,
        n.start + offset >= 0,
    ensures
        moved(moved(n, offset), -offset) == n,
{
}

/// Law: wherever a note is moved, it starts in the chart and does not end before it starts.
pub proof fn law_moved_stays_in_chart(n: NoteTime, offset: int)
    requires
        in_reach(n.start as int),
        in_reach(n.end as int),
        -2 * FARTHEST <= offset <= 2 * FARTHEST,
    ensures
        0 <= moved(n, offset).start <= moved(n, offset).end,
{
}

/// What is shown of a group of notes that is being dragged: each moved by `offset`; a held note
/// that is dragged alone lasts one beat.
pub open spec fn previewed(set: Seq<(usize, NoteTime)>, offset: int) -> Seq<(usize, NoteTime)> {
    set.map_values(
        |p: (usize, NoteTime)|
            (
                p.0,
                NoteTime {
                    start: (p.1.start + offset) as i64,
                    end: (if set.len() == 1 && p.1.kind == HOLD {
                        p.1.start + offset + BEAT
                    } else {
                        p.1.end + offset
                    }) as i64,
                    kind: p.1.kind,
                },
            ),
    )
}

/// What a group of notes becomes when it is dropped after a drag by `offset`: a note that was
/// dragged alone lasts one beat where it is held, else no time; the notes of a group keep their
/// lengths.
pub open spec fn dropped(set: Seq<(usize, NoteTime)>, offset: int) -> Seq<(usize, NoteTime)> {
    set.map_values(
        |p: (usize, NoteTime)|
            (
                p.0,
                if set.len() == 1 {
                    NoteTime {
                        start: (p.1.start + offset) as i64,
                        end: (p.1.start + offset + if p.1.kind == HOLD {
                            BEAT as int
                        } else {
                            0
                        }) as i64,
                        kind: p.1.kind,
                    }
                } else {
                    moved(p.1, offset)
                },
            ),
    )
}

/// Whether all notes of a set can be worked with.
pub open spec fn set_in_reach(set: Seq<(usize, NoteTime)>) -> bool {
    forall|i: int|
        0 <= i < set.len() ==> in_reach((#[trigger] set[i]).1.start as int) && in_reach(
            set[i].1.end as int,
        )
}

/// Where the note of that index stands in a set, from `from` on.
pub open spec fn place_in(set: Seq<(usize, NoteTime)>, note: usize, from: int) -> Option<int>
    decreases set.len() - from,
{
    if from < 0 || from >= set.len() {
        None
    } else if set[from].0 == note {
        Some(from)
    } else {
        place_in(set, note, from + 1)
    }
}

fn find_in(set: &[(usize, NoteTime)], note: usize) -> (r: Option<usize>)
    ensures
        (match r {
            Some(i) => Some(i as int),
            None => None,
        }) == place_in(set@, note, 0),
        r matches Some(i) ==> i < set@.len(),
{
    let mut i: usize = 0;
    while i < set.len()
        invariant
            i <= set.len(),
            place_in(set@, note, 0) == place_in(set@, note, i as int),
        decreases set.len() - i,
    {
        if set[i].0 == note {
            return Some(i);
        }
        i = i + 1;
    }
    None
}

/// What a drag of the note `note` takes along: the chosen notes that the line has, and the note
/// itself behind them where it is not one of them.
pub open spec fn drag_set(notes: Seq<NoteTime>, chosen: Seq<usize>, note: usize) -> Seq<
    (usize, NoteTime),
> {
    let set = nudged_all(notes, chosen);
    if place_in(set, note, 0) is None && note < notes.len() {
        set.push((note, notes[note as int]))
    } else {
        set
    }
}

/// The chosen notes that the line has, with their indices, in the order of the choice.
pub open spec fn nudged_all(notes: Seq<NoteTime>, chosen: Seq<usize>) -> Seq<(usize, NoteTime)>
    decreases chosen.len(),
{
    if chosen.len() == 0 {
        Seq::empty()
    } else {
        let rest = nudged_all(notes, chosen.drop_last());
        if chosen.last() < notes.len() {
            rest.push((chosen.last(), notes[chosen.last() as int]))
        } else {
            rest
        }
    }
}

/// The notes that a drag takes along.
pub fn drag_origin(notes: &[NoteTime], chosen: &[usize], note: usize) -> (r: Vec<(usize, NoteTime)>)
    ensures
        r@ == drag_set(notes@, chosen@, note),
{
    let mut r: Vec<(usize, NoteTime)> = Vec::new();
    let mut i: usize = 0;
    while i < chosen.len()
        invariant
            i <= chosen.len(),
            r@ == nudged_all(notes@, chosen@.take(i as int)),
        decreases chosen.len() - i,
    {
        assert(chosen@.take(i + 1).drop_last() == chosen@.take(i as int));
        let c: usize = chosen[i];
        if c < notes.len() {
            r.push((c, notes[c]));
        }
        i = i + 1;
    }
    assert(chosen@.take(chosen@.len() as int) == chosen@);
    let found: Option<usize> = find_in(r.as_slice(), note);
    if found.is_none() && note < notes.len() {
        r.push((note, notes[note]));
    }
    r
}

/// What is shown while a group is dragged by its note `anchor`, which is at `at` now; nothing
/// where the group lacks that note.
pub fn drag_preview(set: &[(usize, NoteTime)], anchor: usize, at: i64) -> (r: Option<
    Vec<(usize, NoteTime)>,
>)
    requires
        set_in_reach(set@),
        in_reach(at as int),
    ensures
        match place_in(set@, anchor, 0) {
            Some(k) => r is Some && r->0@ == previewed(set@, at - set@[k].1.start),
            None => r is None,
        },
{
    let k: usize = match find_in(set, anchor) {
        Some(k) => k,
        None => {
            return None;
        },
    };
    let offset: i64 = at - set[k].1.start;
    let alone: bool = set.len() == 1;
    let mut r: Vec<(usize, NoteTime)> = Vec::new();
    let mut i: usize = 0;
    while i < set.len()
        invariant
            i <= set.len(),
            alone == (set@.len() == 1),
            set_in_reach(set@),
            -2 * FARTHEST <= offset <= 2 * FARTHEST,
            r@ == previewed(set@, offset as int).take(i as int),
        decreases set.len() - i,
    {
        let n: NoteTime = set[i].1;
        let start: i64 = n.start + offset;
        let end: i64 = if alone && n.kind == HOLD {
            start + BEAT
        } else {
            n.end + offset
        };
        r.push((set[i].0, NoteTime { start, end, kind: n.kind }));
        i = i + 1;
    }
    Some(r)
}

/// What a group becomes when it is dropped with its note `anchor` at `at`, which is put on the
/// grid; nothing where the group lacks that note.
pub fn drag_drop(set: &[(usize, NoteTime)], anchor: usize, at: i64, grid: i64) -> (r: Option<
    Vec<(usize, NoteTime)>,
>)
    requires
        set_in_reach(set@),
        in_reach(at as int),
        0 < grid <= BEAT,
    ensures
        match place_in(set@, anchor, 0) {
            Some(k) => r is Some && r->0@ == dropped(
                set@,
                snapped(at as int, grid as int, 0) - set@[k].1.start,
            ),
            None => r is None,
        },
{
    let k: usize = match find_in(set, anchor) {
        Some(k) => k,
        None => {
            return None;
        },
    };
    proof {
        law_snap_is_nearest(at as int, grid as int);
    }
    let b: i64 = snap_beat(at, grid, 0);
    let offset: i64 = b - set[k].1.start;
    let alone: bool = set.len() == 1;
    let mut r: Vec<(usize, NoteTime)> = Vec::new();
    let mut i: usize = 0;
    while i < set.len()
        invariant
            i <= set.len(),
            alone == (set@.len() == 1),
            set_in_reach(set@),
            -2 * FARTHEST <= offset <= 2 * FARTHEST + BEAT,
            r@ == dropped(set@, offset as int).take(i as int),
        decreases set.len() - i,
    {
        let n: NoteTime = set[i].1;
        if alone {
            let start: i64 = n.start + offset;
            let end: i64 = start + if n.kind == HOLD {
                BEAT
            } else {
                0
            };
            r.push((set[i].0, NoteTime { start, end, kind: n.kind }));
        } else {
            let s: i64 = n.start + offset;
            let start: i64 = if s < 0 {
                0
            } else {
                s
            };
            let e: i64 = n.end + offset;
            r.push(
                (
                    set[i].0,
                    NoteTime {
                        start,
                        end: if e < start {
                            start
                        } else {
                            e
                        },
                        kind: n.kind,
                    },
                ),
            );
        }
        i = i + 1;
    }
    Some(r)
}

/// Whether a drop changed the time of a note.
pub open spec fn times_differ(set: Seq<(usize, NoteTime)>, now: Seq<(usize, NoteTime)>) -> bool {
    exists|i: int|
        0 <= i < set.len() && i < now.len() && ((#[trigger] set[i]).1.start != now[i].1.start
            || set[i].1.end != now[i].1.end)
}

/// Whether a drop changed the time of a note. Where it changed neither a time nor a place across,
/// it is not recorded.
pub fn drag_moved(set: &[(usize, NoteTime)], now: &[(usize, NoteTime)]) -> (r: bool)
    ensures
        r == times_differ(set@, now@),
{
    let mut i: usize = 0;
    while i < set.len() && i < now.len()
        invariant
            i <= set.len(),
            i <= now.len(),
            forall|j: int|
                0 <= j < i ==> (#[trigger] set@[j]).1.start == now@[j].1.start && set@[j].1.end
                    == now@[j].1.end,
        decreases set.len() - i,
    {
        if set[i].1.start != now[i].1.start || set[i].1.end != now[i].1.end {
            assert(set@[i as int].1.start != now@[i as int].1.start || set@[i as int].1.end
                != now@[i as int].1.end);
            return true;
        }
        i = i + 1;
    }
    false
}

/// Law: a group that is dropped clear of the start of the chart keeps its distances and lengths.
pub proof fn law_group_drop_keeps_distances(
    set: Seq<(usize, NoteTime)>,
    offset: int,
    i: int,
    j: int,
)
    requires
        set_in_reach(set),
        set.len() > 1,
        -2 * FARTHEST <= offset <= 2 * FARTHEST + BEAT,
        0 <= i < set.len(),
        0 <= j < set.len(),
        set[i].1.start + offset >= 0,
        set[j].1.start + offset >= 0,
        set[i].1.start <= set[i].1.end,
    ensures
        dropped(set, offset)[i].1.start - dropped(set, offset)[j].1.start == set[i].1.start
            - set[j].1.start,
        dropped(set, offset)[i].1.end - dropped(set, offset)[i].1.start == set[i].1.end
            - set[i].1.start,
        dropped(set, offset)[i].0 == set[i].0,
{
    assert(in_reach(set[i].1.start as int) && in_reach(set[j].1.start as int));
    assert(set[i] == set[i] && set[j] == set[j]);
}

/// The last tick of a note that is placed at `start`: a held note lasts until `end`.
pub fn placed_end(kind: u8, start: i64, end: i64) -> (r: i64)
    ensures
        kind == 2 ==> r == end,
        kind != 2 ==> r == start,
        r == (if kind == HOLD {
            end
        } else {
            start
        }),
{
    if kind == HOLD {
        end
    } else {
        start
    }
}

/// How long a new effect lasts before and after the playhead.
pub const EFFECT_REACH: i64 = 0x2_0000_0000;

/// When a new effect begins and ends: around the playhead, which is put on the grid.
pub fn new_effect_span(playhead: i64, grid: i64) -> (r: (i64, i64))
    requires
        0 < grid <= BEAT,
        in_reach(playhead as int),
    ensures
        r.0 == from_start(nearest(playhead as int, grid as int) - EFFECT_REACH),
        r.1 == nearest(playhead as int, grid as int) + EFFECT_REACH,
        0 <= r.0,
        playhead >= 0x2_8000_0000 ==> r.1 - r.0 == 0x4_0000_0000,
        playhead >= 0x2_8000_0000 ==> -grid <= r.0 + r.1 - 2 * playhead <= grid,
{
    proof {
        law_snap_is_nearest(playhead as int, grid as int);
    }
    let at: i64 = snap_beat(playhead, grid, i64::MIN);
    let start: i64 = at - EFFECT_REACH;
    (
        if start < 0 {
            0
        } else {
            start
        },
        at + EFFECT_REACH,
    )
}

/// When a new event begins and ends: at the place that was asked for, which is put on the grid, for
/// one step of the grid.
pub fn new_event_span(beat: i64, grid: i64) -> (r: (i64, i64))
    requires
        0 < grid <= BEAT,
        in_reach(beat as int),
    ensures
        r.0 == snapped(beat as int, grid as int, 0),
        r.1 == r.0 + grid,
{
    proof {
        law_snap_is_nearest(beat as int, grid as int);
    }
    let start: i64 = snap_beat(beat, grid, 0);
    (start, start + grid)
}

/// An event that was moved by `offset`: both of its ends on the grid.
pub fn nudge_event(start: i64, end: i64, offset: i64, grid: i64) -> (r: (i64, i64))
    requires
        0 < grid <= FARTHEST,
        in_reach(start + offset),
        in_reach(end + offset),
    ensures
        r.0 == snapped(start + offset, grid as int, 0),
        r.1 == snapped(end + offset, grid as int, 0),
{
    (snap_beat(start + offset, grid, 0), snap_beat(end + offset, grid, 0))
}

/// Puts what a drag shows over the listed notes: the first of each dragged index, inside the chart.
pub open spec fn overlaid(list: Seq<(usize, NoteTime)>, preview: Seq<(usize, NoteTime)>) -> Seq<
    (usize, NoteTime),
>
    decreases preview.len(),
{
    if preview.len() == 0 {
        list
    } else {
        let rest = overlaid(list, preview.drop_last());
        let p = preview.last();
        match place_in(rest, p.0, 0) {
            Some(k) => rest.update(
                k,
                (
                    p.0,
                    NoteTime {
                        start: from_start(p.1.start as int) as i64,
                        end: from_start(p.1.end as int) as i64,
                        kind: rest[k].1.kind,
                    },
                ),
            ),
            None => rest,
        }
    }
}

/// Puts what a drag shows over the listed notes.
pub fn show_preview(list: &mut Vec<(usize, NoteTime)>, preview: &[(usize, NoteTime)])
    ensures
        final(list)@ == overlaid(old(list)@, preview@),
{
    let ghost before = list@;
    let mut i: usize = 0;
    while i < preview.len()
        invariant
            i <= preview.len(),
            list@ == overlaid(before, preview@.take(i as int)),
        decreases preview.len() - i,
    {
        assert(preview@.take(i + 1).drop_last() == preview@.take(i as int));
        let p: (usize, NoteTime) = preview[i];
        if let Some(k) = find_in(list.as_slice(), p.0) {
            let start: i64 = if p.1.start < 0 {
                0
            } else {
                p.1.start
            };
            let end: i64 = if p.1.end < 0 {
                0
            } else {
                p.1.end
            };
            let kind: u8 = list[k].1.kind;
            list.set(k, (p.0, NoteTime { start, end, kind }));
        }
        i = i + 1;
    }
    assert(preview@.take(preview@.len() as int) == preview@);
}

/// Law: a place on the grid at or behind the start of the chart is its own nearest place.
pub proof fn law_on_grid_stays(t: int, grid: int)
    requires
        grid > 0,
    ensures
        t % grid == 0 ==> nearest(t, grid) == t,
        t % grid == 0 && t >= 0 ==> snapped(t, grid, 0) == t,
{
    if t % grid == 0 {
        law_snap_is_nearest(t, grid);
        let n = nearest(t, grid);
        let a = n / grid;
        let b = t / grid;
        lemma_fundamental_div_mod(n, grid);
        lemma_fundamental_div_mod(t, grid);
        assert(a == b) by (nonlinear_arith)
            requires
                grid > 0,
                n == grid * a,
                t == grid * b,
                2 * (n - t) <= grid,
                2 * (t - n) <= grid,
        ;
    }
}

/// Law: below the start of the chart the grid is the mirror image of that above it, and a place half-way
/// between two on the grid goes to the one farther out.
pub proof fn law_half_way_goes_out(t: int, half: int, k: int)
    requires
        half > 0,
        k >= 0,
    ensures
        nearest(-t, 2 * half) == -nearest(t, 2 * half),
        nearest(2 * half * k + half, 2 * half) == 2 * half * (k + 1),
{
    let g = 2 * half;
    if t == 0 {
        assert((2 * t + g) / (2 * g) == 0) by (nonlinear_arith)
            requires
                t == 0,
                g > 0,
        ;
    }
    let m = g * k + half;
    assert(m >= 0) by (nonlinear_arith)
        requires
            m == g * k + half,
            half > 0,
            k >= 0,
            g == 2 * half,
    ;
    assert((2 * m + g) / (2 * g) == k + 1) by (nonlinear_arith)
        requires
            m == g * k + half,
            g == 2 * half,
            half > 0,
    ;
    assert((k + 1) * g == 2 * half * (k + 1)) by (nonlinear_arith)
        requires
            g == 2 * half,
    ;
}

/// Law: notes go to the playhead where it is past the start, else to the chosen note, else to the start;
/// in each case on the grid, not before the chart and no farther than half a step.
pub proof fn law_target_beat(playhead: int, grid: int, note: Option<i64>)
    requires
        grid > 0,
        note matches Some(n) ==> n >= 0,
    ensures
        ({
            let r = target_beat(playhead, grid, note);
            &&& playhead > 4 ==> -grid <= 2 * (r - playhead) <= grid
            &&& playhead <= 4 && note is Some ==> -grid <= 2 * (r - note->0) <= grid
            &&& playhead <= 4 && note is None ==> r == 0
            &&& r >= 0
            &&& r % grid == 0
        }),
{
    law_snap_is_nearest(playhead, grid);
    vstd::arithmetic::div_mod::lemma_small_mod(0, grid as nat);
    if playhead > 4 {
        lemma_nearest_not_before(playhead, grid);
    }
    if let Some(n) = note {
        law_snap_is_nearest(n as int, grid);
        lemma_nearest_not_before(n as int, grid);
    }
}

proof fn lemma_nearest_not_before(t: int, grid: int)
    requires
        grid > 0,
        t >= 0,
    ensures
        nearest(t, grid) >= 0,
{
    let n = nearest(t, grid);
    assert(n >= 0) by (nonlinear_arith)
        requires
            grid > 0,
            t >= 0,
            n == (2 * t + grid) / (2 * grid) * grid,
    ;
}

/// Law: a note that is moved inside the chart goes by just the offset, start and end, and keeps its kind;
/// one that would start before the chart starts with it.
pub proof fn law_moved_by_the_offset(n: NoteTime, offset: int)
    requires
        in_reach(n.start as int),
        in_reach(n.end as int),
        -2 * FARTHEST <= offset <= 2 * FARTHEST,
        n.start <= n.end,
    ensures
        moved(n, offset).kind == n.kind,
        n.start + offset >= 0 ==> moved(n, offset).start == n.start + offset,
        n.start + offset >= 0 ==> moved(n, offset).end == n.end + offset,
        n.start + offset < 0 ==> moved(n, offset).start == 0,
        n.start + offset < 0 && n.end + offset >= 0 ==> moved(n, offset).end == n.end + offset,
{
}

/// Law: a nudge changes exactly the chosen notes that the line has, each under its own index, in the order
/// of the choice.
pub proof fn law_nudge_reaches_the_chosen(notes: Seq<NoteTime>, chosen: Seq<usize>, offset: int, c: usize)
    ensures
        ({
            let r = nudged(notes, chosen, offset);
            &&& forall|i: int|
                0 <= i < r.len() ==> chosen.contains((#[trigger] r[i]).0) && r[i].0 < notes.len() && r[i].1
                    == moved(notes[r[i].0 as int], offset)
            &&& c < notes.len() && chosen.contains(c) ==> r.contains((c, moved(notes[c as int], offset)))
            &&& r.len() <= chosen.len()
            &&& (forall|i: int| 0 <= i < chosen.len() ==> (#[trigger] chosen[i]) < notes.len()) ==> r.len()
                == chosen.len() && forall|i: int| 0 <= i < r.len() ==> (#[trigger] r[i]).0 == chosen[i]
        }),
    decreases chosen.len(),
{
    if chosen.len() > 0 {
        let less = chosen.drop_last();
        law_nudge_reaches_the_chosen(notes, less, offset, c);
        let b = nudged(notes, less, offset);
        let r = nudged(notes, chosen, offset);
        assert forall|i: int| 0 <= i < r.len() implies chosen.contains((#[trigger] r[i]).0) && r[i].0
            < notes.len() && r[i].1 == moved(notes[r[i].0 as int], offset) by {
            if i < b.len() {
                assert(r[i] == b[i]);
                let k = choose|k: int| 0 <= k < less.len() && less[k] == b[i].0;
                assert(chosen[k] == r[i].0);
            } else {
                assert(chosen[chosen.len() - 1] == r[i].0);
            }
        }
        if c < notes.len() && chosen.contains(c) {
            if chosen.last() == c {
                assert(r[r.len() - 1] == (c, moved(notes[c as int], offset)));
            } else {
                let k = choose|k: int| 0 <= k < chosen.len() && chosen[k] == c;
                assert(less[k] == c);
                let i = choose|i: int| 0 <= i < b.len() && b[i] == (c, moved(notes[c as int], offset));
                assert(r[i] == b[i]);
            }
        }
        if forall|i: int| 0 <= i < chosen.len() ==> (#[trigger] chosen[i]) < notes.len() {
            assert forall|i: int| 0 <= i < less.len() implies (#[trigger] less[i]) < notes.len() by {
                assert(chosen[i] < notes.len());
            }
            assert(chosen[chosen.len() - 1] < notes.len());
            assert forall|i: int| 0 <= i < r.len() implies (#[trigger] r[i]).0 == chosen[i] by {
                if i < b.len() {
                    assert(r[i] == b[i]);
                    assert(less[i] == chosen[i]);
                }
            }
        }
    }
}

proof fn lemma_place_in(set: Seq<(usize, NoteTime)>, note: usize, from: int)
    requires
        0 <= from <= set.len(),
    ensures
        match place_in(set, note, from) {
            Some(k) => from <= k < set.len() && set[k].0 == note && forall|i: int|
                from <= i < k ==> (#[trigger] set[i]).0 != note,
            None => forall|i: int| from <= i < set.len() ==> (#[trigger] set[i]).0 != note,
        },
    decreases set.len() - from,
{
    if from < set.len() && set[from].0 != note {
        lemma_place_in(set, note, from + 1);
    }
}

proof fn lemma_chosen_notes(notes: Seq<NoteTime>, chosen: Seq<usize>, c: usize)
    ensures
        ({
            let r = nudged_all(notes, chosen);
            &&& forall|i: int|
                0 <= i < r.len() ==> chosen.contains((#[trigger] r[i]).0) && r[i].0 < notes.len() && r[i].1
                    == notes[r[i].0 as int]
            &&& c < notes.len() && chosen.contains(c) ==> r.contains((c, notes[c as int]))
        }),
    decreases chosen.len(),
{
    if chosen.len() > 0 {
        let less = chosen.drop_last();
        lemma_chosen_notes(notes, less, c);
        let b = nudged_all(notes, less);
        let r = nudged_all(notes, chosen);
        assert forall|i: int| 0 <= i < r.len() implies chosen.contains((#[trigger] r[i]).0) && r[i].0
            < notes.len() && r[i].1 == notes[r[i].0 as int] by {
            if i < b.len() {
                assert(r[i] == b[i]);
                let k = choose|k: int| 0 <= k < less.len() && less[k] == b[i].0;
                assert(chosen[k] == r[i].0);
            } else {
                assert(chosen[chosen.len() - 1] == r[i].0);
            }
        }
        if c < notes.len() && chosen.contains(c) {
            if chosen.last() == c {
                assert(r[r.len() - 1] == (c, notes[c as int]));
            } else {
                let k = choose|k: int| 0 <= k < chosen.len() && chosen[k] == c;
                assert(less[k] == c);
                let i = choose|i: int| 0 <= i < b.len() && b[i] == (c, notes[c as int]);
                assert(r[i] == b[i]);
            }
        }
    }
}

/// Law: a drag takes along the note that was seized and every chosen note that the line has, as they are,
/// and no other.
pub proof fn law_what_a_drag_takes(notes: Seq<NoteTime>, chosen: Seq<usize>, note: usize, c: usize)
    ensures
        ({
            let r = drag_set(notes, chosen, note);
            &&& note < notes.len() ==> r.contains((note, notes[note as int]))
            &&& c < notes.len() && chosen.contains(c) ==> r.contains((c, notes[c as int]))
            &&& forall|i: int|
                0 <= i < r.len() ==> (#[trigger] r[i]).0 < notes.len() && r[i].1 == notes[r[i].0 as int] && (
                r[i].0 == note || chosen.contains(r[i].0))
        }),
{
    let set = nudged_all(notes, chosen);
    let r = drag_set(notes, chosen, note);
    lemma_chosen_notes(notes, chosen, c);
    lemma_chosen_notes(notes, chosen, note);
    lemma_place_in(set, note, 0);
    if note < notes.len() {
        match place_in(set, note, 0) {
            Some(k) => {
                assert(r[k] == (note, notes[note as int]));
            },
            None => {
                assert(r[r.len() - 1] == (note, notes[note as int]));
                if c < notes.len() && chosen.contains(c) {
                    let i = choose|i: int| 0 <= i < set.len() && set[i] == (c, notes[c as int]);
                    assert(r[i] == set[i]);
                }
                assert forall|i: int| 0 <= i < r.len() implies (#[trigger] r[i]).0 < notes.len() && r[i].1
                    == notes[r[i].0 as int] && (r[i].0 == note || chosen.contains(r[i].0)) by {
                    if i < set.len() {
                        assert(r[i] == set[i]);
                    }
                }
            },
        }
    }
}

/// Law: while a group is dragged, each note is shown as far from its place as the seized one, under its
/// own index; the notes of a group keep their lengths, and a hold that is dragged alone is shown with one
/// beat.
pub proof fn law_drag_is_shown(set: Seq<(usize, NoteTime)>, offset: int, i: int)
    requires
        set_in_reach(set),
        -2 * FARTHEST <= offset <= 2 * FARTHEST,
        0 <= i < set.len(),
    ensures
        ({
            let r = previewed(set, offset);
            &&& r.len() == set.len()
            &&& r[i].0 == set[i].0
            &&& r[i].1.kind == set[i].1.kind
            &&& r[i].1.start == set[i].1.start + offset
            &&& set.len() > 1 || set[i].1.kind != 2 ==> r[i].1.end == set[i].1.end + offset
            &&& set.len() == 1 && set[i].1.kind == 2 ==> r[i].1.end - r[i].1.start == 0x1_0000_0000
        }),
{
    assert(in_reach(set[i].1.start as int));
}

/// Law: a note that is dropped alone starts as far from its place as it was dragged; a hold lasts one beat
/// then, any other note no time. It keeps its index and kind.
pub proof fn law_drop_of_one(set: Seq<(usize, NoteTime)>, offset: int)
    requires
        set_in_reach(set),
        -2 * FARTHEST <= offset <= 2 * FARTHEST + BEAT,
        set.len() == 1,
    ensures
        ({
            let r = dropped(set, offset);
            &&& r.len() == 1
            &&& r[0].0 == set[0].0
            &&& r[0].1.kind == set[0].1.kind
            &&& r[0].1.start == set[0].1.start + offset
            &&& set[0].1.kind == 2 ==> r[0].1.end == r[0].1.start + 0x1_0000_0000
            &&& set[0].1.kind != 2 ==> r[0].1.end == r[0].1.start
        }),
{
    assert(in_reach(set[0].1.start as int));
}

/// Law: the notes of a dropped group keep their indices and kinds, stay in the chart, and go by just the
/// offset where that leaves them in it.
pub proof fn law_drop_of_a_group(set: Seq<(usize, NoteTime)>, offset: int, i: int)
    requires
        set_in_reach(set),
        -2 * FARTHEST <= offset <= 2 * FARTHEST,
        set.len() > 1,
        0 <= i < set.len(),
        set[i].1.start <= set[i].1.end,
    ensures
        ({
            let r = dropped(set, offset);
            &&& r.len() == set.len()
            &&& r[i].0 == set[i].0
            &&& r[i].1.kind == set[i].1.kind
            &&& r[i].1.start >= 0
            &&& set[i].1.start + offset >= 0 ==> r[i].1.start == set[i].1.start + offset && r[i].1.end
                == set[i].1.end + offset
        }),
{
    assert(in_reach(set[i].1.start as int));
    law_moved_by_the_offset(set[i].1, offset);
    law_moved_stays_in_chart(set[i].1, offset);
}

proof fn lemma_overlaid_index(list: Seq<(usize, NoteTime)>, preview: Seq<(usize, NoteTime)>)
    ensures
        overlaid(list, preview).len() == list.len(),
        forall|i: int|
            0 <= i < list.len() ==> (#[trigger] overlaid(list, preview)[i]).0 == list[i].0 && overlaid(
                list,
                preview,
            )[i].1.kind == list[i].1.kind,
    decreases preview.len(),
{
    if preview.len() > 0 {
        lemma_overlaid_index(list, preview.drop_last());
        lemma_place_in(overlaid(list, preview.drop_last()), preview.last().0, 0);
    }
}

/// Law: what a drag shows lies over the listed notes without changing which they are or of which kind; a
/// note that is not dragged stays as it was.
pub proof fn law_preview_leaves_the_others(
    list: Seq<(usize, NoteTime)>,
    preview: Seq<(usize, NoteTime)>,
    i: int,
)
    requires
        0 <= i < list.len(),
        forall|k: int| 0 <= k < preview.len() ==> (#[trigger] preview[k]).0 != list[i].0,
    ensures
        overlaid(list, preview).len() == list.len(),
        overlaid(list, preview)[i] == list[i],
    decreases preview.len(),
{
    lemma_overlaid_index(list, preview);
    if preview.len() > 0 {
        let less = preview.drop_last();
        assert forall|k: int| 0 <= k < less.len() implies (#[trigger] less[k]).0 != list[i].0 by {
            assert(less[k] == preview[k]);
        }
        law_preview_leaves_the_others(list, less, i);
        assert(preview[preview.len() - 1].0 != list[i].0);
        lemma_overlaid_index(list, less);
        lemma_place_in(overlaid(list, less), preview.last().0, 0);
    }
}

/// Law: the note that was last put over the list is shown at its times, not before the chart.
pub proof fn law_preview_shows_the_dragged(
    list: Seq<(usize, NoteTime)>,
    preview: Seq<(usize, NoteTime)>,
    i: int,
)
    requires
        0 <= i < list.len(),
        preview.len() > 0,
        preview.last().0 == list[i].0,
        forall|k: int| 0 <= k < i ==> (#[trigger] list[k]).0 != list[i].0,
    ensures
        ({
            let r = overlaid(list, preview)[i];
            let p = preview.last().1;
            &&& r.0 == list[i].0
            &&& r.1.kind == list[i].1.kind
            &&& p.start >= 0 ==> r.1.start == p.start
            &&& p.start < 0 ==> r.1.start == 0
            &&& p.end >= 0 ==> r.1.end == p.end
            &&& p.end < 0 ==> r.1.end == 0
        }),
{
    let less = preview.drop_last();
    let rest = overlaid(list, less);
    lemma_overlaid_index(list, less);
    lemma_place_in(rest, preview.last().0, 0);
    let k = place_in(rest, preview.last().0, 0);
    assert(rest[i].0 == list[i].0);
    if let Some(j) = k {
        if j < i {
            assert(rest[j].0 == list[j].0);
        } else if j > i {
            assert(rest[i].0 != preview.last().0);
        }
    }
}

/// Law: a drop counts as a change exactly where it changed when some note starts or ends.
pub proof fn law_when_a_drop_counts(set: Seq<(usize, NoteTime)>, now: Seq<(usize, NoteTime)>, i: int)
    requires
        set.len() == now.len(),
        0 <= i < set.len(),
    ensures
        set[i].1.start != now[i].1.start ==> times_differ(set, now),
        set[i].1.end != now[i].1.end ==> times_differ(set, now),
        !times_differ(set, now) ==> set[i].1.start == now[i].1.start && set[i].1.end == now[i].1.end,
        !times_differ(set, set),
{
}

} // verus!
