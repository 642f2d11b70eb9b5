//! Notes as the editor places, copies and pastes them.
//!
//! Numbers that are not whole are held as their bits, of single precision in 32 and of double
//! precision in 64 bits.

use vstd::prelude::*;

use crate::beats::{
    in_reach, is_earliest, law_snap_is_nearest, move_note, moved, notes_in_reach, nudged, pasted,
    placed_end, snap_beat, snapped, NoteTime, FARTHEST, HOLD,
};
use crate::floats::nan32;
use crate::library::optional;
use crate::loading::copied;
use crate::renderer::ONE;

verus! {

/// The bits of the largest distance of a placed note from the middle of its line.
pub const EDGE: u32 = 0x4428_C000;

/// The bits of the same distance to the left.
pub const LEFT_EDGE: u32 = 0xC428_C000;

/// The bits of the time for which a placed note is seen ahead, long enough to always be seen.
pub const ALWAYS: u64 = 0x412E_847E_0000_0000;

/// The opacity of a placed note.
pub const OPAQUE: u16 = 255;

/// A note of a line.
pub struct Note {
    pub time: NoteTime,
    pub above: u8,
    pub position_x: u32,
    pub y_offset: u32,
    pub alpha: u16,
    pub hitsound: Option<String>,
    pub size: u32,
    pub speed: u32,
    pub is_fake: u8,
    pub visible_time: u64,
    pub tint: Option<(u8, u8, u8)>,
    pub tint_hit_effects: Option<(u8, u8, u8)>,
    pub judge_area: Option<u32>,
    pub comment: Option<String>,
}

/// [`Note`] with its texts as sequences of characters.
pub ghost struct Noted {
    pub time: NoteTime,
    pub above: u8,
    pub position_x: u32,
    pub y_offset: u32,
    pub alpha: u16,
    pub hitsound: Option<Seq<char>>,
    pub size: u32,
    pub speed: u32,
    pub is_fake: u8,
    pub visible_time: u64,
    pub tint: Option<(u8, u8, u8)>,
    pub tint_hit_effects: Option<(u8, u8, u8)>,
    pub judge_area: Option<u32>,
    pub comment: Option<Seq<char>>,
}

impl View for Note {
    type V = Noted;

    open spec fn view(&self) -> Noted {
        Noted {
            time: self.time,
            above: self.above,
            position_x: self.position_x,
            y_offset: self.y_offset,
            alpha: self.alpha,
            hitsound: optional(self.hitsound),
            size: self.size,
            speed: self.speed,
            is_fake: self.is_fake,
            visible_time: self.visible_time,
            tint: self.tint,
            tint_hit_effects: self.tint_hit_effects,
            judge_area: self.judge_area,
            comment: optional(self.comment),
        }
    }
}

/// The times of the notes.
pub open spec fn times(notes: Seq<Note>) -> Seq<NoteTime> {
    notes.map_values(|n: Note| n.time)
}

/// A place that is not beyond the edges of a line. What is no number stays.
pub open spec fn on_line(x: u32) -> u32 {
    if nan32(x) {
        x
    } else if EDGE < x < 0x8000_0000 {
        EDGE
    } else if x > LEFT_EDGE {
        LEFT_EDGE
    } else {
        x
    }
}

/// The nearest place that is not beyond the edges of a line.
pub fn clamp_x(x: u32) -> (r: u32)
    ensures
        r == on_line(x),
{
    if x % 0x8000_0000 > 0x7F80_0000 {
        x
    } else if EDGE < x && x < 0x8000_0000 {
        EDGE
    } else if x > LEFT_EDGE {
        LEFT_EDGE
    } else {
        x
    }
}

/// A note as it is placed: above its line, plain, opaque, real and always seen. Only a hold
/// keeps its end.
pub open spec fn placed(kind: u8, start: i64, end: i64, x: u32) -> Noted {
    Noted {
        time: NoteTime {
            start,
            end: if kind == HOLD {
                end
            } else {
                start
            },
            kind,
        },
        above: 1,
        position_x: on_line(x),
        y_offset: 0,
        alpha: OPAQUE,
        hitsound: None,
        size: ONE,
        speed: ONE,
        is_fake: 0,
        visible_time: ALWAYS,
        tint: None,
        tint_hit_effects: None,
        judge_area: None,
        comment: None,
    }
}

/// A new note of a kind, from `start` to `end`, at `x`.
pub fn place_note(kind: u8, start: i64, end: i64, x: u32) -> (r: Note)
    ensures
        r@ == placed(kind, start, end, x),
{
    Note {
        time: NoteTime { start, end: placed_end(kind, start, end), kind },
        above: 1,
        position_x: clamp_x(x),
        y_offset: 0,
        alpha: OPAQUE,
        hitsound: None,
        size: ONE,
        speed: ONE,
        is_fake: 0,
        visible_time: ALWAYS,
        tint: None,
        tint_hit_effects: None,
        judge_area: None,
        comment: None,
    }
}

/// Law: a place on a line stays where it is.
pub proof fn law_on_line_twice(x: u32)
    ensures
        on_line(on_line(x)) == on_line(x),
{
}

/// A new note of a kind at the place on the grid that is nearest to `target`, but not before the
/// chart. A hold lasts one step of the grid.
pub fn place_note_at_playhead(kind: u8, target: i64, grid: i64, x: u32) -> (r: Note)
    requires
        0 < grid <= FARTHEST,
        in_reach(target as int),
    ensures
        r@ == placed(
            kind,
            snapped(target as int, grid as int, 0) as i64,
            (snapped(target as int, grid as int, 0) + grid) as i64,
            x,
        ),
{
    let start: i64 = snap_beat(target, grid, 0);
    proof {
        law_snap_is_nearest(target as int, grid as int);
    }
    place_note(kind, start, start + grid, x)
}

/// A copy of a note at other times.
fn at_time(n: &Note, time: NoteTime) -> (r: Note)
    ensures
        r@ == (Noted { time, ..n@ }),
{
    Note {
        time,
        above: n.above,
        position_x: n.position_x,
        y_offset: n.y_offset,
        alpha: n.alpha,
        hitsound: copied(&n.hitsound),
        size: n.size,
        speed: n.speed,
        is_fake: n.is_fake,
        visible_time: n.visible_time,
        tint: n.tint,
        tint_hit_effects: n.tint_hit_effects,
        judge_area: n.judge_area,
        comment: copied(&n.comment),
    }
}

/// The copied notes as they are pasted: the earliest starts at `anchor`, all keep their
/// distances, and everything but the times stays. An end that is not past the start of the chart
/// stays too.
pub fn paste_notes_transform(notes: &[Note], anchor: i64) -> (r: Vec<Note>)
    requires
        notes_in_reach(times(notes@)),
        in_reach(anchor as int),
    ensures
        r@.len() == notes@.len(),
        notes@.len() > 0 ==> exists|first: int|
            #![trigger is_earliest(times(notes@), first)]
            is_earliest(times(notes@), first) && forall|i: int|
                0 <= i < notes@.len() ==> (#[trigger] r@[i])@ == (Noted {
                    time: pasted(notes@[i].time, anchor - first),
                    ..notes@[i]@
                }),
{
    let mut r: Vec<Note> = Vec::new();
    if notes.len() == 0 {
        return r;
    }
    let ghost ts = times(notes@);
    let mut first: i64 = notes[0].time.start;
    let mut i: usize = 1;
    assert(ts[0] == notes@[0].time);
    while i < notes.len()
        invariant
            1 <= i <= notes.len(),
            ts == times(notes@),
            exists|j: int| 0 <= j < i && (#[trigger] ts[j]).start == first,
            forall|j: int| 0 <= j < i ==> first <= (#[trigger] ts[j]).start,
        decreases notes.len() - i,
    {
        assert(ts[i as int] == notes@[i as int].time);
        if notes[i].time.start < first {
            first = notes[i].time.start;
        }
        i = i + 1;
    }
    assert(is_earliest(ts, first as int));
    let offset: i64 = anchor - first;
    let mut k: usize = 0;
    while k < notes.len()
        invariant
            k <= notes.len(),
            r@.len() == k,
            notes_in_reach(times(notes@)),
            -2 * FARTHEST <= offset <= 2 * FARTHEST,
            forall|j: int|
                0 <= j < k ==> (#[trigger] r@[j])@ == (Noted {
                    time: pasted(notes@[j].time, offset as int),
                    ..notes@[j]@
                }),
        decreases notes.len() - k,
    {
        let n: NoteTime = notes[k].time;
        assert(times(notes@)[k as int] == n);
        let end: i64 = if n.end > 0 {
            n.end + offset
        } else {
            n.end
        };
        r.push(at_time(&notes[k], NoteTime { start: n.start + offset, end, kind: n.kind }));
        k = k + 1;
    }
    r
}

/// A note after a nudge: moved in time by `offset` inside the chart, and to `x` on its line.
pub open spec fn nudged_note(n: Note, offset: int, x: u32) -> Noted {
    Noted { time: moved(n.time, offset), position_x: on_line(x), ..n@ }
}

/// The notes of a line that a nudge reaches, those of `chosen` that the line has, with their index.
pub open spec fn nudged_notes(notes: Seq<Note>, chosen: Seq<usize>, offset: int, xs: Seq<u32>) -> Seq<
    (usize, Noted),
>
    decreases chosen.len(),
{
    if chosen.len() == 0 {
        Seq::empty()
    } else {
        let rest = nudged_notes(notes, chosen.drop_last(), offset, xs);
        let c = chosen.last();
        if c < notes.len() {
            rest.push((c, nudged_note(notes[c as int], offset, xs[c as int])))
        } else {
            rest
        }
    }
}

/// What a nudge of the chosen notes changes, with everything else that the notes hold. `xs` holds for
/// each note of the line where it would be after the step across.
pub fn nudge_notes(notes: &[Note], chosen: &[usize], offset: i64, xs: &[u32]) -> (r: Vec<
    (usize, Note),
>)
    requires
        notes_in_reach(times(notes@)),
        in_reach(offset as int),
        xs@.len() == notes@.len(),
    ensures
        r@.map_values(|p: (usize, Note)| (p.0, p.1@)) == nudged_notes(
            notes@,
            chosen@,
            offset as int,
            xs@,
        ),
{
    let mut r: Vec<(usize, Note)> = Vec::new();
    let mut i: usize = 0;
    let ghost view = |p: (usize, Note)| (p.0, p.1@);
    assert(r@.map_values(view) =~= nudged_notes(notes@, chosen@.take(0), offset as int, xs@));
    while i < chosen.len()
        invariant
            i <= chosen.len(),
            notes_in_reach(times(notes@)),
            in_reach(offset as int),
            xs@.len() == notes@.len(),
            view == (|p: (usize, Note)| (p.0, p.1@)),
            r@.map_values(view) == nudged_notes(
                notes@,
                chosen@.take(i as int),
                offset as int,
                xs@,
            ),
        decreases chosen.len() - i,
    {
        assert(chosen@.take(i + 1).drop_last() == chosen@.take(i as int));
        let c: usize = chosen[i];
        if c < notes.len() {
            let ghost before = r@.map_values(view);
            assert(times(notes@)[c as int] == notes@[c as int].time);
            let time: NoteTime = move_note(notes[c].time, offset);
            let mut n: Note = at_time(&notes[c], time);
            n.position_x = clamp_x(xs[c]);
            assert(n@ == nudged_note(notes@[c as int], offset as int, xs@[c as int]));
            let ghost nv = n@;
            r.push((c, n));
            assert(r@.map_values(view) =~= before.push((c, nv)));
        }
        i = i + 1;
    }
    assert(chosen@.take(chosen@.len() as int) == chosen@);
    r
}

/// Law: a note that is placed is of the kind that was asked for, starts where it was asked for and, where
/// it is a hold, ends there too, else where it starts; it is above its line, opaque, real, of ordinary size
/// and speed and without any extra; it is at the place across that was asked for wherever that is on
/// the line, else at its nearer end.
pub proof fn law_placed_note(kind: u8, start: i64, end: i64, x: u32)
    ensures
        ({
            let r = placed(kind, start, end, x);
            &&& r.time.kind == kind
            &&& r.time.start == start
            &&& kind == 2 ==> r.time.end == end
            &&& kind != 2 ==> r.time.end == start
            &&& r.above == 1
            &&& r.alpha == 255
            &&& r.is_fake == 0
            &&& r.size == 0x3F80_0000
            &&& r.speed == 0x3F80_0000
            &&& r.y_offset == 0
            &&& r.visible_time == 0x412E_847E_0000_0000
            &&& r.hitsound is None && r.tint is None && r.tint_hit_effects is None && r.judge_area is None
            &&& r.comment is None
            &&& x <= 0x4428_C000 || 0x8000_0000 <= x <= 0xC428_C000 ==> r.position_x == x
            &&& 0x4428_C000 < x <= 0x7F80_0000 ==> r.position_x == 0x4428_C000
            &&& 0xC428_C000 < x <= 0xFF80_0000 ==> r.position_x == 0xC428_C000
        }),
{
}

/// Law: a nudge changes nothing of a note but its times and its place across; the times as a nudge of the
/// times alone does.
pub proof fn law_nudge_keeps_the_rest(n: Note, offset: int, x: u32)
    ensures
        ({
            let r = nudged_note(n, offset, x);
            &&& r.time == moved(n.time, offset)
            &&& x <= 0x4428_C000 || 0x8000_0000 <= x <= 0xC428_C000 ==> r.position_x == x
            &&& 0x4428_C000 < x <= 0x7F80_0000 ==> r.position_x == 0x4428_C000
            &&& 0xC428_C000 < x <= 0xFF80_0000 ==> r.position_x == 0xC428_C000
            &&& r.above == n.above
            &&& r.y_offset == n.y_offset
            &&& r.alpha == n.alpha
            &&& r.hitsound == n@.hitsound
            &&& r.size == n.size
            &&& r.speed == n.speed
            &&& r.is_fake == n.is_fake
            &&& r.visible_time == n.visible_time
            &&& r.tint == n.tint
            &&& r.tint_hit_effects == n.tint_hit_effects
            &&& r.judge_area == n.judge_area
            &&& r.comment == n@.comment
        }),
{
}

/// Law: the notes that a nudge changes are the same ones, in the same order and at the same times, that a
/// nudge of their times alone changes.
pub proof fn law_nudge_of_notes_and_times(notes: Seq<Note>, chosen: Seq<usize>, offset: int, xs: Seq<u32>)
    ensures
        nudged_notes(notes, chosen, offset, xs).map_values(|p: (usize, Noted)| (p.0, p.1.time)) == nudged(
            times(notes),
            chosen,
            offset,
        ),
    decreases chosen.len(),
{
    let v = |p: (usize, Noted)| (p.0, p.1.time);
    if chosen.len() > 0 {
        law_nudge_of_notes_and_times(notes, chosen.drop_last(), offset, xs);
        let rest = nudged_notes(notes, chosen.drop_last(), offset, xs);
        let c = chosen.last();
        if c < notes.len() {
            let p = (c, nudged_note(notes[c as int], offset, xs[c as int]));
            assert(times(notes)[c as int] == notes[c as int].time);
            assert(rest.push(p).map_values(v) =~= rest.map_values(v).push(v(p)));
        }
    } else {
        assert(Seq::<(usize, Noted)>::empty().map_values(v) =~= Seq::<(usize, NoteTime)>::empty());
    }
}

} // verus!
