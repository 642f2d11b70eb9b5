//! The stretch between the points A and B that is played over and over.

use vstd::prelude::*;

use crate::beats::{in_reach, snap_beat, snapped, FARTHEST};

verus! {

/// Why a loop cannot be switched on.
#[derive(Clone, Copy, PartialEq, Eq, Structural, Debug)]
pub enum LoopError {
    /// There is no point A.
    NoA,
    /// There is no point B.
    NoB,
    /// A is not before B.
    NotBefore,
}

/// The words for it.
pub fn loop_error_text(e: LoopError) -> (r: &'static str)
    ensures
        r@ == (match e {
            LoopError::NoA => "先设 A 点 (I)"@,
            LoopError::NoB => "先设 B 点 (O)"@,
            LoopError::NotBefore => "A 必须小于 B"@,
        }),
{
    match e {
        LoopError::NoA => "先设 A 点 (I)",
        LoopError::NoB => "先设 B 点 (O)",
        LoopError::NotBefore => "A 必须小于 B",
    }
}

/// Both points where they are set and A is before B, else what is wrong, a missing A first.
pub fn loop_points_valid(a: Option<i64>, b: Option<i64>) -> (r: Result<(i64, i64), LoopError>)
    ensures
        r is Ok <==> a is Some && b is Some && a->0 < b->0,
        r matches Ok(p) ==> p == (a->0, b->0),
        r == Err::<(i64, i64), LoopError>(LoopError::NoA) <==> a is None,
        r == Err::<(i64, i64), LoopError>(LoopError::NoB) <==> a is Some && b is None,
        r == Err::<(i64, i64), LoopError>(LoopError::NotBefore) <==> a is Some && b is Some && a->0
            >= b->0,
{
    match (a, b) {
        (None, _) => Err(LoopError::NoA),
        (_, None) => Err(LoopError::NoB),
        (Some(x), Some(y)) => if x < y {
            Ok((x, y))
        } else {
            Err(LoopError::NotBefore)
        },
    }
}

/// What the user is told.
#[derive(Clone, Copy, PartialEq, Eq, Structural, Debug)]
pub enum Notice {
    ClearedA,
    ClearedB,
    RefusedA,
    RefusedB,
    /// Point A was set at the place that is shown.
    SetA,
    /// Point B was set at the place that is shown.
    SetB,
    Off,
    On,
    Cannot(LoopError),
}

/// The words for it: what stands before and behind the place of the point, for a point that was
/// set; else the whole text, and nothing.
pub fn notice_text(n: Notice) -> (r: (&'static str, &'static str))
    ensures
        r.0@ == (match n {
            Notice::ClearedA => "A 点已清除"@,
            Notice::ClearedB => "B 点已清除"@,
            Notice::RefusedA => "A-B: A 必须小于 B(先清 B)"@,
            Notice::RefusedB => "A-B: B 必须大于 A(先清 A)"@,
            Notice::SetA => "A = "@,
            Notice::SetB => "B = "@,
            Notice::Off => "循环关"@,
            Notice::On => "循环开:播放到 B 自动回 A"@,
            Notice::Cannot(_) => "循环无法开启:"@,
        }),
        r.1@ == (match n {
            Notice::SetA | Notice::SetB => " 拍"@,
            Notice::Cannot(LoopError::NoA) => "先设 A 点 (I)"@,
            Notice::Cannot(LoopError::NoB) => "先设 B 点 (O)"@,
            Notice::Cannot(LoopError::NotBefore) => "A 必须小于 B"@,
            _ => ""@,
        }),
{
    match n {
        Notice::ClearedA => ("A 点已清除", ""),
        Notice::ClearedB => ("B 点已清除", ""),
        Notice::RefusedA => ("A-B: A 必须小于 B(先清 B)", ""),
        Notice::RefusedB => ("A-B: B 必须大于 A(先清 A)", ""),
        Notice::SetA => ("A = ", " 拍"),
        Notice::SetB => ("B = ", " 拍"),
        Notice::Off => ("循环关", ""),
        Notice::On => ("循环开:播放到 B 自动回 A", ""),
        Notice::Cannot(e) => ("循环无法开启:", loop_error_text(e)),
    }
}

/// The points of the loop in ticks, whether it is on, and the audio time of the last frame in
/// nanoseconds.
#[derive(Clone, Copy, PartialEq, Eq, Structural, Debug)]
pub struct Loop {
    pub a: Option<i64>,
    pub b: Option<i64>,
    pub on: bool,
    pub last_audio: i64,
}

/// The longest step between two frames that still counts as playing, in nanoseconds. What goes
/// farther is a jump.
pub const NATURAL_STEP: i64 = 500_000_000;

/// What holds at all times: a loop that is on has both points, A before B, and with both points
/// set A is before B.
pub open spec fn loop_is_sound(l: Loop) -> bool {
    &&& l.a is Some && l.b is Some ==> l.a->0 < l.b->0
    &&& l.on ==> l.a is Some && l.b is Some
}

/// The loop after the key for a point, with the playhead at `beat` on the grid, and what is told: a point that
/// is set is taken away, which switches the loop off; else it is set, unless A would not be
/// before B.
pub open spec fn with_point(l: Loop, is_a: bool, beat: i64) -> (Loop, Notice) {
    if is_a {
        if l.a is Some {
            (Loop { a: None, on: false, ..l }, Notice::ClearedA)
        } else if l.b is Some && beat >= l.b->0 {
            (l, Notice::RefusedA)
        } else {
            (Loop { a: Some(beat), ..l }, Notice::SetA)
        }
    } else {
        if l.b is Some {
            (Loop { b: None, on: false, ..l }, Notice::ClearedB)
        } else if l.a is Some && beat <= l.a->0 {
            (l, Notice::RefusedB)
        } else {
            (Loop { b: Some(beat), ..l }, Notice::SetB)
        }
    }
}

/// The loop after the key that switches it, and what is told.
pub open spec fn switched(l: Loop) -> (Loop, Notice) {
    if l.on {
        (Loop { on: false, ..l }, Notice::Off)
    } else if l.a is None {
        (l, Notice::Cannot(LoopError::NoA))
    } else if l.b is None {
        (l, Notice::Cannot(LoopError::NoB))
    } else if l.a->0 >= l.b->0 {
        (l, Notice::Cannot(LoopError::NotBefore))
    } else {
        (Loop { on: true, ..l }, Notice::On)
    }
}

/// What a frame knows about playing.
#[derive(Clone, Copy, PartialEq, Eq, Structural, Debug)]
pub struct Playing {
    /// There is audio. Without it the clock cannot be moved, and nothing is looped.
    pub audio: bool,
    pub paused: bool,
    /// The place is moving to where it was told to go.
    pub seeking: bool,
    /// The seek bar is being dragged.
    pub dragging: bool,
}

/// Whether playing has run into point B, whose time is `b_time`, since the last frame.
pub open spec fn runs_into_b(l: Loop, p: Playing, audio: i64, b_time: i64) -> bool {
    &&& l.on
    &&& l.a is Some
    &&& l.b is Some
    &&& p.audio
    &&& !p.paused
    &&& !p.seeking
    &&& !p.dragging
    &&& 0 <= audio - l.last_audio <= NATURAL_STEP
    &&& audio >= b_time
}

impl Loop {
    /// No points.
    pub fn new() -> (r: Loop)
        ensures
            r == (Loop { a: None, b: None, on: false, last_audio: 0 }),
            loop_is_sound(r),
    {
        Loop { a: None, b: None, on: false, last_audio: 0 }
    }

    /// Sets a point at the place on the grid that is nearest to the playhead, but not before the chart;
    /// or takes it away.
    pub fn set_loop_point(&mut self, is_a: bool, playhead: i64, grid: i64) -> (r: Notice)
        requires
            0 < grid <= FARTHEST,
            in_reach(playhead as int),
        ensures
            (*final(self), r) == with_point(
                *old(self),
                is_a,
                snapped(playhead as int, grid as int, 0) as i64,
            ),
    {
        let beat: i64 = snap_beat(playhead, grid, 0);
        if is_a {
            if self.a.is_some() {
                self.a = None;
                self.on = false;
                return Notice::ClearedA;
            }
            if let Some(b) = self.b {
                if beat >= b {
                    return Notice::RefusedA;
                }
            }
            self.a = Some(beat);
            Notice::SetA
        } else {
            if self.b.is_some() {
                self.b = None;
                self.on = false;
                return Notice::ClearedB;
            }
            if let Some(a) = self.a {
                if beat <= a {
                    return Notice::RefusedB;
                }
            }
            self.b = Some(beat);
            Notice::SetB
        }
    }

    /// Switches the loop on or off.
    pub fn toggle_loop(&mut self) -> (r: Notice)
        ensures
            (*final(self), r) == switched(*old(self)),
    {
        if self.on {
            self.on = false;
            return Notice::Off;
        }
        match loop_points_valid(self.a, self.b) {
            Ok(_) => {
                self.on = true;
                Notice::On
            },
            Err(e) => Notice::Cannot(e),
        }
    }

    /// A frame at audio time `audio`, with the times of the points: where playing has run into B,
    /// the place to go back to, which then counts as the time of this frame.
    pub fn frame(&mut self, p: Playing, audio: i64, a_time: i64, b_time: i64) -> (r: Option<i64>)
        ensures
            r == (if runs_into_b(*old(self), p, audio, b_time) {
                Some(a_time)
            } else {
                None
            }),
            *final(self) == (Loop {
                last_audio: if r is Some {
                    a_time
                } else {
                    audio
                },
                ..*old(self)
            }),
    {
        let step: i128 = audio as i128 - self.last_audio as i128;
        if self.on && self.a.is_some() && self.b.is_some() && p.audio && !p.paused && !p.seeking
            && !p.dragging && 0 <= step && step <= NATURAL_STEP as i128 && audio >= b_time {
            self.last_audio = a_time;
            Some(a_time)
        } else {
            self.last_audio = audio;
            None
        }
    }
}

/// Law: no key makes a loop that is not sound.
pub proof fn law_loop_stays_sound(l: Loop, is_a: bool, beat: i64)
    requires
        loop_is_sound(l),
    ensures
        loop_is_sound(with_point(l, is_a, beat).0),
        loop_is_sound(switched(l).0),
        switched(l).1 != Notice::Cannot(LoopError::NotBefore),
{
}

/// Law: the key for a point that was set takes it away again when pressed once more; one that was
/// refused changes nothing.
pub proof fn law_point_twice(l: Loop, is_a: bool, beat: i64, again: i64)
    requires
        is_a ==> l.a is None,
        !is_a ==> l.b is None,
        loop_is_sound(l),
    ensures
        with_point(l, is_a, beat).1 is SetA || with_point(l, is_a, beat).1 is SetB ==> with_point(
            with_point(l, is_a, beat).0,
            is_a,
            again,
        ).0 == l,
        with_point(l, is_a, beat).1 is RefusedA || with_point(l, is_a, beat).1 is RefusedB
            ==> with_point(l, is_a, beat).0 == l,
{
}

/// Law: one who goes past B by hand, or is paused there, is let through.
pub proof fn law_loop_lets_jumps_through(l: Loop, p: Playing, audio: i64, b_time: i64)
    requires
        p.seeking || p.dragging || p.paused || audio - l.last_audio > NATURAL_STEP || audio
            < l.last_audio,
    ensures
        !runs_into_b(l, p, audio, b_time),
{
}

/// Law: a point is set at the playhead and only there; A is refused behind B and B before A; a point that
/// is set is taken away wherever the playhead is, which switches the loop off. The other point stays.
pub proof fn law_points_of_the_loop(l: Loop, beat: i64)
    ensures
        ({
            let (r, n) = with_point(l, true, beat);
            &&& r.b == l.b
            &&& r.last_audio == l.last_audio
            &&& l.a is Some ==> r.a is None && !r.on && n == Notice::ClearedA
            &&& l.a is None && (l.b matches Some(b) ==> beat < b) ==> r.a == Some(beat) && r.on == l.on && n
                == Notice::SetA
            &&& l.a is None && (l.b matches Some(b) && beat >= b) ==> r == l && n == Notice::RefusedA
        }),
        ({
            let (r, n) = with_point(l, false, beat);
            &&& r.a == l.a
            &&& r.last_audio == l.last_audio
            &&& l.b is Some ==> r.b is None && !r.on && n == Notice::ClearedB
            &&& l.b is None && (l.a matches Some(a) ==> a < beat) ==> r.b == Some(beat) && r.on == l.on && n
                == Notice::SetB
            &&& l.b is None && (l.a matches Some(a) && a >= beat) ==> r == l && n == Notice::RefusedB
        }),
{
}

/// Law: the key that switches the loop turns it off where it is on, and on exactly where both points are
/// set with A before B; it never moves a point, and tells what is missing.
pub proof fn law_switching_the_loop(l: Loop)
    ensures
        ({
            let (r, n) = switched(l);
            &&& r.a == l.a
            &&& r.b == l.b
            &&& r.last_audio == l.last_audio
            &&& l.on ==> !r.on && n == Notice::Off
            &&& !l.on ==> (r.on <==> (l.a matches Some(a) && l.b matches Some(b) && a < b))
            &&& r.on ==> n == Notice::On
            &&& !l.on && l.a is None ==> n == Notice::Cannot(LoopError::NoA)
            &&& !l.on && l.a is Some && l.b is None ==> n == Notice::Cannot(LoopError::NoB)
            &&& loop_is_sound(l) && !l.on && r.on ==> switched(r).0 == l
        }),
        loop_is_sound(l) ==> loop_is_sound(switched(l).0),
{
}

/// Law: playing goes back to A exactly where the loop is on with both points, sound runs on by itself, by
/// no more than half a second since the last frame, and has come to B or past it.
pub proof fn law_when_the_loop_goes_back(l: Loop, p: Playing, audio: i64, b_time: i64)
    requires
        l.on,
        l.a is Some,
        l.b is Some,
    ensures
        p.audio && !p.paused && !p.seeking && !p.dragging && l.last_audio <= audio <= l.last_audio
            + 500_000_000 ==> (runs_into_b(l, p, audio, b_time) <==> b_time <= audio),
        !p.audio || p.paused || p.seeking || p.dragging || audio < l.last_audio || audio > l.last_audio
            + 500_000_000 ==> !runs_into_b(l, p, audio, b_time),
        !runs_into_b(Loop { on: false, ..l }, p, audio, b_time),
{
}

/// Law: a loop that lacks a point, or is switched off, never takes the playhead back.
pub proof fn law_no_loop_without_points(l: Loop, p: Playing, audio: i64, b_time: i64)
    requires
        l.a is None || l.b is None || !l.on,
    ensures
        !runs_into_b(l, p, audio, b_time),
{
}

} // verus!
