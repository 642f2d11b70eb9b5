//! What a frame shows, and the time that it shows. Times are in nanoseconds.

use vstd::prelude::*;

verus! {

/// What a frame shows.
#[derive(Clone, Copy, PartialEq, Eq, Structural, Debug)]
pub enum FrameKind {
    Loading,
    /// Nothing is drawn: the window does not have the focus and frames are held back then.
    Skipped,
    Charts,
    Editor,
}

/// What a frame shows.
pub fn frame_kind(loading: bool, frame_lock: bool, focused: bool, splash: bool) -> (r: FrameKind)
    ensures
        r is Loading <==> loading,
        r is Skipped <==> !loading && frame_lock && !focused,
        r is Charts <==> !loading && !(frame_lock && !focused) && splash,
        r is Editor <==> !loading && !(frame_lock && !focused) && !splash,
{
    if loading {
        FrameKind::Loading
    } else if frame_lock && !focused {
        FrameKind::Skipped
    } else if splash {
        FrameKind::Charts
    } else {
        FrameKind::Editor
    }
}

/// The farthest time that is worked with, on both sides of zero.
pub const FARTHEST: i64 = 0x0400_0000_0000_0000;

/// A target that is closer than this is reached.
pub const CLOSE: i64 = 8_000_000;

/// The least step on the way to a target.
pub const LEAST_STEP: i64 = 4_000_000;

/// The most that a frame is drawn ahead of what is heard.
pub const MOST_AHEAD: i64 = 50_000_000;

/// How long the note that the user is shown stays.
pub const NOTICE_TIME: u64 = 2_000_000_000;

/// How long the picture is dimmed after a jump.
pub const DIM_TIME: u64 = 400_000_000;

/// How far a notch of the wheel to the side moves the playhead.
pub const ACROSS_STEP: i64 = 2_000_000_000;

/// How far a notch of the wheel upward moves the playhead.
pub const ALONG_STEP: i64 = -500_000_000;

/// How far the arrows move the playhead.
pub const SKIP_STEP: i64 = 5_000_000_000;

/// Where the arrows move the playhead from `audio`, onward or back.
pub fn skip(audio: i64, onward: bool) -> (r: i64)
    requires
        -FARTHEST <= audio <= FARTHEST,
    ensures
        r == (if onward {
            audio + SKIP_STEP
        } else {
            audio - SKIP_STEP
        }),
        onward ==> r - audio == 5_000_000_000,
        !onward ==> audio - r == 5_000_000_000,
{
    if onward {
        audio + SKIP_STEP
    } else {
        audio - SKIP_STEP
    }
}

/// Where playing is: the time in the chart of the last frame, where it was told to go and where it is
/// on the way to, and what was hit so far.
#[derive(Clone, Copy, PartialEq, Eq, Structural, Debug)]
pub struct Clock {
    pub chart_time: i64,
    pub pending: Option<i64>,
    pub target: Option<i64>,
    /// Playing was paused by a drag of the seek bar.
    pub drag_paused: bool,
    pub combo: u32,
    pub hits: u32,
}

/// What a frame knows of the track: where its sound is, how long it is, how far the chart is behind
/// it, how long frames take, and how late sound is heard.
#[derive(Clone, Copy, PartialEq, Eq, Structural, Debug)]
pub struct Track {
    pub audio: i64,
    pub duration: i64,
    pub offset: i64,
    pub paused: bool,
    pub dragging: bool,
    pub frame_time: i64,
    pub latency: i64,
}

/// Whether all times can be worked with.
pub open spec fn track_in_reach(t: Track) -> bool {
    &&& -FARTHEST <= t.audio <= FARTHEST
    &&& 0 <= t.duration <= FARTHEST
    &&& -FARTHEST <= t.offset <= FARTHEST
    &&& 0 <= t.frame_time <= FARTHEST
    &&& -FARTHEST <= t.latency <= FARTHEST
}

/// Whether the times of a clock can be worked with.
pub open spec fn clock_in_reach(c: Clock) -> bool {
    &&& c.pending matches Some(p) ==> -FARTHEST <= p <= FARTHEST
    &&& c.target matches Some(p) ==> -FARTHEST <= p <= FARTHEST
}

/// A time inside the track.
pub open spec fn inside(t: int, duration: int) -> int {
    if t < 0 {
        0
    } else if t > duration {
        duration
    } else {
        t
    }
}

/// A time in the chart that is not before its start.
pub open spec fn chart_time_of(t: int, offset: int) -> int {
    if t - offset < 0 {
        0
    } else {
        t - offset
    }
}

/// The clock that was told to go to `t`.
pub open spec fn sought(c: Clock, t: int, k: Track) -> Clock {
    let to = inside(t, k.duration as int);
    Clock {
        pending: Some(to as i64),
        chart_time: chart_time_of(to, k.offset as int) as i64,
        ..c
    }
}

/// The clock that was set to `t` at once.
pub open spec fn set_to(c: Clock, t: int, k: Track) -> Clock {
    Clock {
        pending: None,
        target: None,
        chart_time: chart_time_of(inside(t, k.duration as int), k.offset as int) as i64,
        ..c
    }
}

/// How far the next step goes on a way of length `d`: some of the way and a little more, and no
/// farther than the whole way.
pub open spec fn step_length(d: int) -> int {
    let part = d * 12 / 100 + LEAST_STEP;
    let whole = if d < LEAST_STEP {
        LEAST_STEP as int
    } else {
        d
    };
    if part < whole {
        part
    } else {
        whole
    }
}

/// A clock whose target is where it was told to go.
pub open spec fn aimed(c: Clock) -> Clock {
    if c.pending is Some {
        Clock { pending: None, target: c.pending, ..c }
    } else {
        c
    }
}

/// The clock after a step to its target, the time that counts as that of the sound, and where the
/// sound is to go.
pub open spec fn scrolled(c: Clock, k: Track) -> (Clock, int, Option<int>) {
    let a = aimed(c);
    if a.target is None {
        (a, k.audio as int, None)
    } else {
        let d = a.target->0 - k.audio;
        let far = if d < 0 {
            -d
        } else {
            d
        };
        if k.dragging || far < CLOSE {
            (Clock { target: None, ..a }, a.target->0 as int, None)
        } else {
            let next = inside(
                if d < 0 {
                    k.audio - step_length(far)
                } else {
                    k.audio + step_length(far)
                },
                k.duration as int,
            );
            (sought(a, next, k), next, Some(next))
        }
    }
}

/// The time of the chart that a frame shows when the sound is at `audio`: ahead by the time that the
/// frame takes and behind by how late sound is heard, but neither while paused; and unless the place
/// is being moved, not before that of the last frame.
pub open spec fn shown_time(c: Clock, k: Track, audio: int) -> int {
    let ahead = if k.paused {
        0
    } else if k.frame_time < MOST_AHEAD {
        k.frame_time as int
    } else {
        MOST_AHEAD as int
    };
    let late = if k.paused {
        0
    } else {
        k.latency as int
    };
    let t = chart_time_of(audio + ahead - late, k.offset as int);
    if !k.dragging && c.target is None && t < c.chart_time {
        c.chart_time as int
    } else {
        t
    }
}

/// What fired in a frame.
#[derive(Clone, Copy, PartialEq, Eq, Structural, Debug)]
pub struct Fired {
    /// The end of a held note.
    pub hold_tail: bool,
    /// A moment inside a held note.
    pub tick: bool,
    /// Of a note that does not count.
    pub fake: bool,
}

/// Whether it counts as a hit.
pub open spec fn is_hit(f: Fired) -> bool {
    !f.fake && (f.hold_tail || !f.tick)
}

/// How many count as hits.
pub open spec fn hit_count(fired: Seq<Fired>) -> nat
    decreases fired.len(),
{
    if fired.len() == 0 {
        0
    } else {
        hit_count(fired.drop_last()) + if is_hit(fired.last()) {
            1nat
        } else {
            0nat
        }
    }
}

/// What a drag of the seek bar does to playing.
#[derive(Clone, Copy, PartialEq, Eq, Structural, Debug)]
pub enum DragAct {
    Nothing,
    Pause,
    GoOn,
}

impl Clock {
    /// At the start.
    pub fn new() -> (r: Clock)
        ensures
            r == (Clock {
                chart_time: 0,
                pending: None,
                target: None,
                drag_paused: false,
                combo: 0,
                hits: 0,
            }),
    {
        Clock { chart_time: 0, pending: None, target: None, drag_paused: false, combo: 0, hits: 0 }
    }

    /// A chart was brought into the editor.
    pub fn chart_loaded(&mut self)
        ensures
            *final(self) == (Clock {
                chart_time: 0,
                pending: None,
                target: None,
                combo: 0,
                hits: 0,
                ..*old(self)
            }),
            final(self).chart_time == 0 && final(self).combo == 0 && final(self).hits == 0,
            final(self).pending is None && final(self).target is None,
            final(self).drag_paused == old(self).drag_paused,
    {
        self.chart_time = 0;
        self.pending = None;
        self.target = None;
        self.combo = 0;
        self.hits = 0;
    }

    /// Tells the clock to go to `t`. Returns where the sound is to go; the chart is to be set to
    /// `chart_time`.
    pub fn seek(&mut self, t: i64, k: Track) -> (r: i64)
        requires
            track_in_reach(k),
        ensures
            *final(self) == sought(*old(self), t as int, k),
            r == inside(t as int, k.duration as int),
    {
        let to: i64 = if t < 0 {
            0
        } else if t > k.duration {
            k.duration
        } else {
            t
        };
        let ct: i64 = to - k.offset;
        self.pending = Some(to);
        self.chart_time = if ct < 0 {
            0
        } else {
            ct
        };
        to
    }

    /// Sets the clock to `t` at once. Returns where the sound is to go; the chart is to be set to
    /// `chart_time`.
    pub fn hard_seek(&mut self, t: i64, k: Track) -> (r: i64)
        requires
            track_in_reach(k),
        ensures
            *final(self) == set_to(*old(self), t as int, k),
            r == inside(t as int, k.duration as int),
    {
        let to: i64 = self.seek(t, k);
        self.pending = None;
        self.target = None;
        to
    }

    /// The chart was set to the time of the clock, before which `hits` notes are hit.
    pub fn repositioned(&mut self, hits: u32)
        ensures
            *final(self) == (Clock { hits, combo: hits, ..*old(self) }),
    {
        self.hits = hits;
        self.combo = hits;
    }

    /// The wheel moves the playhead by `step`: it is on the way there from now on, inside the track.
    pub fn scroll_by(&mut self, step: i64, k: Track)
        requires
            track_in_reach(k),
        ensures
            *final(self) == (Clock {
                target: Some(inside(k.audio + step, k.duration as int) as i64),
                ..*old(self)
            }),
            0 <= final(self).target->0 <= k.duration,
    {
        let to: i128 = k.audio as i128 + step as i128;
        self.target = Some(
            if to < 0 {
                0
            } else if to > k.duration as i128 {
                k.duration
            } else {
                to as i64
            },
        );
    }

    /// A step to the target. Returns the time that counts as that of the sound, and where the sound
    /// is to go.
    pub fn scroll(&mut self, k: Track) -> (r: (i64, Option<i64>))
        requires
            track_in_reach(k),
            clock_in_reach(*old(self)),
        ensures
            (*final(self), r.0 as int, match r.1 {
                Some(t) => Some(t as int),
                None => None,
            }) == scrolled(*old(self), k),
            clock_in_reach(*final(self)),
    {
        if let Some(p) = self.pending {
            self.pending = None;
            self.target = Some(p);
        }
        let target: i64 = match self.target {
            Some(t) => t,
            None => {
                return (k.audio, None);
            },
        };
        let d: i64 = target - k.audio;
        let far: i64 = if d < 0 {
            -d
        } else {
            d
        };
        if k.dragging || far < CLOSE {
            self.target = None;
            return (target, None);
        }
        let part: i64 = (far as i128 * 12 / 100) as i64 + LEAST_STEP;
        let step: i64 = if part < far {
            part
        } else {
            far
        };
        let next: i64 = self.seek(
            if d < 0 {
                k.audio - step
            } else {
                k.audio + step
            },
            k,
        );
        (next, Some(next))
    }

    /// What a drag of the seek bar does to playing: it pauses while the bar is dragged, and goes on
    /// after that where it was playing before.
    pub fn drag(&mut self, dragging: bool, playing: bool) -> (r: DragAct)
        ensures
            r is Pause <==> dragging && !old(self).drag_paused && playing,
            r is GoOn <==> !dragging && old(self).drag_paused,
            dragging && playing ==> final(self).drag_paused,
            !dragging ==> !final(self).drag_paused,
            dragging && !playing ==> final(self).drag_paused == old(self).drag_paused,
            *final(self) == (Clock {
                drag_paused: if r is Pause {
                    true
                } else if r is GoOn {
                    false
                } else {
                    old(self).drag_paused
                },
                ..*old(self)
            }),
    {
        if dragging && !self.drag_paused && playing {
            self.drag_paused = true;
            DragAct::Pause
        } else if !dragging && self.drag_paused {
            self.drag_paused = false;
            DragAct::GoOn
        } else {
            DragAct::Nothing
        }
    }

    /// The time of the chart that a frame shows when the sound is at `audio`.
    pub fn show(&mut self, k: Track, audio: i64) -> (r: i64)
        requires
            track_in_reach(k),
            -FARTHEST <= audio <= FARTHEST,
        ensures
            r == shown_time(*old(self), k, audio as int),
            *final(self) == (Clock { chart_time: r, ..*old(self) }),
    {
        let ahead: i64 = if k.paused {
            0
        } else if k.frame_time < MOST_AHEAD {
            k.frame_time
        } else {
            MOST_AHEAD
        };
        let late: i64 = if k.paused {
            0
        } else {
            k.latency
        };
        let t: i64 = audio + ahead - late - k.offset;
        let mut shown: i64 = if t < 0 {
            0
        } else {
            t
        };
        if !k.dragging && self.target.is_none() && shown < self.chart_time {
            shown = self.chart_time;
        }
        self.chart_time = shown;
        shown
    }

    /// Counts what fired in a frame.
    pub fn count(&mut self, fired: &[Fired])
        requires
            old(self).combo + fired@.len() <= u32::MAX,
            old(self).hits + fired@.len() <= u32::MAX,
        ensures
            *final(self) == (Clock {
                combo: (old(self).combo + hit_count(fired@)) as u32,
                hits: (old(self).hits + hit_count(fired@)) as u32,
                ..*old(self)
            }),
            final(self).combo == old(self).combo + hit_count(fired@),
            final(self).hits == old(self).hits + hit_count(fired@),
    {
        let mut n: u32 = 0;
        let mut i: usize = 0;
        while i < fired.len()
            invariant
                i <= fired.len(),
                fired@.len() <= u32::MAX,
                n == hit_count(fired@.take(i as int)),
                n <= i,
            decreases fired.len() - i,
        {
            assert(fired@.take(i + 1).drop_last() == fired@.take(i as int));
            let f: Fired = fired[i];
            if !f.fake && (f.hold_tail || !f.tick) {
                n = n + 1;
            }
            i = i + 1;
        }
        assert(fired@.take(fired@.len() as int) == fired@);
        self.combo = self.combo + n;
        self.hits = self.hits + n;
    }
}

/// Law: while nobody moves the place, the time that is shown never runs back, also when playing is
/// paused or goes on. So no note is hit twice.
pub proof fn law_time_never_runs_back(c: Clock, k: Track, audio: int)
    requires
        !k.dragging,
        c.target is None,
    ensures
        shown_time(c, k, audio) >= c.chart_time,
{
}

/// Law: a step to a target does not go past it, where the target is inside the track, nor away from
/// it.
pub proof fn law_step_stays_on_the_way(c: Clock, k: Track)
    requires
        track_in_reach(k),
        clock_in_reach(c),
        aimed(c).target matches Some(t) && 0 <= t <= k.duration,
        0 <= k.audio <= k.duration,
    ensures
        aimed(c).target matches Some(t) && (k.audio <= t ==> k.audio <= scrolled(c, k).1 <= t) && (
        t <= k.audio ==> t <= scrolled(c, k).1 <= k.audio),
{
}

/// Law: a jump sets the place at once, inside the track, and leaves nothing to go on to.
pub proof fn law_jump_is_at_once(c: Clock, t: int, k: Track)
    requires
        track_in_reach(k),
    ensures
        set_to(c, t, k).pending is None,
        set_to(c, t, k).target is None,
        scrolled(set_to(c, t, k), k).2 is None,
        0 <= inside(t, k.duration as int) <= k.duration,
        set_to(c, t, k).chart_time >= 0,
{
}

/// Whether the note that the user is shown since `since` is to go at `now`.
pub fn notice_is_over(since: u64, now: u64) -> (r: bool)
    ensures
        r == (now - since > NOTICE_TIME),
        r <==> now > since + 2_000_000_000,
{
    now > since && now - since > NOTICE_TIME
}

/// Whether the picture is dimmed at `now`, after a jump at `jumped`.
pub fn is_dimmed(jumped: Option<u64>, now: u64) -> (r: bool)
    ensures
        r == (jumped matches Some(t) && now < t + DIM_TIME),
        jumped is None ==> !r,
        jumped matches Some(t) ==> (r <==> now - t < 400_000_000),
{
    match jumped {
        Some(t) => now < t || now - t < DIM_TIME,
        None => false,
    }
}

/// What a row of the chart panel holds.
#[derive(Clone, Copy, PartialEq, Eq, Structural, Debug)]
pub enum InfoField {
    Name,
    Composer,
    Charter,
    Illustrator,
    Level,
    Difficulty,
}

/// What a row of the chart panel holds that can be typed into. The others are shown only.
pub open spec fn field_of(row: usize) -> Option<InfoField> {
    match row {
        0 => Some(InfoField::Name),
        1 => Some(InfoField::Composer),
        2 => Some(InfoField::Charter),
        3 => Some(InfoField::Illustrator),
        4 => Some(InfoField::Level),
        5 => Some(InfoField::Difficulty),
        _ => None,
    }
}

/// What a row of the chart panel holds that can be typed into.
pub fn info_field(row: usize) -> (r: Option<InfoField>)
    ensures
        r == field_of(row),
{
    match row {
        0 => Some(InfoField::Name),
        1 => Some(InfoField::Composer),
        2 => Some(InfoField::Charter),
        3 => Some(InfoField::Illustrator),
        4 => Some(InfoField::Level),
        5 => Some(InfoField::Difficulty),
        _ => None,
    }
}

/// Law: while playing is paused, the time that is shown and the offset of the chart make up the time of
/// the sound, wherever the sound is past the offset and the last frame does not hold it; before that
/// the chart stands at its start.
pub proof fn law_offset_while_paused(c: Clock, k: Track, audio: int)
    requires
        k.paused,
        k.dragging || c.target is Some || c.chart_time + k.offset <= audio,
    ensures
        k.offset <= audio ==> shown_time(c, k, audio) + k.offset == audio,
        audio < k.offset ==> shown_time(c, k, audio) == 0,
{
}

/// Law: while it plays, the chart is ahead of the sound by the time that a frame takes, at most fifty
/// milliseconds, and behind it by the offset and by how late sound is heard.
pub proof fn law_offset_while_playing(c: Clock, k: Track, audio: int)
    requires
        !k.paused,
        k.frame_time >= 0,
        k.dragging || c.target is Some || c.chart_time <= 0,
    ensures
        ({
            let ahead = if k.frame_time > 50_000_000 {
                50_000_000
            } else {
                k.frame_time as int
            };
            &&& k.offset + k.latency <= audio + ahead ==> shown_time(c, k, audio) + k.offset + k.latency
                == audio + ahead
            &&& audio + ahead < k.offset + k.latency ==> shown_time(c, k, audio) == 0
        }),
{
}

/// Law: what is shown while nobody moves the place is the later one of the last frame and of what would
/// be shown if it were being moved.
pub proof fn law_last_frame_holds(c: Clock, k: Track, audio: int)
    requires
        !k.dragging,
        c.target is None,
    ensures
        ({
            let free = shown_time(c, Track { dragging: true, ..k }, audio);
            &&& free >= c.chart_time ==> shown_time(c, k, audio) == free
            &&& free < c.chart_time ==> shown_time(c, k, audio) == c.chart_time
        }),
{
}

/// Law: where the sound goes on by some time, the chart goes on by as much.
pub proof fn law_chart_runs_with_the_sound(c: Clock, k: Track, audio: int, more: int)
    requires
        k.dragging,
        more >= 0,
        shown_time(c, k, audio) > 0,
    ensures
        shown_time(c, k, audio + more) == shown_time(c, k, audio) + more,
{
}

/// Law: a seek leaves a time of the chart that with the offset makes up the place that was asked for,
/// wherever that is inside the track and past the offset; one outside the track counts as the nearer end.
pub proof fn law_seek_and_offset(c: Clock, t: int, k: Track)
    requires
        track_in_reach(k),
    ensures
        ({
            let r = sought(c, t, k);
            let place = if t < 0 {
                0
            } else if t > k.duration {
                k.duration as int
            } else {
                t
            };
            &&& r.pending == Some(place as i64)
            &&& k.offset <= place ==> r.chart_time + k.offset == place
            &&& place < k.offset ==> r.chart_time == 0
            &&& r.target == c.target
            &&& r.combo == c.combo
            &&& r.hits == c.hits
            &&& r.drag_paused == c.drag_paused
        }),
        ({
            let r = set_to(c, t, k);
            &&& r.chart_time == sought(c, t, k).chart_time
            &&& r.pending is None
            &&& r.target is None
            &&& r.combo == c.combo
            &&& r.hits == c.hits
            &&& r.drag_paused == c.drag_paused
        }),
{
}

/// Law: what is shown, paused, right after a jump to a place is the time of the chart that the jump set.
pub proof fn law_jump_is_what_is_shown(c: Clock, t: int, k: Track)
    requires
        track_in_reach(k),
        k.paused,
        0 <= t <= k.duration,
    ensures
        shown_time(set_to(c, t, k), k, t) == set_to(c, t, k).chart_time,
        k.offset <= t ==> shown_time(set_to(c, t, k), k, t) + k.offset == t,
{
}

/// Law: without a place to go to, a step changes nothing; one that is near, or that the seek bar is
/// dragged to, is reached at once and then forgotten; to any other the step is four milliseconds and
/// twelve hundredths of the way, but no longer than the way.
pub proof fn law_step_to_target(c: Clock, k: Track)
    requires
        track_in_reach(k),
        clock_in_reach(c),
        0 <= k.audio <= k.duration,
    ensures
        ({
            let goal = if c.pending is Some {
                c.pending
            } else {
                c.target
            };
            let r = scrolled(c, k);
            match goal {
                None => r == (c, k.audio as int, None::<int>),
                Some(t) => {
                    let way = if t > k.audio {
                        t - k.audio
                    } else {
                        k.audio - t
                    };
                    if k.dragging || way < 8_000_000 {
                        &&& r.1 == t
                        &&& r.2 is None
                        &&& r.0 == Clock { pending: None, target: None, ..c }
                    } else {
                        &&& r.2 == Some(r.1)
                        &&& 0 <= r.1 <= k.duration
                        &&& 0 <= t <= k.duration ==> {
                            let step = if t > k.audio {
                                r.1 - k.audio
                            } else {
                                k.audio - r.1
                            };
                            &&& 4_000_000 <= step <= way
                            &&& step < way ==> 100 * (step - 4_000_000) <= 12 * way < 100 * (step
                                - 4_000_000) + 100
                        }
                    }
                },
            }
        }),
{
}

/// Law: a fired head or tail of a note that counts makes the count one larger; a moment inside a hold
/// and whatever belongs to a note that does not count leave it.
pub proof fn law_each_hit_counts_once(fired: Seq<Fired>, f: Fired)
    ensures
        f.fake ==> hit_count(fired.push(f)) == hit_count(fired),
        !f.fake && f.hold_tail ==> hit_count(fired.push(f)) == hit_count(fired) + 1,
        !f.fake && !f.tick ==> hit_count(fired.push(f)) == hit_count(fired) + 1,
        f.tick && !f.hold_tail ==> hit_count(fired.push(f)) == hit_count(fired),
        hit_count(Seq::empty()) == 0,
{
    assert(fired.push(f).drop_last() == fired);
}

/// Law: the rows of the chart panel that can be typed into are the name, the composer, the charter, the
/// illustrator, the level and the difficulty, from the top down.
pub proof fn law_rows_of_the_chart_panel(row: usize)
    ensures
        field_of(row) == Some(InfoField::Name) <==> row == 0,
        field_of(row) == Some(InfoField::Composer) <==> row == 1,
        field_of(row) == Some(InfoField::Charter) <==> row == 2,
        field_of(row) == Some(InfoField::Illustrator) <==> row == 3,
        field_of(row) == Some(InfoField::Level) <==> row == 4,
        field_of(row) == Some(InfoField::Difficulty) <==> row == 5,
{
}

/// Law: the wheel to the side goes two seconds on for each notch, the wheel along half a second back.
pub proof fn law_wheel_steps()
    ensures
        ACROSS_STEP == 2_000_000_000,
        ALONG_STEP == -500_000_000,
{
}

} // verus!
