//! What the pointer and the menus do in the editor.

use crate::editor::{
    CommentTarget, Editing, Editor, Panels, TOOL_BPM, TOOL_CHART, TOOL_EFFECTS,
    TOOL_LINE, TOOL_SETTINGS,
};
use crate::keys::Key;
use crate::strings::same;
use crate::timeline::{event_kind_of, kind_name, EventKind};
use vstd::prelude::*;

verus! {

/// Two clicks closer together than this, in nanoseconds, are a double click.
pub const DOUBLE_CLICK: u64 = 300_000_000;

/// The key of the held keys that a key is.
pub open spec fn held_key(p: Panels, code: Key, down: bool) -> Panels {
    match code {
        Key::Control => Panels { ctrl: down, ..p },
        Key::Shift => Panels { shift: down, ..p },
        Key::Alt => Panels { alt: down, ..p },
        _ => p,
    }
}

/// A line was chosen, in place of another: nothing is chosen on it yet.
pub open spec fn on_line(v: Editing, line: usize) -> Editing {
    Editing {
        p: Panels { line, cache_valid: false, dirty: true, note: None, event: None, ..v.p },
        notes: Seq::empty(),
        events: Seq::empty(),
        ..v
    }
}

/// The editor after a key went up, in a chart of `lines` lines: the keys for the lines go to the
/// previous or the next one, round and round, unless control is held.
pub open spec fn released(v: Editing, code: Key, lines: int) -> Editing {
    let w = Editing { p: held_key(v.p, code, false), ..v };
    if v.p.ctrl || lines <= 0 {
        w
    } else if code is Z {
        on_line(w, ((v.p.line + lines - 1) % lines) as usize)
    } else if code is C {
        on_line(w, ((v.p.line + 1) % lines) as usize)
    } else {
        w
    }
}

/// The first of a list.
pub open spec fn first_of(s: Seq<usize>) -> Option<usize> {
    if s.len() > 0 {
        Some(s[0])
    } else {
        None
    }
}

/// Where the pointer is.
#[derive(Clone, Copy, PartialEq, Eq, Structural, Debug)]
pub struct Pointer {
    /// Over a field or button of a panel.
    pub over_widget: bool,
    /// Between the left and right edges of the panels.
    pub over_panels: bool,
    /// Over the timeline.
    pub over_timeline: bool,
    /// Below the top bar.
    pub below_bar: bool,
}

/// Whether the pointer is over the panel of a tool, on the chart list or not. The panel of the lines
/// takes all of its column, the others only their fields.
pub open spec fn over_panel(v: Editing, splash: bool, at: Pointer, tool: u8) -> bool {
    &&& !splash
    &&& v.p.show_properties
    &&& v.p.tool == tool
    &&& if tool == TOOL_LINE {
        at.over_panels
    } else {
        at.over_widget
    }
}

/// What the wheel does.
#[derive(Clone, Copy, PartialEq, Eq, Structural, Debug)]
pub enum WheelAct {
    /// The chart list is scrolled.
    ScrollCharts,
    /// The playhead moves with the wheel to the side.
    SeekAcross,
    /// The easing of the chosen keyframe changes.
    KeyframeEasing,
    /// The row of the panel that has the keyboard changes.
    Effects,
    Bpm,
    Settings,
    /// The list of lines is scrolled.
    Lines,
    /// The timeline is zoomed, or scrolled.
    ZoomTimeline,
    ScrollTimeline,
    /// The playhead moves with the wheel.
    SeekAlong,
}

/// What the upright part of the wheel does.
pub open spec fn wheel_upright(v: Editing, at: Pointer) -> Seq<WheelAct> {
    if over_panel(v, false, at, TOOL_EFFECTS) {
        seq![
            if v.p.keyframe_var is Some {
                WheelAct::KeyframeEasing
            } else {
                WheelAct::Effects
            },
        ]
    } else if over_panel(v, false, at, TOOL_BPM) {
        seq![WheelAct::Bpm]
    } else if over_panel(v, false, at, TOOL_SETTINGS) {
        seq![WheelAct::Settings]
    } else if over_panel(v, false, at, TOOL_LINE) {
        seq![WheelAct::Lines]
    } else if (v.p.show_events || v.p.show_notes) && at.over_timeline {
        if v.p.ctrl {
            seq![WheelAct::ZoomTimeline]
        } else if at.below_bar {
            seq![WheelAct::ScrollTimeline]
        } else {
            Seq::empty()
        }
    } else {
        seq![WheelAct::SeekAlong]
    }
}

/// What the wheel does, which moved to the side or upright or both.
pub open spec fn wheel_acts(v: Editing, splash: bool, at: Pointer, side: bool, upright: bool) -> Seq<
    WheelAct,
> {
    if splash {
        if upright {
            seq![WheelAct::ScrollCharts]
        } else {
            Seq::empty()
        }
    } else {
        (if side {
            seq![WheelAct::SeekAcross]
        } else {
            Seq::empty()
        }) + (if upright {
            wheel_upright(v, at)
        } else {
            Seq::empty()
        })
    }
}

/// What is under the pointer in a panel when a button goes down or up.
#[derive(Clone, Copy, PartialEq, Eq, Structural, Debug)]
pub enum Hit {
    Nothing,
    /// The track of a slider.
    Slider,
    /// A field.
    Field,
    /// The bar of a list.
    ScrollBar,
    /// Something else.
    Other,
}

/// What the editor is told with a click.
#[derive(Clone, Copy, PartialEq, Eq, Structural, Debug)]
pub struct Click {
    /// The pointer is in the window.
    pub inside: bool,
    /// The pause button of the picture is under it.
    pub on_pause: bool,
    pub hit: Hit,
    /// The row of keyframes under it.
    pub keyframe_row: Option<usize>,
    /// The number of the row of the effect panel under it, from 1 on.
    pub row: Option<usize>,
    /// How many effects there are.
    pub effects: usize,
    /// How many rows the effect panel has.
    pub eff_rows: Option<usize>,
    /// The row holds keyframes.
    pub keyframed: bool,
    /// The panels have been built.
    pub has_bpm: bool,
    pub has_settings: bool,
    pub has_lines: bool,
    pub has_grid: bool,
    /// The pointer is over the events.
    pub over_events: bool,
    pub audio: bool,
    /// When.
    pub now: u64,
}

/// What a click does.
#[derive(Clone, Copy, PartialEq, Eq, Structural, Debug)]
pub enum ClickAct {
    /// The pointer is drawn as clicked.
    ShowClick,
    TogglePause,
    /// The click goes to the panel.
    SettingsClick,
    BpmClick,
    LineClick,
    GridClick,
    EffClick,
    /// What the panel holds is taken over.
    SettingsApply,
    BpmApply,
    EffApply,
    AddEffect,
    /// The effect panel is built anew.
    ResetEffPanel,
    /// The first beat of a keyframe is typed.
    EditKeyframe(usize),
    /// A drag that was under way is given up.
    DropDrag,
    /// The click goes to the timeline and the buttons.
    Timeline(bool),
    /// The chosen event becomes the first of the group.
    SyncEvents,
}

/// What the left button going down does in the panels.
pub open spec fn press_in_panels(p: Panels, c: Click) -> (Panels, Seq<ClickAct>) {
    if !p.show_properties || !c.inside {
        (p, Seq::empty())
    } else if p.tool == TOOL_LINE && c.hit is ScrollBar {
        (Panels { line_dragging: true, ..p }, Seq::empty())
    } else if p.tool == TOOL_SETTINGS && c.hit is Slider {
        (
            Panels { settings_dragging: true, ..p },
            if c.has_settings {
                seq![ClickAct::SettingsClick]
            } else {
                Seq::empty()
            },
        )
    } else if p.tool == TOOL_BPM && (c.hit is Slider || c.hit is Field) {
        (
            Panels { bpm_dragging: true, ..p },
            if c.has_bpm {
                seq![ClickAct::BpmClick]
            } else {
                Seq::empty()
            },
        )
    } else {
        (p, Seq::empty())
    }
}

/// What the left button going down does.
pub open spec fn left_down(p: Panels, c: Click) -> (Panels, Seq<ClickAct>) {
    if c.inside && !p.show_overlay && c.on_pause {
        (
            p,
            seq![ClickAct::ShowClick] + if c.audio {
                seq![ClickAct::TogglePause]
            } else {
                Seq::empty()
            },
        )
    } else {
        let r = press_in_panels(p, c);
        (
            r.0,
            seq![ClickAct::ShowClick] + r.1 + seq![ClickAct::DropDrag, ClickAct::Timeline(true)],
        )
    }
}

/// Whether a click on a row of keyframes is the second of a double click on it.
pub open spec fn is_second_click(p: Panels, row: usize, now: u64) -> bool {
    &&& p.keyframe == Some(row)
    &&& p.keyframe_click is Some
    &&& now - p.keyframe_click->0 < DOUBLE_CLICK
}

/// What a click on the effect panel does; whether the click is used up by it; and whether the number
/// that is being typed is given up.
pub open spec fn effect_click(p: Panels, c: Click) -> (Panels, Seq<ClickAct>, bool, bool) {
    match (c.keyframe_row, c.row) {
        (Some(r), _) => (
            Panels { keyframe: Some(r), keyframe_click: Some(c.now), dirty: true, ..p },
            if is_second_click(p, r, c.now) {
                seq![ClickAct::EditKeyframe(r)]
            } else {
                Seq::empty()
            },
            true,
            false,
        ),
        (None, None) => (p, Seq::empty(), false, false),
        (None, Some(id)) => if c.eff_rows is Some && id == c.eff_rows->0 + 1 {
            (Panels { dirty: true, ..p }, seq![ClickAct::AddEffect], false, true)
        } else if 1 <= id <= c.effects {
            (
                Panels {
                    effect: Some((id - 1) as usize),
                    keyframe_var: None,
                    keyframe: None,
                    dirty: true,
                    ..p
                },
                seq![ClickAct::ResetEffPanel],
                false,
                true,
            )
        } else if id < 1000 && id > c.effects + 4 && c.keyframed {
            let var = (id - 1 - c.effects - 4) as usize;
            let open = p.keyframe_var == Some(var);
            (
                Panels {
                    keyframe_var: if open {
                        None
                    } else {
                        Some(var)
                    },
                    keyframe: if open {
                        None
                    } else {
                        Some(0)
                    },
                    dirty: true,
                    ..p
                },
                Seq::empty(),
                true,
                false,
            )
        } else {
            (
                Panels { dirty: true, ..p },
                if c.eff_rows is Some {
                    seq![ClickAct::EffClick, ClickAct::EffApply]
                } else {
                    seq![ClickAct::EffApply]
                },
                false,
                false,
            )
        },
    }
}

/// What the left button going up does in the other panels.
pub open spec fn release_in_panels(p: Panels, c: Click) -> (Panels, Seq<ClickAct>) {
    if !p.show_properties {
        (p, Seq::empty())
    } else if p.tool == TOOL_LINE {
        (
            Panels { line_dragging: false, ..p },
            if c.inside && c.has_lines {
                seq![ClickAct::LineClick]
            } else {
                Seq::empty()
            },
        )
    } else if !c.inside {
        (p, Seq::empty())
    } else if p.tool == TOOL_BPM && c.has_bpm {
        (Panels { bpm_dragging: false, ..p }, seq![ClickAct::BpmClick, ClickAct::BpmApply])
    } else if p.tool == TOOL_SETTINGS {
        (
            Panels { settings_dragging: false, ..p },
            if c.has_settings {
                seq![ClickAct::SettingsClick, ClickAct::SettingsApply]
            } else {
                seq![ClickAct::SettingsApply]
            },
        )
    } else if p.tool == TOOL_CHART && c.has_grid {
        (Panels { dirty: true, ..p }, seq![ClickAct::GridClick])
    } else {
        (p, Seq::empty())
    }
}

/// Whether the effect panel gets the click.
pub open spec fn effects_clicked(p: Panels, c: Click) -> bool {
    p.show_properties && p.tool == TOOL_EFFECTS && c.inside
}

/// What the left button going up does, and whether the number that is being typed is given up.
pub open spec fn left_up(p: Panels, c: Click) -> (Panels, Seq<ClickAct>, bool) {
    let end = seq![ClickAct::Timeline(false)] + if c.over_events {
        seq![ClickAct::SyncEvents]
    } else {
        Seq::empty()
    };
    if effects_clicked(p, c) {
        let e = effect_click(p, c);
        if e.2 {
            (e.0, e.1, e.3)
        } else {
            (e.0, e.1 + end, e.3)
        }
    } else {
        let r = release_in_panels(p, c);
        (r.0, r.1 + end, false)
    }
}

fn press_panels(p: Panels, c: Click, out: &mut Vec<ClickAct>) -> (r: Panels)
    ensures
        r == press_in_panels(p, c).0,
        final(out)@ == old(out)@ + press_in_panels(p, c).1,
{
    if !p.show_properties || !c.inside {
        return p;
    }
    if p.tool == TOOL_LINE && c.hit == Hit::ScrollBar {
        return Panels { line_dragging: true, ..p };
    }
    if p.tool == TOOL_SETTINGS && c.hit == Hit::Slider {
        if c.has_settings {
            out.push(ClickAct::SettingsClick);
        }
        return Panels { settings_dragging: true, ..p };
    }
    if p.tool == TOOL_BPM && (c.hit == Hit::Slider || c.hit == Hit::Field) {
        if c.has_bpm {
            out.push(ClickAct::BpmClick);
        }
        return Panels { bpm_dragging: true, ..p };
    }
    p
}

fn click_effects(p: Panels, c: Click, out: &mut Vec<ClickAct>) -> (r: (Panels, bool, bool))
    requires
        c.row matches Some(id) ==> id >= 1,
        c.effects < usize::MAX - 4,
    ensures
        (r.0, final(out)@, r.1, r.2) == (
            effect_click(p, c).0,
            old(out)@ + effect_click(p, c).1,
            effect_click(p, c).2,
            effect_click(p, c).3,
        ),
{
    if let Some(row) = c.keyframe_row {
        let second: bool = match (p.keyframe, p.keyframe_click) {
            (Some(k), Some(t)) => k == row && (c.now < t || c.now - t < DOUBLE_CLICK),
            _ => false,
        };
        if second {
            out.push(ClickAct::EditKeyframe(row));
        }
        return (
            Panels { keyframe: Some(row), keyframe_click: Some(c.now), dirty: true, ..p },
            true,
            false,
        );
    }
    let id: usize = match c.row {
        Some(id) => id,
        None => {
            return (p, false, false);
        },
    };
    let is_add: bool = match c.eff_rows {
        Some(n) => id - 1 == n,
        None => false,
    };
    if is_add {
        out.push(ClickAct::AddEffect);
        return (Panels { dirty: true, ..p }, false, true);
    }
    if id <= c.effects {
        out.push(ClickAct::ResetEffPanel);
        return (
            Panels {
                effect: Some(id - 1),
                keyframe_var: None,
                keyframe: None,
                dirty: true,
                ..p
            },
            false,
            true,
        );
    }
    if id < 1000 && id > c.effects + 4 && c.keyframed {
        let var: usize = id - 1 - c.effects - 4;
        let open: bool = match p.keyframe_var {
            Some(k) => k == var,
            None => false,
        };
        return if open {
            (Panels { keyframe_var: None, keyframe: None, dirty: true, ..p }, true, false)
        } else {
            (Panels { keyframe_var: Some(var), keyframe: Some(0), dirty: true, ..p }, true, false)
        };
    }
    if c.eff_rows.is_some() {
        out.push(ClickAct::EffClick);
    }
    out.push(ClickAct::EffApply);
    (Panels { dirty: true, ..p }, false, false)
}

fn release_panels(p: Panels, c: Click, out: &mut Vec<ClickAct>) -> (r: Panels)
    ensures
        r == release_in_panels(p, c).0,
        final(out)@ == old(out)@ + release_in_panels(p, c).1,
{
    if !p.show_properties {
        return p;
    }
    if p.tool == TOOL_LINE {
        if c.inside && c.has_lines {
            out.push(ClickAct::LineClick);
        }
        return Panels { line_dragging: false, ..p };
    }
    if !c.inside {
        return p;
    }
    if p.tool == TOOL_BPM && c.has_bpm {
        out.push(ClickAct::BpmClick);
        out.push(ClickAct::BpmApply);
        return Panels { bpm_dragging: false, ..p };
    }
    if p.tool == TOOL_SETTINGS {
        if c.has_settings {
            out.push(ClickAct::SettingsClick);
        }
        out.push(ClickAct::SettingsApply);
        return Panels { settings_dragging: false, ..p };
    }
    if p.tool == TOOL_CHART && c.has_grid {
        out.push(ClickAct::GridClick);
        return Panels { dirty: true, ..p };
    }
    p
}

/// What a click on the timeline's empty space asks for.
#[derive(Clone, Copy, PartialEq, Eq, Structural, Debug)]
pub enum TimelineAct {
    Nothing,
    /// An event of that kind is made there.
    Create(EventKind),
    /// The playhead goes there.
    Seek,
}

/// Whether a click in a column is the second of a double click there.
pub open spec fn is_second_in_column(v: Editing, column: Seq<char>, now: u64) -> bool {
    &&& v.event_click is Some
    &&& (v.event_click->0).1 == column
    &&& now - (v.event_click->0).0 < DOUBLE_CLICK
}

/// The editor after a click on an event of the timeline.
pub open spec fn event_clicked(v: Editing, e: usize) -> Editing {
    Editing {
        p: Panels { event: Some(e), dirty: true, ..v.p },
        events: if v.events.contains(e) {
            v.events
        } else {
            Seq::empty()
        },
        event_click: None,
        ..v
    }
}

/// The editor after a click in the empty part of a column of the timeline.
pub open spec fn column_clicked(v: Editing, column: Seq<char>, now: u64) -> Editing {
    if is_second_in_column(v, column, now) {
        Editing { p: Panels { dirty: true, ..v.p }, event_click: None, ..v }
    } else {
        Editing {
            p: Panels { event: None, dirty: true, ..v.p },
            events: Seq::empty(),
            event_click: Some((now, column)),
            ..v
        }
    }
}

/// What a click in a column asks for.
pub open spec fn is_column_act(a: TimelineAct, column: Seq<char>, second: bool) -> bool {
    match a {
        TimelineAct::Seek => !second,
        TimelineAct::Create(k) => second && column == kind_name(k),
        TimelineAct::Nothing => second && forall|k: EventKind| column != #[trigger] kind_name(k),
    }
}

fn has_index(v: &Vec<usize>, e: usize) -> (r: bool)
    ensures
        r == v@.contains(e),
{
    let mut i: usize = 0;
    while i < v.len()
        invariant
            i <= v.len(),
            forall|k: int| 0 <= k < i ==> #[trigger] v@[k] != e,
        decreases v.len() - i,
    {
        if v[i] == e {
            return true;
        }
        i = i + 1;
    }
    false
}

/// What the menus and buttons ask for.
#[derive(Clone, Copy, PartialEq, Eq, Structural, Debug)]
pub enum Message {
    ToggleEvents,
    ToggleNotes,
    DeleteNote,
    DeleteEvent,
    MenuSave,
    MenuLoad,
    MenuExport,
    MenuQuit,
    SeekToBeat,
    PlaceNote,
    SetLoopA,
    SetLoopB,
    EditComment,
}

/// What is to be done for a message.
#[derive(Clone, Copy, PartialEq, Eq, Structural, Debug)]
pub enum Command {
    DeleteNote(usize),
    DeleteEvents,
    Save,
    /// Asks for a chart to open, or for where to put a package.
    OpenDialog,
    ExportDialog,
    Leave,
    /// The message with that number says where, or which note.
    SeekToBeat(usize),
    PlaceNote(usize),
    LoopPoint(bool),
    EditComment(CommentTarget),
}

/// Whether nothing is done after a message.
pub open spec fn is_last(m: Message) -> bool {
    m is MenuLoad || m is MenuExport || m is MenuQuit
}

/// What a comment is written to: over the notes, the chosen note where one was hit, else the line.
pub open spec fn comment_target(p: Panels, on_events: bool, note_hit: bool) -> CommentTarget {
    if !on_events && note_hit && p.note is Some {
        CommentTarget::Note(p.line, p.note->0)
    } else {
        CommentTarget::Line(p.line)
    }
}

/// The editor after a message, and what is to be done. `at` is the number of the message.
pub open spec fn messaged(p: Panels, m: Message, on_events: bool, note_hit: bool, at: usize) -> (
    Panels,
    Seq<Command>,
) {
    match m {
        Message::ToggleEvents => (
            Panels { show_events: !p.show_events, dirty: true, ..p },
            Seq::empty(),
        ),
        Message::ToggleNotes => (
            Panels { show_notes: !p.show_notes, dirty: true, ..p },
            Seq::empty(),
        ),
        Message::DeleteNote => (
            Panels { note: None, ..p },
            if p.note is Some {
                seq![Command::DeleteNote(p.note->0)]
            } else {
                Seq::empty()
            },
        ),
        Message::DeleteEvent => (p, seq![Command::DeleteEvents]),
        Message::MenuSave => (Panels { menu_open: false, dirty: true, ..p }, seq![Command::Save]),
        Message::MenuLoad => (
            Panels { menu_open: false, dirty: true, ..p },
            seq![Command::OpenDialog],
        ),
        Message::MenuExport => (
            Panels { menu_open: false, dirty: true, ..p },
            seq![Command::ExportDialog],
        ),
        Message::MenuQuit => (p, seq![Command::Leave]),
        Message::SeekToBeat => (p, seq![Command::SeekToBeat(at)]),
        Message::PlaceNote => (p, seq![Command::PlaceNote(at)]),
        Message::SetLoopA => (Panels { dirty: true, ..p }, seq![Command::LoopPoint(true)]),
        Message::SetLoopB => (Panels { dirty: true, ..p }, seq![Command::LoopPoint(false)]),
        Message::EditComment => (
            p,
            seq![Command::EditComment(comment_target(p, on_events, note_hit))],
        ),
    }
}

/// The editor after messages from number `from` on, and what is to be done: nothing after one that
/// leaves the editor or opens a dialog.
pub open spec fn messaged_all(
    p: Panels,
    ms: Seq<Message>,
    on_events: bool,
    note_hit: bool,
    from: int,
) -> (Panels, Seq<Command>)
    decreases ms.len() - from,
{
    if from < 0 || from >= ms.len() {
        (p, Seq::empty())
    } else {
        let r = messaged(p, ms[from], on_events, note_hit, from as usize);
        if is_last(ms[from]) {
            r
        } else {
            let rest = messaged_all(r.0, ms, on_events, note_hit, from + 1);
            (rest.0, r.1 + rest.1)
        }
    }
}

fn message(
    p: Panels,
    m: Message,
    on_events: bool,
    note_hit: bool,
    at: usize,
    out: &mut Vec<Command>,
) -> (r: Panels)
    ensures
        r == messaged(p, m, on_events, note_hit, at).0,
        final(out)@ == old(out)@ + messaged(p, m, on_events, note_hit, at).1,
{
    match m {
        Message::ToggleEvents => Panels { show_events: !p.show_events, dirty: true, ..p },
        Message::ToggleNotes => Panels { show_notes: !p.show_notes, dirty: true, ..p },
        Message::DeleteNote => {
            if let Some(n) = p.note {
                out.push(Command::DeleteNote(n));
            }
            Panels { note: None, ..p }
        },
        Message::DeleteEvent => {
            out.push(Command::DeleteEvents);
            p
        },
        Message::MenuSave => {
            out.push(Command::Save);
            Panels { menu_open: false, dirty: true, ..p }
        },
        Message::MenuLoad => {
            out.push(Command::OpenDialog);
            Panels { menu_open: false, dirty: true, ..p }
        },
        Message::MenuExport => {
            out.push(Command::ExportDialog);
            Panels { menu_open: false, dirty: true, ..p }
        },
        Message::MenuQuit => {
            out.push(Command::Leave);
            p
        },
        Message::SeekToBeat => {
            out.push(Command::SeekToBeat(at));
            p
        },
        Message::PlaceNote => {
            out.push(Command::PlaceNote(at));
            p
        },
        Message::SetLoopA => {
            out.push(Command::LoopPoint(true));
            Panels { dirty: true, ..p }
        },
        Message::SetLoopB => {
            out.push(Command::LoopPoint(false));
            Panels { dirty: true, ..p }
        },
        Message::EditComment => {
            let line: CommentTarget = CommentTarget::Line(p.line);
            let target: CommentTarget = if !on_events && note_hit {
                match p.note {
                    Some(n) => CommentTarget::Note(p.line, n),
                    None => line,
                }
            } else {
                line
            };
            out.push(Command::EditComment(target));
            p
        },
    }
}

impl Editor {
    /// A key that is held while others are pressed went down.
    pub fn hold(&mut self, code: Key)
        ensures
            final(self)@ == (Editing { p: held_key(old(self)@.p, code, true), ..old(self)@ }),
    {
        let p: Panels = self.p;
        match code {
            Key::Control => {
                self.p = Panels { ctrl: true, ..p };
            },
            Key::Shift => {
                self.p = Panels { shift: true, ..p };
            },
            Key::Alt => {
                self.p = Panels { alt: true, ..p };
            },
            _ => {},
        }
    }

    fn go_to_line(&mut self, line: usize)
        ensures
            final(self)@ == on_line(old(self)@, line),
    {
        let p: Panels = self.p;
        self.p = Panels { line, cache_valid: false, dirty: true, note: None, event: None, ..p };
        self.notes = Vec::new();
        self.events = Vec::new();
    }

    /// A key went up, in a chart of `lines` lines.
    pub fn release(&mut self, code: Key, lines: usize)
        ensures
            final(self)@ == released(old(self)@, code, lines as int),
    {
        let p: Panels = self.p;
        match code {
            Key::Control => {
                self.p = Panels { ctrl: false, ..p };
            },
            Key::Shift => {
                self.p = Panels { shift: false, ..p };
            },
            Key::Alt => {
                self.p = Panels { alt: false, ..p };
            },
            Key::Z => {
                if !p.ctrl && lines > 0 {
                    let line: u128 = (p.line as u128 + lines as u128 - 1) % (lines as u128);
                    self.go_to_line(line as usize);
                }
            },
            Key::C => {
                if !p.ctrl && lines > 0 {
                    let line: u128 = (p.line as u128 + 1) % (lines as u128);
                    self.go_to_line(line as usize);
                }
            },
            _ => {},
        }
    }

    /// A line was clicked in the list of lines.
    pub fn line_clicked(&mut self, line: Option<usize>)
        ensures
            final(self)@ == (if line is Some && line->0 != old(self)@.p.line {
                on_line(old(self)@, line->0)
            } else {
                old(self)@
            }),
    {
        if let Some(l) = line {
            if l != self.p.line {
                self.go_to_line(l);
            }
        }
    }

    /// The chosen event becomes the first of the group.
    pub fn sync_event_sel(&mut self)
        ensures
            final(self)@ == (Editing {
                p: Panels { event: first_of(old(self)@.events), dirty: true, ..old(self)@.p },
                ..old(self)@
            }),
    {
        let first: Option<usize> = if self.events.len() > 0 {
            Some(self.events[0])
        } else {
            None
        };
        let p: Panels = self.p;
        self.p = Panels { event: first, dirty: true, ..p };
    }

    /// Whether the pointer is over the panel of a tool.
    pub fn is_mouse_over_props(&self, splash: bool, at: Pointer, tool: u8) -> (r: bool)
        ensures
            r == over_panel(self@, splash, at, tool),
    {
        if splash || !self.p.show_properties || self.p.tool != tool {
            return false;
        }
        if tool == TOOL_LINE {
            at.over_panels
        } else {
            at.over_widget
        }
    }

    /// What the wheel does, which moved to the side or upright or both.
    pub fn wheel(&self, splash: bool, at: Pointer, side: bool, upright: bool) -> (r: Vec<WheelAct>)
        ensures
            r@ == wheel_acts(self@, splash, at, side, upright),
    {
        let mut r: Vec<WheelAct> = Vec::new();
        if splash {
            if upright {
                r.push(WheelAct::ScrollCharts);
            }
            return r;
        }
        if side {
            r.push(WheelAct::SeekAcross);
        }
        if upright {
            if self.is_mouse_over_props(false, at, TOOL_EFFECTS) {
                r.push(
                    if self.p.keyframe_var.is_some() {
                        WheelAct::KeyframeEasing
                    } else {
                        WheelAct::Effects
                    },
                );
            } else if self.is_mouse_over_props(false, at, TOOL_BPM) {
                r.push(WheelAct::Bpm);
            } else if self.is_mouse_over_props(false, at, TOOL_SETTINGS) {
                r.push(WheelAct::Settings);
            } else if self.is_mouse_over_props(false, at, TOOL_LINE) {
                r.push(WheelAct::Lines);
            } else if (self.p.show_events || self.p.show_notes) && at.over_timeline {
                if self.p.ctrl {
                    r.push(WheelAct::ZoomTimeline);
                } else if at.below_bar {
                    r.push(WheelAct::ScrollTimeline);
                }
            } else {
                r.push(WheelAct::SeekAlong);
            }
        }
        r
    }

    /// The left button went down, or up.
    pub fn left_button(&mut self, down: bool, c: Click) -> (r: Vec<ClickAct>)
        requires
            c.row matches Some(id) ==> id >= 1,
            c.effects < usize::MAX - 4,
        ensures
            down ==> r@ == left_down(old(self)@.p, c).1 && final(self)@ == (Editing {
                p: left_down(old(self)@.p, c).0,
                ..old(self)@
            }),
            !down ==> r@ == left_up(old(self)@.p, c).1 && final(self)@ == (Editing {
                p: left_up(old(self)@.p, c).0,
                number: if left_up(old(self)@.p, c).2 {
                    None
                } else {
                    old(self)@.number
                },
                ..old(self)@
            }),
    {
        let mut r: Vec<ClickAct> = Vec::new();
        let p: Panels = self.p;
        if down {
            r.push(ClickAct::ShowClick);
            if c.inside && !p.show_overlay && c.on_pause {
                if c.audio {
                    r.push(ClickAct::TogglePause);
                }
                return r;
            }
            self.p = press_panels(p, c, &mut r);
            r.push(ClickAct::DropDrag);
            r.push(ClickAct::Timeline(true));
            return r;
        }
        if p.show_properties && p.tool == TOOL_EFFECTS && c.inside {
            let (q, used, cancelled): (Panels, bool, bool) = click_effects(p, c, &mut r);
            self.p = q;
            if cancelled {
                self.number = None;
            }
            if used {
                return r;
            }
        } else {
            self.p = release_panels(p, c, &mut r);
        }
        r.push(ClickAct::Timeline(false));
        if c.over_events {
            r.push(ClickAct::SyncEvents);
        }
        r
    }

    /// The right button went down over the events, on the event `hit` or on none.
    pub fn right_click_on_events(&mut self, hit: Option<usize>)
        ensures
            final(self)@ == (Editing {
                p: Panels { event: hit, dirty: true, ..old(self)@.p },
                events: Seq::empty(),
                ..old(self)@
            }),
    {
        let p: Panels = self.p;
        self.p = Panels { event: hit, dirty: true, ..p };
        self.events = Vec::new();
    }

    /// A click on an event of the timeline. A click on one of a group keeps the group.
    pub fn click_event(&mut self, e: usize)
        ensures
            final(self)@ == event_clicked(old(self)@, e),
    {
        if !has_index(&self.events, e) {
            self.events = Vec::new();
        }
        self.p = Panels { event: Some(e), dirty: true, ..self.p };
        self.event_click = None;
    }

    /// A click in the empty part of a column of the timeline. Two clicks make an event there; one
    /// moves the playhead there and chooses nothing.
    pub fn click_column(&mut self, column: String, now: u64) -> (r: TimelineAct)
        ensures
            final(self)@ == column_clicked(old(self)@, column@, now),
            is_column_act(r, column@, is_second_in_column(old(self)@, column@, now)),
    {
        let second: bool = match &self.event_click {
            Some(c) => same(c.1.as_str(), column.as_str()) && (now < c.0 || now - c.0
                < DOUBLE_CLICK),
            None => false,
        };
        if second {
            self.p = Panels { dirty: true, ..self.p };
            self.event_click = None;
            match event_kind_of(column.as_str()) {
                Some(k) => TimelineAct::Create(k),
                None => TimelineAct::Nothing,
            }
        } else {
            self.p = Panels { event: None, dirty: true, ..self.p };
            self.events = Vec::new();
            self.event_click = Some((now, column));
            TimelineAct::Seek
        }
    }

    /// What the menus and buttons asked for: what is to be done, in order. `on_events` says that the
    /// menu was opened over the events, `note_hit` that it was opened on a note.
    #[verifier::spinoff_prover]
    #[verifier::rlimit(40)]
    pub fn messages(&mut self, ms: &[Message], on_events: bool, note_hit: bool) -> (r: Vec<Command>)
        ensures
            r@ == messaged_all(old(self)@.p, ms@, on_events, note_hit, 0).1,
            final(self)@ == (Editing {
                p: messaged_all(old(self)@.p, ms@, on_events, note_hit, 0).0,
                ..old(self)@
            }),
    {
        let mut p: Panels = self.p;
        let mut r: Vec<Command> = Vec::new();
        let mut i: usize = 0;
        let ghost all = messaged_all(p, ms@, on_events, note_hit, 0);
        while i < ms.len()
            invariant
                i <= ms.len(),
                *self == *old(self),
                all.0 == messaged_all(p, ms@, on_events, note_hit, i as int).0,
                all.1 == r@ + messaged_all(p, ms@, on_events, note_hit, i as int).1,
                all == messaged_all(old(self)@.p, ms@, on_events, note_hit, 0),
            decreases ms.len() - i,
        {
            let m: Message = ms[i];
            let ghost before = r@;
            let ghost step = messaged(p, m, on_events, note_hit, i);
            p = message(p, m, on_events, note_hit, i, &mut r);
            match m {
                Message::MenuLoad | Message::MenuExport | Message::MenuQuit => {
                    self.p = p;
                    return r;
                },
                _ => {},
            }
            assert(before + (step.1 + messaged_all(p, ms@, on_events, note_hit, i + 1).1) =~= r@
                + messaged_all(p, ms@, on_events, note_hit, i + 1).1);
            i = i + 1;
        }
        self.p = p;
        r
    }

    /// A note was deleted, or notes were pasted.
    pub fn notes_changed(&mut self)
        ensures
            final(self)@ == (Editing {
                p: Panels {
                    note: None,
                    event: None,
                    cache_valid: false,
                    dirty: true,
                    ..old(self)@.p
                },
                notes: Seq::empty(),
                ..old(self)@
            }),
    {
        let p: Panels = self.p;
        self.p = Panels { note: None, event: None, cache_valid: false, dirty: true, ..p };
        self.notes = Vec::new();
    }

    /// The chart was changed.
    pub fn chart_changed(&mut self)
        ensures
            final(self)@ == (Editing {
                p: Panels { event: None, cache_valid: false, dirty: true, ..old(self)@.p },
                ..old(self)@
            }),
    {
        let p: Panels = self.p;
        self.p = Panels { event: None, cache_valid: false, dirty: true, ..p };
    }

    /// An event was changed, and stands at `place` of the timeline's list now.
    pub fn event_edited(&mut self, place: Option<usize>)
        ensures
            final(self)@ == (Editing {
                p: Panels { event: place, cache_valid: false, dirty: true, ..old(self)@.p },
                ..old(self)@
            }),
    {
        let p: Panels = self.p;
        self.p = Panels { event: place, cache_valid: false, dirty: true, ..p };
    }

    /// An event was made, and stands at `place`; or the chosen events were deleted.
    pub fn event_added(&mut self, place: Option<usize>)
        ensures
            final(self)@ == (Editing {
                p: Panels { event: place, cache_valid: false, dirty: true, ..old(self)@.p },
                events: Seq::empty(),
                event_click: None,
                ..old(self)@
            }),
    {
        let p: Panels = self.p;
        self.p = Panels { event: place, cache_valid: false, dirty: true, ..p };
        self.events = Vec::new();
        self.event_click = None;
    }

    /// The chosen events were moved, and stand at `places` now.
    pub fn events_nudged(&mut self, places: Vec<usize>)
        ensures
            final(self)@ == (Editing {
                p: Panels {
                    event: first_of(places@),
                    cache_valid: false,
                    dirty: true,
                    ..old(self)@.p
                },
                events: places@,
                ..old(self)@
            }),
    {
        let first: Option<usize> = if places.len() > 0 {
            Some(places[0])
        } else {
            None
        };
        let p: Panels = self.p;
        self.p = Panels { event: first, cache_valid: false, dirty: true, ..p };
        self.events = places;
    }
}

/// Law: the keys for the lines undo each other.
pub proof fn law_lines_go_round(v: Editing, lines: int)
    requires
        !v.p.ctrl,
        0 <= v.p.line < lines <= usize::MAX,
    ensures
        released(released(v, Key::C, lines), Key::Z, lines).p.line == v.p.line,
        released(released(v, Key::Z, lines), Key::C, lines).p.line == v.p.line,
        released(v, Key::C, lines).p.line < lines,
        released(v, Key::Z, lines).p.line < lines,
{
    let i = v.p.line as int;
    let n = lines;
    if i + 1 == n {
        vstd::arithmetic::div_mod::lemma_mod_self_0(n);
        vstd::arithmetic::div_mod::lemma_small_mod((n - 1) as nat, n as nat);
    } else {
        vstd::arithmetic::div_mod::lemma_small_mod((i + 1) as nat, n as nat);
        vstd::arithmetic::div_mod::lemma_mod_add_multiples_vanish(i, n);
        vstd::arithmetic::div_mod::lemma_small_mod(i as nat, n as nat);
        assert((i + 1) + n - 1 == n + i);
    }
    if i == 0 {
        vstd::arithmetic::div_mod::lemma_small_mod((n - 1) as nat, n as nat);
        vstd::arithmetic::div_mod::lemma_mod_self_0(n);
    } else {
        vstd::arithmetic::div_mod::lemma_mod_add_multiples_vanish(i - 1, n);
        vstd::arithmetic::div_mod::lemma_small_mod((i - 1) as nat, n as nat);
        vstd::arithmetic::div_mod::lemma_small_mod(i as nat, n as nat);
        assert(i + n - 1 == n + (i - 1));
    }
}

/// Law: letting go of the keys of a shortcut with control changes no line.
pub proof fn law_shortcuts_keep_the_line(v: Editing, code: Key, lines: int)
    requires
        v.p.ctrl,
    ensures
        released(v, code, lines).p.line == v.p.line,
        released(v, code, lines).notes == v.notes,
        released(v, code, lines).events == v.events,
{
}

/// Law: nothing is done after a message that leaves the editor or opens a dialog.
pub proof fn law_last_message_ends(p: Panels, ms: Seq<Message>, more: Seq<Message>, on_events: bool, note_hit: bool)
    requires
        ms.len() > 0,
        is_last(ms[0]),
    ensures
        messaged_all(p, ms + more, on_events, note_hit, 0) == messaged_all(
            p,
            ms,
            on_events,
            note_hit,
            0,
        ),
{
    assert((ms + more)[0] == ms[0]);
}

/// Law: a held key is held from when it goes down until it goes up, and each for itself.
pub proof fn law_held_keys(p: Panels, code: Key, down: bool)
    ensures
        held_key(p, Key::Control, down) == (Panels { ctrl: down, ..p }),
        held_key(p, Key::Shift, down) == (Panels { shift: down, ..p }),
        held_key(p, Key::Alt, down) == (Panels { alt: down, ..p }),
        !(code is Control || code is Shift || code is Alt) ==> held_key(p, code, down) == p,
{
}

/// Law: the key for the next line goes one on, and from the last line to the first; the other one goes
/// one back, and from the first line to the last. On another line nothing is chosen yet.
pub proof fn law_next_and_previous_line(v: Editing, lines: int)
    requires
        !v.p.ctrl,
        0 <= v.p.line < lines <= usize::MAX,
    ensures
        v.p.line + 1 < lines ==> released(v, Key::C, lines).p.line == v.p.line + 1,
        v.p.line + 1 == lines ==> released(v, Key::C, lines).p.line == 0,
        v.p.line > 0 ==> released(v, Key::Z, lines).p.line == v.p.line - 1,
        v.p.line == 0 ==> released(v, Key::Z, lines).p.line == lines - 1,
        forall|code: Key|
            #![trigger released(v, code, lines)]
            code is C || code is Z ==> {
                let w = released(v, code, lines);
                w.p.note is None && w.p.event is None && w.notes.len() == 0 && w.events.len() == 0
                    && !w.p.cache_valid
            },
        forall|code: Key|
            #![trigger released(v, code, lines)]
            !(code is C || code is Z) ==> {
                let w = released(v, code, lines);
                w.p.line == v.p.line && w.p.note == v.p.note && w.p.event == v.p.event && w.notes
                    == v.notes && w.events == v.events
            },
{
    let i = v.p.line as int;
    let n = lines;
    if i + 1 == n {
        vstd::arithmetic::div_mod::lemma_mod_self_0(n);
    } else {
        vstd::arithmetic::div_mod::lemma_small_mod((i + 1) as nat, n as nat);
    }
    if i == 0 {
        vstd::arithmetic::div_mod::lemma_small_mod((n - 1) as nat, n as nat);
    } else {
        vstd::arithmetic::div_mod::lemma_mod_add_multiples_vanish(i - 1, n);
        vstd::arithmetic::div_mod::lemma_small_mod((i - 1) as nat, n as nat);
        assert(i + n - 1 == n + (i - 1));
    }
}

/// Law: on the chart list the wheel only scrolls the list. In the editor, to the side, it moves the
/// playhead. Upright it belongs to the panel that the pointer is over, then to the timeline, which it
/// zooms with control held and else scrolls, and else to the playhead.
pub proof fn law_wheel(v: Editing, at: Pointer, side: bool)
    ensures
        wheel_acts(v, true, at, side, true) == seq![WheelAct::ScrollCharts],
        wheel_acts(v, true, at, side, false).len() == 0,
        wheel_acts(v, false, at, true, false) == seq![WheelAct::SeekAcross],
        wheel_acts(v, false, at, false, false).len() == 0,
        wheel_acts(v, false, at, true, true) == seq![WheelAct::SeekAcross] + wheel_acts(
            v,
            false,
            at,
            false,
            true,
        ),
        ({
            let r = wheel_acts(v, false, at, false, true);
            let shown = v.p.show_properties;
            let panel = shown && (v.p.tool == 1 && at.over_panels || (v.p.tool == 2 || v.p.tool == 3
                || v.p.tool == 4) && at.over_widget);
            let timeline = (v.p.show_events || v.p.show_notes) && at.over_timeline;
            &&& panel && v.p.tool == 1 ==> r == seq![WheelAct::Lines]
            &&& panel && v.p.tool == 2 ==> r == seq![WheelAct::Settings]
            &&& panel && v.p.tool == 3 && v.p.keyframe_var is Some ==> r == seq![
                WheelAct::KeyframeEasing,
            ]
            &&& panel && v.p.tool == 3 && v.p.keyframe_var is None ==> r == seq![WheelAct::Effects]
            &&& panel && v.p.tool == 4 ==> r == seq![WheelAct::Bpm]
            &&& !panel && timeline && v.p.ctrl ==> r == seq![WheelAct::ZoomTimeline]
            &&& !panel && timeline && !v.p.ctrl && at.below_bar ==> r == seq![
                WheelAct::ScrollTimeline,
            ]
            &&& !panel && timeline && !v.p.ctrl && !at.below_bar ==> r.len() == 0
            &&& !panel && !timeline ==> r == seq![WheelAct::SeekAlong]
        }),
{
    let r = wheel_acts(v, false, at, false, true);
    assert(r =~= wheel_upright(v, at));
    assert(wheel_acts(v, false, at, true, false) =~= seq![WheelAct::SeekAcross]);
    assert(wheel_acts(v, false, at, true, true) =~= seq![WheelAct::SeekAcross] + r);
}

/// Law: the left button on the pause button pauses and does nothing else; anywhere else it shows the
/// click first, and hands it to the timeline last.
#[verifier::spinoff_prover]
#[verifier::rlimit(40)]
pub proof fn law_press(p: Panels, c: Click)
    ensures
        ({
            let r = left_down(p, c);
            let pause = c.inside && !p.show_overlay && c.on_pause;
            &&& r.1.len() > 0 && r.1[0] == ClickAct::ShowClick
            &&& pause ==> r.0 == p && r.1.len() == (if c.audio { 2int } else { 1 })
            &&& pause && c.audio ==> r.1[1] == ClickAct::TogglePause
            &&& !pause ==> r.1.len() >= 3 && r.1.last() == ClickAct::Timeline(true) && r.1[r.1.len()
                - 2] == ClickAct::DropDrag
            &&& r.0.line_dragging != p.line_dragging ==> p.tool == 1 && c.hit is ScrollBar
                && r.0.line_dragging
            &&& r.0.settings_dragging != p.settings_dragging ==> p.tool == 2 && c.hit is Slider
                && r.0.settings_dragging
            &&& r.0.bpm_dragging != p.bpm_dragging ==> p.tool == 4 && (c.hit is Slider
                || c.hit is Field) && r.0.bpm_dragging
            &&& !pause && c.inside && p.show_properties && p.tool == 1 && c.hit is ScrollBar ==> r.0
                == (Panels { line_dragging: true, ..p })
            &&& !pause && c.inside && p.show_properties && p.tool == 2 && c.hit is Slider ==> r.0 == (
            Panels { settings_dragging: true, ..p }) && (c.has_settings ==> r.1[1]
                == ClickAct::SettingsClick)
            &&& !pause && c.inside && p.show_properties && p.tool == 4 && (c.hit is Slider
                || c.hit is Field) ==> r.0 == (Panels { bpm_dragging: true, ..p }) && (
            c.has_bpm ==> r.1[1] == ClickAct::BpmClick)
        }),
{
}

/// Law: letting the left button go ends the drag of the panel that is shown, hands it the click and
/// then takes over what it holds; the timeline gets the click after it, unless keyframes used it up.
#[verifier::spinoff_prover]
#[verifier::rlimit(80)]
pub proof fn law_release(p: Panels, c: Click)
    requires
        p.show_properties,
        c.inside,
    ensures
        ({
            let r = left_up(p, c);
            let over = if c.over_events {
                1int
            } else {
                0
            };
            &&& p.tool == 1 ==> r.0 == (Panels { line_dragging: false, ..p }) && (c.has_lines
                ==> r.1[0] == ClickAct::LineClick)
            &&& p.tool == 2 ==> r.0 == (Panels { settings_dragging: false, ..p })
            &&& p.tool == 2 && c.has_settings ==> r.1[0] == ClickAct::SettingsClick && r.1[1]
                == ClickAct::SettingsApply
            &&& p.tool == 2 && !c.has_settings ==> r.1[0] == ClickAct::SettingsApply
            &&& p.tool == 4 && c.has_bpm ==> r.0 == (Panels { bpm_dragging: false, ..p }) && r.1[0]
                == ClickAct::BpmClick && r.1[1] == ClickAct::BpmApply
            &&& p.tool == 0 && c.has_grid ==> r.1[0] == ClickAct::GridClick
            &&& p.tool != 3 ==> !r.2 && r.1.len() >= 1 + over && r.1[r.1.len() - 1 - over]
                == ClickAct::Timeline(false) && (c.over_events ==> r.1.last() == ClickAct::SyncEvents)
        }),
{
}

/// Law: a click on a row of keyframes chooses it and is used up, and a second one within three tenths of a
/// second opens its first beat for typing; one that comes later, or on another row, does not.
pub proof fn law_click_on_keyframes(p: Panels, c: Click, row: usize)
    requires
        p.show_properties,
        p.tool == 3,
        c.inside,
        c.keyframe_row == Some(row),
    ensures
        left_up(p, c).0 == (Panels {
            keyframe: Some(row),
            keyframe_click: Some(c.now),
            dirty: true,
            ..p
        }),
        p.keyframe == Some(row) && p.keyframe_click is Some && c.now - p.keyframe_click->0
            < 300_000_000 ==> left_up(p, c).1 == seq![ClickAct::EditKeyframe(row)],
        p.keyframe != Some(row) || p.keyframe_click is None || c.now - p.keyframe_click->0
            >= 300_000_000 ==> left_up(p, c).1.len() == 0,
        !left_up(p, c).2,
{
}

/// Law: a click on the row of an effect chooses that effect, closes its keyframes and gives up the number
/// that is being typed; the row behind the last adds an effect.
pub proof fn law_click_on_effects(p: Panels, c: Click, id: usize)
    requires
        p.show_properties,
        p.tool == 3,
        c.inside,
        c.keyframe_row is None,
        c.row == Some(id),
        id >= 1,
    ensures
        c.eff_rows is Some && id == c.eff_rows->0 + 1 ==> left_up(p, c).1[0] == ClickAct::AddEffect
            && left_up(p, c).2,
        !(c.eff_rows is Some && id == c.eff_rows->0 + 1) && id <= c.effects ==> {
            let q = left_up(p, c).0;
            q.effect is Some && q.effect->0 + 1 == id && q.keyframe_var is None && q.keyframe is None
                && left_up(p, c).1[0] == ClickAct::ResetEffPanel && left_up(p, c).2
        },
        !(c.eff_rows is Some && id == c.eff_rows->0 + 1) && id > c.effects && (id >= 1000 || id
            <= c.effects + 4 || !c.keyframed) ==> left_up(p, c).0 == (Panels { dirty: true, ..p }) && (
        c.eff_rows is Some ==> left_up(p, c).1[0] == ClickAct::EffClick && left_up(p, c).1[1]
            == ClickAct::EffApply) && (c.eff_rows is None ==> left_up(p, c).1[0] == ClickAct::EffApply)
            && !left_up(p, c).2,
        !(c.eff_rows is Some && id == c.eff_rows->0 + 1) && c.effects + 4 < id < 1000 && c.keyframed
            ==> {
            let q = left_up(p, c).0;
            let again = left_up(q, c).0;
            &&& q.effect == p.effect
            &&& left_up(p, c).1.len() == 0
            &&& !left_up(p, c).2
            &&& p.keyframe_var is None ==> q.keyframe_var is Some && q.keyframe_var->0 + c.effects
                + 5 == id && q.keyframe == Some(0usize) && again.keyframe_var is None
                && again.keyframe is None
        },
{
}

/// Law: a click on an event chooses it. One of a group keeps the group, one outside gives it up.
pub proof fn law_click_on_an_event(v: Editing, e: usize)
    ensures
        event_clicked(v, e).p.event == Some(e),
        v.events.contains(e) ==> event_clicked(v, e).events == v.events,
        !v.events.contains(e) ==> event_clicked(v, e).events.len() == 0,
        event_clicked(v, e).notes == v.notes,
        event_clicked(v, e).p.note == v.p.note,
        event_clicked(v, e).event_click is None,
{
}

/// Law: the first click in a column chooses nothing and is remembered with its time; a second one in the
/// same column within three tenths of a second is a double click, and a third one starts anew. A click
/// in another column, or a later one, is a first click.
pub proof fn law_clicks_in_columns(
    v: Editing,
    column: Seq<char>,
    other: Seq<char>,
    first: u64,
    second: u64,
)
    requires
        v.event_click is None,
        column != other,
    ensures
        !is_second_in_column(v, column, first),
        ({
            let w = column_clicked(v, column, first);
            &&& w.p.event is None && w.events.len() == 0
            &&& second - first < 300_000_000 <==> is_second_in_column(w, column, second)
            &&& !is_second_in_column(w, other, second)
            &&& second - first < 300_000_000 ==> !is_second_in_column(
                column_clicked(w, column, second),
                column,
                second,
            )
            &&& second - first >= 300_000_000 ==> column_clicked(w, column, second).event_click
                == Some((second, column))
        }),
{
}

/// Law: every message of the menus asks for its own thing, and a message that shows or hides a panel
/// changes that panel only.
pub proof fn law_messages(p: Panels, on_events: bool, note_hit: bool, at: usize)
    ensures
        messaged(p, Message::ToggleEvents, on_events, note_hit, at).0 == (Panels {
            show_events: !p.show_events,
            dirty: true,
            ..p
        }),
        messaged(p, Message::ToggleNotes, on_events, note_hit, at).0 == (Panels {
            show_notes: !p.show_notes,
            dirty: true,
            ..p
        }),
        p.note is Some ==> messaged(p, Message::DeleteNote, on_events, note_hit, at).1 == seq![
            Command::DeleteNote(p.note->0),
        ],
        p.note is None ==> messaged(p, Message::DeleteNote, on_events, note_hit, at).1.len() == 0,
        messaged(p, Message::DeleteNote, on_events, note_hit, at).0.note is None,
        messaged(p, Message::DeleteEvent, on_events, note_hit, at).1 == seq![Command::DeleteEvents],
        messaged(p, Message::MenuSave, on_events, note_hit, at).1 == seq![Command::Save],
        messaged(p, Message::MenuLoad, on_events, note_hit, at).1 == seq![Command::OpenDialog],
        messaged(p, Message::MenuExport, on_events, note_hit, at).1 == seq![Command::ExportDialog],
        messaged(p, Message::MenuQuit, on_events, note_hit, at).1 == seq![Command::Leave],
        !messaged(p, Message::MenuSave, on_events, note_hit, at).0.menu_open,
        !messaged(p, Message::MenuLoad, on_events, note_hit, at).0.menu_open,
        !messaged(p, Message::MenuExport, on_events, note_hit, at).0.menu_open,
        messaged(p, Message::SeekToBeat, on_events, note_hit, at).1 == seq![Command::SeekToBeat(at)],
        messaged(p, Message::PlaceNote, on_events, note_hit, at).1 == seq![Command::PlaceNote(at)],
        messaged(p, Message::SetLoopA, on_events, note_hit, at).1 == seq![Command::LoopPoint(true)],
        messaged(p, Message::SetLoopB, on_events, note_hit, at).1 == seq![Command::LoopPoint(false)],
        messaged(p, Message::EditComment, true, note_hit, at).1 == seq![
            Command::EditComment(CommentTarget::Line(p.line)),
        ],
        messaged(p, Message::EditComment, on_events, false, at).1 == seq![
            Command::EditComment(CommentTarget::Line(p.line)),
        ],
        p.note is Some ==> messaged(p, Message::EditComment, false, true, at).1 == seq![
            Command::EditComment(CommentTarget::Note(p.line, p.note->0)),
        ],
        is_last(Message::MenuLoad) && is_last(Message::MenuExport) && is_last(Message::MenuQuit),
        !is_last(Message::MenuSave) && !is_last(Message::DeleteNote) && !is_last(Message::PlaceNote),
{
}

/// Law: messages are done one after the other: those behind one that is not the last of its kind come
/// after what it asked for, on the editor as it left it.
pub proof fn law_messages_in_order(p: Panels, m: Message, n: Message, on_events: bool, note_hit: bool)
    requires
        !(m is MenuLoad || m is MenuExport || m is MenuQuit),
    ensures
        ({
            let one = messaged(p, m, on_events, note_hit, 0);
            let two = messaged(one.0, n, on_events, note_hit, 1);
            messaged_all(p, seq![m, n], on_events, note_hit, 0) == (two.0, one.1 + two.1)
        }),
{
    reveal_with_fuel(messaged_all, 3);
    let one = messaged(p, m, on_events, note_hit, 0);
    let two = messaged(one.0, n, on_events, note_hit, 1);
    let ms = seq![m, n];
    assert(messaged_all(one.0, ms, on_events, note_hit, 1).1 =~= two.1);
}

/// Law: going to another line, and a click on the timeline, have everything drawn anew.
pub proof fn law_clicks_are_drawn(v: Editing, line: usize, e: usize, column: Seq<char>, now: u64)
    ensures
        on_line(v, line).p.line == line,
        on_line(v, line).p.dirty && !on_line(v, line).p.cache_valid,
        on_line(v, line).comment == v.comment && on_line(v, line).number == v.number,
        event_clicked(v, e).p.dirty,
        column_clicked(v, column, now).p.dirty,
        event_clicked(v, e).p.line == v.p.line,
        column_clicked(v, column, now).p.note == v.p.note,
        column_clicked(v, column, now).notes == v.notes,
{
}

/// Law: a click in a column makes an event of the kind whose name the column bears, if it is the second of a
/// double click, and moves the playhead if it is the first.
pub proof fn law_acts_of_columns(k: EventKind)
    ensures
        is_column_act(TimelineAct::Seek, kind_name(k), false),
        !is_column_act(TimelineAct::Seek, kind_name(k), true),
        is_column_act(TimelineAct::Create(k), kind_name(k), true),
        !is_column_act(TimelineAct::Create(k), kind_name(k), false),
        !is_column_act(TimelineAct::Nothing, kind_name(k), true),
        !is_column_act(TimelineAct::Nothing, kind_name(k), false),
        forall|j: EventKind|
            #[trigger] is_column_act(TimelineAct::Create(j), kind_name(k), true) ==> j == k,
{
    assert forall|j: EventKind|
        #[trigger] is_column_act(TimelineAct::Create(j), kind_name(k), true) implies j == k by {
        crate::timeline::law_kind_names_differ(j, k);
    }
}

/// Law: the first of a list is the one at its front, and an empty list has none.
pub proof fn law_first_of(s: Seq<usize>, e: usize)
    ensures
        first_of(seq![e] + s) == Some(e),
        first_of(Seq::empty()) is None,
        first_of(s) is Some ==> s.contains(first_of(s)->0),
{
    if s.len() > 0 {
        assert(s.contains(s[0]));
    }
}

} // verus!
