//! The editor's panels and what is chosen in them, and what keys do there.

use crate::beats::BEAT;
use crate::keys::{code_to_widget_key, edited, handle_text_edit, widget_key, Field, Key, WidgetKey};
use crate::strings::{chars_of, string_of, trim, trimmed};
use crate::timeline::EventKind;
use vstd::prelude::*;

verus! {

/// What a comment is written to: a note of a line, or a line.
#[derive(Clone, Copy, PartialEq, Eq, Structural, Debug)]
pub enum CommentTarget {
    Note(usize, usize),
    Line(usize),
}

/// The field of a keyframe that is typed into: which keyframe, and whether its last beat instead of
/// its first.
#[derive(Clone, Copy, PartialEq, Eq, Structural, Debug)]
pub struct NumTarget {
    pub keyframe: usize,
    pub end: bool,
}

/// The numbers of the tools whose panels the editor knows.
pub const TOOL_CHART: u8 = 0;

pub const TOOL_LINE: u8 = 1;

pub const TOOL_SETTINGS: u8 = 2;

pub const TOOL_EFFECTS: u8 = 3;

pub const TOOL_BPM: u8 = 4;

/// How many shapes of the playfield there are to go through.
pub const ASPECTS: usize = 4;

/// How many fields of an event there are to go through: its first and last beat, its first and last
/// value, and its easing.
pub const EDIT_TARGETS: u8 = 5;

/// The plain part of the editor's state: keys that are held, what is shown, and what is chosen.
///
/// `event` is the event that is chosen, as a place in the timeline's list, `note` the note that is
/// chosen, as an index of the line. `snap` is the step of the grid in ticks. `keyframe_click` is when a
/// row of keyframes was last clicked.
#[derive(Clone, Copy, PartialEq, Eq, Structural, Debug)]
pub struct Panels {
    pub ctrl: bool,
    pub shift: bool,
    pub alt: bool,
    pub ime_active: bool,
    pub show_overlay: bool,
    pub show_properties: bool,
    pub show_events: bool,
    pub show_notes: bool,
    pub full_notes: bool,
    pub menu_open: bool,
    pub vsync: bool,
    pub tool: u8,
    pub line: usize,
    pub layer: usize,
    pub event: Option<usize>,
    pub note: Option<usize>,
    pub edit_target: u8,
    pub place_kind: u8,
    pub snap: i64,
    pub aspect: usize,
    pub bpm_dragging: bool,
    pub settings_dragging: bool,
    pub line_dragging: bool,
    pub effect: Option<usize>,
    pub keyframe_var: Option<usize>,
    pub keyframe: Option<usize>,
    pub keyframe_click: Option<u64>,
    pub dirty: bool,
    pub cache_valid: bool,
}

/// The editor's own state.
///
/// `events` and `notes` are the groups of events and notes that are chosen. `event_click` is when and
/// in which column the empty timeline was last clicked. `comment` and `number` are what is being
/// typed.
pub struct Editor {
    pub p: Panels,
    pub events: Vec<usize>,
    pub notes: Vec<usize>,
    pub event_click: Option<(u64, String)>,
    pub comment: Option<(CommentTarget, String)>,
    pub number: Option<(NumTarget, String)>,
}

/// The contents of an [`Editor`].
#[verifier::ext_equal]
pub ghost struct Editing {
    pub p: Panels,
    pub events: Seq<usize>,
    pub notes: Seq<usize>,
    pub event_click: Option<(u64, Seq<char>)>,
    pub comment: Option<(CommentTarget, Seq<char>)>,
    pub number: Option<(NumTarget, Seq<char>)>,
}

/// A value with a text, by what the text holds.
pub open spec fn with_text<A>(p: Option<(A, String)>) -> Option<(A, Seq<char>)> {
    match p {
        Some(x) => Some((x.0, x.1@)),
        None => None,
    }
}

impl View for Editor {
    type V = Editing;

    open spec fn view(&self) -> Editing {
        Editing {
            p: self.p,
            events: self.events@,
            notes: self.notes@,
            event_click: with_text(self.event_click),
            comment: with_text(self.comment),
            number: with_text(self.number),
        }
    }
}

/// What holds at all times.
pub open spec fn is_valid(v: Editing) -> bool {
    &&& v.p.aspect < ASPECTS
    &&& v.p.edit_target < EDIT_TARGETS
}

/// What the editor is told of its surroundings with a key.
#[derive(Clone, Copy, PartialEq, Eq, Structural, Debug)]
pub struct Around {
    /// A row of the chart panel is being typed into.
    pub grid_editing: bool,
    /// A row of the tempo panel, or of the effect panel, has the keyboard.
    pub bpm_focus: bool,
    pub eff_focus: bool,
    /// The pointer is over the tempo panel, or over the effect panel.
    pub over_bpm: bool,
    pub over_eff: bool,
    /// The note under the pointer.
    pub mouse_note: Option<usize>,
    /// Whether the pointer is over a column of the events, and the kind of events in it.
    pub over_column: bool,
    pub column: Option<EventKind>,
    /// The kind of the chosen event.
    pub event_kind: Option<EventKind>,
    pub audio: bool,
    pub paused: bool,
    /// Playing has come to the end of the track.
    pub ended: bool,
    /// How many difficulties the song has, and which one is open.
    pub difficulties: usize,
    pub difficulty: Option<usize>,
}

/// How an event is changed.
#[derive(Clone, Copy, PartialEq, Eq, Structural, Debug)]
pub enum EventEdit {
    /// Its first, or its last beat moves a step of the grid, onward or back.
    Start(bool),
    End(bool),
    /// Its first, or its last value goes up or down.
    StartValue(bool),
    EndValue(bool),
    /// The next, or the previous easing.
    Easing(bool),
    /// It is written back as it is.
    Same,
}

/// What a key does.
#[derive(Clone, Copy, PartialEq, Eq, Structural, Debug)]
pub enum Act {
    /// A key for the menu that is open.
    MenuKey(WidgetKey),
    /// A key for the comment, or the number, that is being typed.
    CommentKey,
    NumberKey,
    /// The number that is being typed is taken over.
    CommitNumber,
    /// A key for the row of the chart panel that is being typed into.
    GridKey(WidgetKey),
    ClearSelection,
    /// An event is made where the pointer is, or at the playhead.
    AddEventAtMouse(EventKind),
    AddEventAtPlayhead(EventKind),
    /// Back to the start of the track.
    Replay,
    SetPaused(bool),
    DeleteEvents,
    RemoveEffect,
    DeleteNote(usize),
    /// The chosen events move a step of the grid, onward or back.
    NudgeEvents(bool),
    EditEvent(EventEdit),
    /// The chosen notes move a step of the grid, onward or back.
    NudgeTime(bool),
    /// The chosen notes move across, right or left.
    NudgeAcross(bool),
    /// The playhead moves, onward or back.
    Skip(bool),
    NextAspect,
    ToggleOverlay,
    ToggleProperties,
    ToggleEvents,
    ToggleNotes,
    ToggleFullNotes,
    ToggleVsync,
    MemoryReport,
    /// The panels are drawn larger, or smaller.
    Scale(bool),
    SetSnap(i64),
    /// The key for point A of the loop, or for point B.
    LoopPoint(bool),
    ToggleLoop,
    Undo,
    Redo,
    Save,
    /// Back to the chart list.
    Leave,
    /// The program ends.
    Quit,
    NextTarget,
    Copy,
    Paste,
    PlaceNote,
    SetPlaceKind(u8),
    SwitchDifficulty(usize),
    /// A key for the row of the tempo panel, or of the effect panel, that has the keyboard.
    BpmKey(WidgetKey),
    EffKey(WidgetKey),
}

/// Whether a menu that is open takes the key.
pub open spec fn is_menu_key(k: WidgetKey) -> bool {
    k is Up || k is Down || k is Left || k is Right || k is Enter || k is Escape
}

fn menu_takes(k: WidgetKey) -> (r: bool)
    ensures
        r == is_menu_key(k),
{
    match k {
        WidgetKey::Up => true,
        WidgetKey::Down => true,
        WidgetKey::Left => true,
        WidgetKey::Right => true,
        WidgetKey::Enter => true,
        WidgetKey::Escape => true,
        _ => false,
    }
}

/// Whether a row of a number panel has the keyboard, so that keys that delete are for its text.
pub open spec fn is_typing(v: Editing, a: Around) -> bool {
    (v.p.tool == TOOL_BPM && a.bpm_focus) || (v.p.tool == TOOL_EFFECTS && a.eff_focus)
}

/// Whether such a row has the keyboard and its panel is shown.
pub open spec fn is_typing_shown(v: Editing, a: Around) -> bool {
    v.p.show_properties && is_typing(v, a)
}

/// Whether there are chosen events.
pub open spec fn has_events(v: Editing) -> bool {
    v.p.event is Some || v.events.len() > 0
}

/// What a key does that some field takes before the shortcuts are looked at.
pub open spec fn taken(v: Editing, a: Around, code: Key, typed: Option<char>) -> Option<Act> {
    let menu = widget_key(code, typed, true);
    let text = widget_key(code, typed, false);
    if v.p.menu_open && menu is Some && is_menu_key(menu->0) {
        Some(Act::MenuKey(menu->0))
    } else if v.comment is Some && !v.p.ctrl {
        Some(Act::CommentKey)
    } else if v.number is Some && !v.p.ctrl && !(code is Space) {
        Some(Act::NumberKey)
    } else if v.p.show_properties && v.p.tool == TOOL_CHART && a.grid_editing && !v.p.ctrl
        && !v.p.ime_active && text is Some {
        Some(Act::GridKey(text->0))
    } else {
        None
    }
}

/// What the space bar does: at the end of the track it starts anew, and where there is audio it
/// pauses or goes on.
pub open spec fn space_bar(a: Around) -> Seq<Act> {
    let replay = if a.ended {
        seq![Act::Replay]
    } else {
        Seq::empty()
    };
    if a.audio {
        replay.push(Act::SetPaused(!a.paused))
    } else {
        replay
    }
}

/// What the key for making an event does: where the pointer is, or without a column there, an event
/// of the kind of the chosen one at the playhead.
pub open spec fn insert_key(v: Editing, a: Around) -> Seq<Act> {
    if !v.p.show_events {
        Seq::empty()
    } else if a.over_column {
        if a.column is Some {
            seq![Act::AddEventAtMouse(a.column->0)]
        } else {
            Seq::empty()
        }
    } else if a.event_kind is Some {
        seq![Act::AddEventAtPlayhead(a.event_kind->0)]
    } else {
        Seq::empty()
    }
}

/// What the keys that delete do: chosen events, else on the effect panel the chosen effect, else the
/// chosen note, else the one under the pointer. A row that is typed into keeps them.
pub open spec fn delete_key(v: Editing, a: Around, code: Key) -> Seq<Act> {
    let typing = is_typing(v, a);
    if v.p.show_events && has_events(v) && !typing {
        seq![Act::DeleteEvents]
    } else if code is Delete && v.p.show_properties && v.p.tool == TOOL_EFFECTS {
        seq![Act::RemoveEffect]
    } else if typing {
        Seq::empty()
    } else if v.p.note is Some {
        seq![Act::DeleteNote(v.p.note->0)]
    } else if a.mouse_note is Some {
        seq![Act::DeleteNote(a.mouse_note->0)]
    } else {
        Seq::empty()
    }
}

/// What an arrow to the side does: with control it moves the chosen events, with alt the chosen notes,
/// else the playhead.
pub open spec fn side_arrow(v: Editing, onward: bool) -> Seq<Act> {
    if v.p.ctrl && has_events(v) {
        if v.events.len() > 1 {
            seq![Act::NudgeEvents(onward)]
        } else {
            seq![
                Act::EditEvent(
                    if v.p.edit_target == 0 {
                        EventEdit::Start(onward)
                    } else if v.p.edit_target == 1 {
                        EventEdit::End(onward)
                    } else {
                        EventEdit::Same
                    },
                ),
            ]
        }
    } else if v.p.alt {
        seq![Act::NudgeTime(onward)]
    } else {
        seq![Act::Skip(onward)]
    }
}

/// What an arrow up or down does: with alt it moves the chosen notes across, with control it changes
/// the chosen event.
pub open spec fn upright_arrow(v: Editing, up: bool) -> Seq<Act> {
    if v.p.alt {
        seq![Act::NudgeAcross(up)]
    } else if v.p.ctrl && v.p.event is Some {
        seq![
            Act::EditEvent(
                if v.p.edit_target == 2 {
                    EventEdit::StartValue(up)
                } else if v.p.edit_target == 3 {
                    EventEdit::EndValue(up)
                } else if v.p.edit_target == 4 {
                    EventEdit::Easing(up)
                } else {
                    EventEdit::Same
                },
            ),
        ]
    } else {
        Seq::empty()
    }
}

/// What the keys for the next and the previous difficulty do, round and round.
pub open spec fn difficulty_key(v: Editing, a: Around, next: bool) -> Seq<Act> {
    if v.p.ctrl || v.p.alt || v.p.ime_active || is_typing_shown(v, a) || a.difficulties < 2
        || a.difficulty is None {
        Seq::empty()
    } else {
        let n = a.difficulties as int;
        let to = if next {
            (a.difficulty->0 + 1) % n
        } else {
            (a.difficulty->0 + n - 1) % n
        };
        seq![Act::SwitchDifficulty(to as usize)]
    }
}

/// Whether something is being typed, or a menu is open.
pub open spec fn is_busy(v: Editing, a: Around) -> bool {
    v.p.menu_open || v.comment is Some || v.number is Some || is_typing_shown(v, a) || (
    v.p.show_properties && v.p.tool == TOOL_CHART && a.grid_editing)
}

/// What the escape key does: nothing is chosen any more, and where nothing is being typed and no menu is
/// open, the program ends.
pub open spec fn escape_key(v: Editing, a: Around) -> Seq<Act> {
    if is_busy(v, a) {
        seq![Act::ClearSelection]
    } else {
        seq![Act::ClearSelection, Act::Quit]
    }
}

/// One act under a condition.
pub open spec fn only_if(c: bool, a: Act) -> Seq<Act> {
    if c {
        seq![a]
    } else {
        Seq::empty()
    }
}

/// What a key does as a shortcut.
pub open spec fn shortcut(v: Editing, a: Around, code: Key) -> Seq<Act> {
    match code {
        Key::Escape => escape_key(v, a),
        Key::Insert => insert_key(v, a),
        Key::Space => space_bar(a),
        Key::Delete | Key::Backspace => delete_key(v, a, code),
        Key::ArrowLeft => side_arrow(v, false),
        Key::ArrowRight => side_arrow(v, true),
        Key::ArrowUp => upright_arrow(v, true),
        Key::ArrowDown => upright_arrow(v, false),
        Key::Tab => seq![Act::NextAspect],
        Key::F1 => seq![Act::ToggleOverlay],
        Key::F2 => only_if(v.p.event is Some, Act::NextTarget),
        Key::F3 => seq![Act::ToggleProperties],
        Key::F4 => seq![Act::ToggleEvents],
        Key::F5 => seq![
            if v.p.ctrl {
                Act::ToggleFullNotes
            } else {
                Act::ToggleNotes
            },
        ],
        Key::F6 => seq![Act::ToggleVsync],
        Key::F7 => seq![Act::MemoryReport],
        Key::BracketLeft => seq![Act::Scale(false)],
        Key::BracketRight => seq![Act::Scale(true)],
        Key::Digit1 => seq![Act::SetSnap(BEAT)],
        Key::Digit2 => seq![Act::SetSnap((BEAT / 2) as i64)],
        Key::Digit3 => seq![Act::SetSnap((BEAT / 4) as i64)],
        Key::Digit4 => seq![Act::SetSnap((BEAT / 8) as i64)],
        Key::I => seq![Act::LoopPoint(true)],
        Key::O => seq![Act::LoopPoint(false)],
        Key::P => seq![Act::ToggleLoop],
        Key::Z => only_if(v.p.ctrl, Act::Undo),
        Key::Y => only_if(v.p.ctrl, Act::Redo),
        Key::S => only_if(v.p.ctrl, Act::Save),
        Key::C => only_if(v.p.ctrl, Act::Copy),
        Key::V => only_if(v.p.ctrl, Act::Paste),
        Key::Q => seq![
            if v.p.ctrl {
                Act::Leave
            } else {
                Act::SetPlaceKind(1)
            },
        ],
        Key::W => seq![Act::SetPlaceKind(4)],
        Key::E => seq![Act::SetPlaceKind(2)],
        Key::R => seq![Act::SetPlaceKind(3)],
        Key::Enter | Key::NumpadEnter => only_if(
            !is_typing_shown(v, a) && !v.p.ctrl && !v.p.ime_active,
            Act::PlaceNote,
        ),
        Key::N => difficulty_key(v, a, true),
        Key::B => difficulty_key(v, a, false),
        _ => Seq::empty(),
    }
}

/// What a key does in a number panel: its row that has the keyboard takes it; without one, the
/// tabulator goes to the first row where the pointer is over the panel.
pub open spec fn panel_key(v: Editing, a: Around, code: Key, typed: Option<char>) -> Seq<Act> {
    let k = widget_key(code, typed, true);
    if !v.p.show_properties || v.p.ctrl || k is None {
        Seq::empty()
    } else if v.p.tool == TOOL_BPM && (a.bpm_focus || (a.over_bpm && code is Tab)) {
        seq![Act::BpmKey(k->0)]
    } else if v.p.tool == TOOL_EFFECTS && (a.eff_focus || (a.over_eff && code is Tab)) {
        seq![Act::EffKey(k->0)]
    } else {
        Seq::empty()
    }
}

/// What a key does in the editor. A number that is being typed does not keep the space bar: it is
/// taken over, and the space bar does its own.
pub open spec fn acts(v: Editing, a: Around, code: Key, typed: Option<char>) -> Seq<Act> {
    let first = if v.comment is None && v.number is Some && !v.p.ctrl && code is Space {
        seq![Act::CommitNumber]
    } else {
        Seq::empty()
    };
    match taken(v, a, code, typed) {
        Some(t) => first.push(t),
        None => if v.p.ctrl && code is Q {
            seq![Act::Leave]
        } else {
            first + shortcut(v, a, code) + panel_key(v, a, code, typed)
        },
    }
}

/// What an act does to the plain part of the editor's state.
pub open spec fn plain_after(p: Panels, a: Act) -> Panels {
    match a {
        Act::ClearSelection => Panels { event: None, note: None, dirty: true, ..p },
        Act::DeleteNote(_) => Panels { note: None, ..p },
        Act::NextAspect => Panels { aspect: ((p.aspect + 1) % ASPECTS as int) as usize, ..p },
        Act::ToggleOverlay => Panels { show_overlay: !p.show_overlay, dirty: true, ..p },
        Act::ToggleProperties => Panels {
            show_properties: !p.show_properties,
            bpm_dragging: false,
            settings_dragging: false,
            line_dragging: false,
            dirty: true,
            ..p
        },
        Act::ToggleEvents => Panels { show_events: !p.show_events, dirty: true, ..p },
        Act::ToggleNotes => Panels { show_notes: !p.show_notes, dirty: true, ..p },
        Act::ToggleFullNotes => Panels {
            full_notes: !p.full_notes,
            cache_valid: false,
            dirty: true,
            ..p
        },
        Act::ToggleVsync => Panels { vsync: !p.vsync, dirty: true, ..p },
        Act::SetSnap(s) => Panels { snap: s, dirty: true, ..p },
        Act::Undo | Act::Redo => Panels {
            event: None,
            note: None,
            cache_valid: false,
            dirty: true,
            ..p
        },
        Act::Leave => Panels {
            show_properties: false,
            show_events: false,
            show_notes: false,
            ime_active: false,
            dirty: true,
            ..p
        },
        Act::NextTarget => Panels {
            edit_target: ((p.edit_target + 1) % EDIT_TARGETS as int) as u8,
            dirty: true,
            ..p
        },
        Act::SetPlaceKind(k) => Panels { place_kind: k, dirty: true, ..p },
        Act::SwitchDifficulty(_) => Panels { menu_open: false, dirty: true, ..p },
        Act::MenuKey(_) | Act::GridKey(_) | Act::Scale(_) | Act::LoopPoint(_) | Act::ToggleLoop
        | Act::Save | Act::EffKey(_) => Panels { dirty: true, ..p },
        _ => p,
    }
}

/// Whether nothing is chosen on the timeline after an act.
pub open spec fn unselects(a: Act) -> bool {
    a is ClearSelection || a is Undo || a is Redo
}

/// What an act does to the editor's own state.
pub open spec fn after(v: Editing, a: Act) -> Editing {
    if unselects(a) {
        Editing {
            p: plain_after(v.p, a),
            events: Seq::empty(),
            notes: Seq::empty(),
            event_click: None,
            ..v
        }
    } else {
        Editing { p: plain_after(v.p, a), ..v }
    }
}

fn plain_act(p: Panels, a: Act) -> (r: Panels)
    requires
        p.aspect < ASPECTS,
        p.edit_target < EDIT_TARGETS,
    ensures
        r == plain_after(p, a),
        r.aspect < ASPECTS,
        r.edit_target < EDIT_TARGETS,
{
    match a {
        Act::ClearSelection => Panels { event: None, note: None, dirty: true, ..p },
        Act::DeleteNote(_) => Panels { note: None, ..p },
        Act::NextAspect => Panels { aspect: (p.aspect + 1) % ASPECTS, ..p },
        Act::ToggleOverlay => Panels { show_overlay: !p.show_overlay, dirty: true, ..p },
        Act::ToggleProperties => Panels {
            show_properties: !p.show_properties,
            bpm_dragging: false,
            settings_dragging: false,
            line_dragging: false,
            dirty: true,
            ..p
        },
        Act::ToggleEvents => Panels { show_events: !p.show_events, dirty: true, ..p },
        Act::ToggleNotes => Panels { show_notes: !p.show_notes, dirty: true, ..p },
        Act::ToggleFullNotes => Panels {
            full_notes: !p.full_notes,
            cache_valid: false,
            dirty: true,
            ..p
        },
        Act::ToggleVsync => Panels { vsync: !p.vsync, dirty: true, ..p },
        Act::SetSnap(s) => Panels { snap: s, dirty: true, ..p },
        Act::Undo | Act::Redo => Panels {
            event: None,
            note: None,
            cache_valid: false,
            dirty: true,
            ..p
        },
        Act::Leave => Panels {
            show_properties: false,
            show_events: false,
            show_notes: false,
            ime_active: false,
            dirty: true,
            ..p
        },
        Act::NextTarget => Panels {
            edit_target: (p.edit_target + 1) % EDIT_TARGETS,
            dirty: true,
            ..p
        },
        Act::SetPlaceKind(k) => Panels { place_kind: k, dirty: true, ..p },
        Act::SwitchDifficulty(_) => Panels { menu_open: false, dirty: true, ..p },
        Act::MenuKey(_) | Act::GridKey(_) | Act::Scale(_) | Act::LoopPoint(_) | Act::ToggleLoop
        | Act::Save | Act::EffKey(_) => Panels { dirty: true, ..p },
        _ => p,
    }
}

/// What acts do to the editor's own state, one after the other.
pub open spec fn after_all(v: Editing, a: Seq<Act>) -> Editing
    decreases a.len(),
{
    if a.len() == 0 {
        v
    } else {
        after(after_all(v, a.drop_last()), a.last())
    }
}

fn push_if(out: &mut Vec<Act>, c: bool, a: Act)
    ensures
        final(out)@ == old(out)@ + only_if(c, a),
{
    if c {
        out.push(a);
    }
}

impl Editor {
    /// An editor with nothing chosen.
    pub fn new(vsync: bool) -> (r: Editor)
        ensures
            r@ == (Editing { p: Panels { ctrl: false, shift: false, alt: false, ime_active: false,
                show_overlay: true, show_properties: false, show_events: false, show_notes: false,
                full_notes: false, menu_open: false, vsync, tool: TOOL_CHART, line: 0, layer: 0,
                event: None, note: None, edit_target: 0, place_kind: 1, snap: (BEAT / 4) as i64,
                aspect: 0, bpm_dragging: false, settings_dragging: false, line_dragging: false,
                effect: None, keyframe_var: None, keyframe: None, keyframe_click: None,
                dirty: true, cache_valid: false }, events: Seq::empty(), notes: Seq::empty(),
                event_click: None, comment: None, number: None }),
            is_valid(r@),
    {
        Editor {
            p: Panels {
                ctrl: false,
                shift: false,
                alt: false,
                ime_active: false,
                show_overlay: true,
                show_properties: false,
                show_events: false,
                show_notes: false,
                full_notes: false,
                menu_open: false,
                vsync,
                tool: TOOL_CHART,
                line: 0,
                layer: 0,
                event: None,
                note: None,
                edit_target: 0,
                place_kind: 1,
                snap: BEAT / 4,
                aspect: 0,
                bpm_dragging: false,
                settings_dragging: false,
                line_dragging: false,
                effect: None,
                keyframe_var: None,
                keyframe: None,
                keyframe_click: None,
                dirty: true,
                cache_valid: false,
            },
            events: Vec::new(),
            notes: Vec::new(),
            event_click: None,
            comment: None,
            number: None,
        }
    }

    /// A chart was brought into the editor: nothing of the last one is chosen or being typed.
    pub fn chart_loaded(&mut self)
        ensures
            final(self)@ == (Editing { p: Panels { line: 0, layer: 0, event: None, note: None,
                edit_target: 0, bpm_dragging: false, settings_dragging: false, effect: None,
                keyframe_var: None, keyframe: None, dirty: true, cache_valid: false,
                ..old(self)@.p }, events: Seq::empty(), notes: Seq::empty(), comment: None,
                number: None, ..old(self)@ }),
    {
        self.p = Panels {
            line: 0,
            layer: 0,
            event: None,
            note: None,
            edit_target: 0,
            bpm_dragging: false,
            settings_dragging: false,
            effect: None,
            keyframe_var: None,
            keyframe: None,
            dirty: true,
            cache_valid: false,
            ..self.p
        };
        self.events = Vec::new();
        self.notes = Vec::new();
        self.comment = None;
        self.number = None;
    }

    fn busy(&self, a: Around) -> (r: bool)
        ensures
            r == is_busy(self@, a),
    {
        self.p.menu_open || self.comment.is_some() || self.number.is_some() || (
        self.p.show_properties && (self.typing(a) || (self.p.tool == TOOL_CHART && a.grid_editing)))
    }

    fn typing(&self, a: Around) -> (r: bool)
        ensures
            r == is_typing(self@, a),
    {
        (self.p.tool == TOOL_BPM && a.bpm_focus) || (self.p.tool == TOOL_EFFECTS && a.eff_focus)
    }

    fn first_taker(&self, a: Around, code: Key, typed: Option<char>) -> (r: Option<Act>)
        ensures
            r == taken(self@, a, code, typed),
    {
        if self.p.menu_open {
            if let Some(k) = code_to_widget_key(code, typed, true) {
                if menu_takes(k) {
                    return Some(Act::MenuKey(k));
                }
            }
        }
        if self.comment.is_some() && !self.p.ctrl {
            return Some(Act::CommentKey);
        }
        if self.number.is_some() && !self.p.ctrl && code != Key::Space {
            return Some(Act::NumberKey);
        }
        if self.p.show_properties && self.p.tool == TOOL_CHART && a.grid_editing && !self.p.ctrl
            && !self.p.ime_active {
            if let Some(k) = code_to_widget_key(code, typed, false) {
                return Some(Act::GridKey(k));
            }
        }
        None
    }

    fn push_delete(&self, a: Around, code: Key, out: &mut Vec<Act>)
        ensures
            final(out)@ == old(out)@ + delete_key(self@, a, code),
    {
        let typing: bool = self.typing(a);
        if self.p.show_events && (self.p.event.is_some() || self.events.len() > 0) && !typing {
            out.push(Act::DeleteEvents);
        } else if code == Key::Delete && self.p.show_properties && self.p.tool == TOOL_EFFECTS {
            out.push(Act::RemoveEffect);
        } else if !typing {
            match self.p.note {
                Some(n) => out.push(Act::DeleteNote(n)),
                None => if let Some(n) = a.mouse_note {
                    out.push(Act::DeleteNote(n));
                },
            }
        }
    }

    fn push_side_arrow(&self, onward: bool, out: &mut Vec<Act>)
        ensures
            final(out)@ == old(out)@ + side_arrow(self@, onward),
    {
        if self.p.ctrl && (self.p.event.is_some() || self.events.len() > 0) {
            if self.events.len() > 1 {
                out.push(Act::NudgeEvents(onward));
            } else {
                let edit: EventEdit = if self.p.edit_target == 0 {
                    EventEdit::Start(onward)
                } else if self.p.edit_target == 1 {
                    EventEdit::End(onward)
                } else {
                    EventEdit::Same
                };
                out.push(Act::EditEvent(edit));
            }
        } else if self.p.alt {
            out.push(Act::NudgeTime(onward));
        } else {
            out.push(Act::Skip(onward));
        }
    }

    fn push_upright_arrow(&self, up: bool, out: &mut Vec<Act>)
        ensures
            final(out)@ == old(out)@ + upright_arrow(self@, up),
    {
        if self.p.alt {
            out.push(Act::NudgeAcross(up));
        } else if self.p.ctrl && self.p.event.is_some() {
            let edit: EventEdit = if self.p.edit_target == 2 {
                EventEdit::StartValue(up)
            } else if self.p.edit_target == 3 {
                EventEdit::EndValue(up)
            } else if self.p.edit_target == 4 {
                EventEdit::Easing(up)
            } else {
                EventEdit::Same
            };
            out.push(Act::EditEvent(edit));
        }
    }

    fn push_difficulty(&self, a: Around, next: bool, out: &mut Vec<Act>)
        requires
            a.difficulty matches Some(i) ==> i < a.difficulties,
        ensures
            final(out)@ == old(out)@ + difficulty_key(self@, a, next),
    {
        let typing: bool = self.p.show_properties && self.typing(a);
        if self.p.ctrl || self.p.alt || self.p.ime_active || typing || a.difficulties < 2 {
            return ;
        }
        if let Some(i) = a.difficulty {
            let n: usize = a.difficulties;
            let to: usize = if next {
                if i + 1 == n {
                    0
                } else {
                    i + 1
                }
            } else {
                if i == 0 {
                    n - 1
                } else {
                    i - 1
                }
            };
            proof {
                if next {
                    if i + 1 == n {
                        vstd::arithmetic::div_mod::lemma_mod_self_0(n as int);
                    } else {
                        vstd::arithmetic::div_mod::lemma_small_mod((i + 1) as nat, n as nat);
                    }
                } else {
                    if i == 0 {
                        vstd::arithmetic::div_mod::lemma_small_mod((n - 1) as nat, n as nat);
                    } else {
                        vstd::arithmetic::div_mod::lemma_mod_add_multiples_vanish(
                            i as int - 1,
                            n as int,
                        );
                        vstd::arithmetic::div_mod::lemma_small_mod((i - 1) as nat, n as nat);
                        assert(i + n - 1 == (i as int - 1) + n);
                    }
                }
            }
            out.push(Act::SwitchDifficulty(to));
        }
    }

    fn push_insert(&self, a: Around, out: &mut Vec<Act>)
        ensures
            final(out)@ == old(out)@ + insert_key(self@, a),
    {
        if self.p.show_events {
            if a.over_column {
                if let Some(k) = a.column {
                    out.push(Act::AddEventAtMouse(k));
                }
            } else if let Some(k) = a.event_kind {
                out.push(Act::AddEventAtPlayhead(k));
            }
        }
    }

    fn push_shortcut(&self, a: Around, code: Key, out: &mut Vec<Act>)
        requires
            a.difficulty matches Some(i) ==> i < a.difficulties,
        ensures
            final(out)@ == old(out)@ + shortcut(self@, a, code),
    {
        match code {
            Key::Escape => {
                out.push(Act::ClearSelection);
                if !self.busy(a) {
                    out.push(Act::Quit);
                }
            },
            Key::Insert => self.push_insert(a, out),
            Key::Space => {
                if a.ended {
                    out.push(Act::Replay);
                }
                if a.audio {
                    out.push(Act::SetPaused(!a.paused));
                }
            },
            Key::Delete | Key::Backspace => self.push_delete(a, code, out),
            Key::ArrowLeft => self.push_side_arrow(false, out),
            Key::ArrowRight => self.push_side_arrow(true, out),
            Key::ArrowUp => self.push_upright_arrow(true, out),
            Key::ArrowDown => self.push_upright_arrow(false, out),
            Key::Tab => out.push(Act::NextAspect),
            Key::F1 => out.push(Act::ToggleOverlay),
            Key::F2 => push_if(out, self.p.event.is_some(), Act::NextTarget),
            Key::F3 => out.push(Act::ToggleProperties),
            Key::F4 => out.push(Act::ToggleEvents),
            Key::F5 => out.push(
                if self.p.ctrl {
                    Act::ToggleFullNotes
                } else {
                    Act::ToggleNotes
                },
            ),
            Key::F6 => out.push(Act::ToggleVsync),
            Key::F7 => out.push(Act::MemoryReport),
            Key::BracketLeft => out.push(Act::Scale(false)),
            Key::BracketRight => out.push(Act::Scale(true)),
            Key::Digit1 => out.push(Act::SetSnap(BEAT)),
            Key::Digit2 => out.push(Act::SetSnap(BEAT / 2)),
            Key::Digit3 => out.push(Act::SetSnap(BEAT / 4)),
            Key::Digit4 => out.push(Act::SetSnap(BEAT / 8)),
            Key::I => out.push(Act::LoopPoint(true)),
            Key::O => out.push(Act::LoopPoint(false)),
            Key::P => out.push(Act::ToggleLoop),
            Key::Z => push_if(out, self.p.ctrl, Act::Undo),
            Key::Y => push_if(out, self.p.ctrl, Act::Redo),
            Key::S => push_if(out, self.p.ctrl, Act::Save),
            Key::C => push_if(out, self.p.ctrl, Act::Copy),
            Key::V => push_if(out, self.p.ctrl, Act::Paste),
            Key::Q => out.push(
                if self.p.ctrl {
                    Act::Leave
                } else {
                    Act::SetPlaceKind(1)
                },
            ),
            Key::W => out.push(Act::SetPlaceKind(4)),
            Key::E => out.push(Act::SetPlaceKind(2)),
            Key::R => out.push(Act::SetPlaceKind(3)),
            Key::Enter | Key::NumpadEnter => {
                let typing: bool = self.p.show_properties && self.typing(a);
                push_if(out, !typing && !self.p.ctrl && !self.p.ime_active, Act::PlaceNote)
            },
            Key::N => self.push_difficulty(a, true, out),
            Key::B => self.push_difficulty(a, false, out),
            _ => {},
        }
    }

    fn push_panel_key(&self, a: Around, code: Key, typed: Option<char>, out: &mut Vec<Act>)
        ensures
            final(out)@ == old(out)@ + panel_key(self@, a, code, typed),
    {
        if !self.p.show_properties || self.p.ctrl {
            return ;
        }
        if let Some(k) = code_to_widget_key(code, typed, true) {
            let tab: bool = code == Key::Tab;
            if self.p.tool == TOOL_BPM && (a.bpm_focus || (a.over_bpm && tab)) {
                out.push(Act::BpmKey(k));
            } else if self.p.tool == TOOL_EFFECTS && (a.eff_focus || (a.over_eff && tab)) {
                out.push(Act::EffKey(k));
            }
        }
    }

    /// What a key does.
    pub fn acts(&self, a: Around, code: Key, typed: Option<char>) -> (r: Vec<Act>)
        requires
            a.difficulty matches Some(i) ==> i < a.difficulties,
        ensures
            r@ == acts(self@, a, code, typed),
    {
        let mut out: Vec<Act> = Vec::new();
        if self.comment.is_none() && self.number.is_some() && !self.p.ctrl && code == Key::Space {
            out.push(Act::CommitNumber);
        }
        match self.first_taker(a, code, typed) {
            Some(t) => {
                out.push(t);
            },
            None => {
                if self.p.ctrl && code == Key::Q {
                    out.push(Act::Leave);
                } else {
                    self.push_shortcut(a, code, &mut out);
                    self.push_panel_key(a, code, typed, &mut out);
                }
            },
        }
        out
    }

    /// Does to the editor's own state what an act does.
    pub fn apply(&mut self, a: Act)
        requires
            is_valid(old(self)@),
        ensures
            final(self)@ == after(old(self)@, a),
            is_valid(final(self)@),
    {
        self.p = plain_act(self.p, a);
        match a {
            Act::ClearSelection | Act::Undo | Act::Redo => {
                self.events = Vec::new();
                self.notes = Vec::new();
                self.event_click = None;
            },
            _ => {},
        }
    }

    /// A key in the editor: what it does, done to the editor's own state already.
    pub fn handle_editor_keyboard(&mut self, a: Around, code: Key, typed: Option<char>) -> (r: Vec<
        Act,
    >)
        requires
            is_valid(old(self)@),
            a.difficulty matches Some(i) ==> i < a.difficulties,
        ensures
            r@ == acts(old(self)@, a, code, typed),
            final(self)@ == after_all(old(self)@, r@),
            is_valid(final(self)@),
    {
        let r: Vec<Act> = self.acts(a, code, typed);
        let mut i: usize = 0;
        while i < r.len()
            invariant
                i <= r.len(),
                is_valid(self@),
                self@ == after_all(old(self)@, r@.take(i as int)),
            decreases r.len() - i,
        {
            assert(r@.take(i + 1).drop_last() == r@.take(i as int));
            self.apply(r[i]);
            i = i + 1;
        }
        assert(r@.take(r@.len() as int) == r@);
        r
    }

    /// Starts typing a comment, with the text that is there.
    pub fn start_comment_edit(&mut self, target: CommentTarget, existing: Option<String>)
        ensures
            final(self)@ == (Editing { p: Panels { dirty: true, ..old(self)@.p }, comment: Some(
                    (
                        target,
                        match existing {
                            Some(t) => t@,
                            None => Seq::empty(),
                        },
                    ),
                ), ..old(self)@ }),
    {
        let text: String = match existing {
            Some(t) => t,
            None => String::new(),
        };
        self.comment = Some((target, text));
        self.p = Panels { dirty: true, ..self.p };
    }

    /// A key for the comment that is being typed. Returns what is to be written, and where to, when
    /// the comment is taken over: its text without white space around it, or nothing where none is
    /// left, which takes the comment away.
    pub fn comment_key(&mut self, code: Key, typed: Option<char>) -> (r: Option<
        (CommentTarget, Option<String>),
    >)
        ensures
            (match r {
                Some(p) => Some(
                    (
                        p.0,
                        match p.1 {
                            Some(t) => Some(t@),
                            None => None,
                        },
                    ),
                ),
                None => None,
            }) == comment_written(old(self)@, code),
            final(self)@ == comment_keyed(old(self)@, code, typed),
    {
        let (target, mut text): (CommentTarget, String) = match self.comment.take() {
            Some(c) => c,
            None => {
                return None;
            },
        };
        let (done, gone): (bool, bool) = handle_text_edit(&mut text, code, typed, Field::Comment);
        self.p = Panels { dirty: true, ..self.p };
        if done {
            self.p = Panels { cache_valid: false, ..self.p };
            let t: Vec<char> = trim(&chars_of(text.as_str()));
            if t.len() == 0 {
                Some((target, None))
            } else {
                Some((target, Some(string_of(&t))))
            }
        } else {
            if !gone {
                self.comment = Some((target, text));
            }
            None
        }
    }

    /// Starts typing the first or last beat of a keyframe, with the text that is there.
    pub fn start_kf_num_edit(&mut self, target: NumTarget, text: String)
        ensures
            final(self)@ == (Editing { p: Panels { dirty: true, ..old(self)@.p },
                number: Some((target, text@)), ..old(self)@ }),
    {
        self.number = Some((target, text));
        self.p = Panels { dirty: true, ..self.p };
    }

    /// A key for the number that is being typed. Returns its text, and what it is for, when it is taken
    /// over.
    pub fn number_key(&mut self, code: Key, typed: Option<char>) -> (r: Option<(NumTarget, String)>)
        ensures
            with_text(r) == (if code is Enter || code is NumpadEnter {
                old(self)@.number
            } else {
                None
            }),
            final(self)@ == number_keyed(old(self)@, code, typed),
    {
        let (target, mut text): (NumTarget, String) = match self.number.take() {
            Some(c) => c,
            None => {
                return None;
            },
        };
        let (done, gone): (bool, bool) = handle_text_edit(&mut text, code, typed, Field::Number);
        self.p = Panels { dirty: true, ..self.p };
        if done {
            Some((target, text))
        } else {
            if !gone {
                self.number = Some((target, text));
            }
            None
        }
    }

    /// Ends typing a number, and returns its text and what it is for.
    pub fn commit_num_edit(&mut self) -> (r: Option<(NumTarget, String)>)
        ensures
            with_text(r) == old(self)@.number,
            final(self)@ == (Editing { number: None, ..old(self)@ }),
    {
        self.number.take()
    }
}

/// What a key writes of the comment that is being typed.
pub open spec fn comment_written(v: Editing, code: Key) -> Option<
    (CommentTarget, Option<Seq<char>>),
> {
    if v.comment is Some && (code is Enter || code is NumpadEnter) {
        let t = trimmed((v.comment->0).1);
        Some(
            (
                (v.comment->0).0,
                if t.len() == 0 {
                    None
                } else {
                    Some(t)
                },
            ),
        )
    } else {
        None
    }
}

/// The editor after a key for the comment that is being typed.
pub open spec fn comment_keyed(v: Editing, code: Key, typed: Option<char>) -> Editing {
    if v.comment is None {
        v
    } else if code is Enter || code is NumpadEnter {
        Editing { p: Panels { cache_valid: false, dirty: true, ..v.p }, comment: None, ..v }
    } else if code is Escape {
        Editing { p: Panels { dirty: true, ..v.p }, comment: None, ..v }
    } else {
        Editing { p: Panels { dirty: true, ..v.p }, comment: Some(
                ((v.comment->0).0, edited((v.comment->0).1, code, typed, Field::Comment)),
            ), ..v }
    }
}

/// The editor after a key for the number that is being typed.
pub open spec fn number_keyed(v: Editing, code: Key, typed: Option<char>) -> Editing {
    if v.number is None {
        v
    } else if code is Enter || code is NumpadEnter || code is Escape {
        Editing { p: Panels { dirty: true, ..v.p }, number: None, ..v }
    } else {
        Editing { p: Panels { dirty: true, ..v.p }, number: Some(((v.number->0).0,
            edited((v.number->0).1, code, typed, Field::Number))), ..v }
    }
}

/// Law: the space bar pauses also while a number is being typed, which it takes over first.
pub proof fn law_space_is_never_swallowed(v: Editing, a: Around, typed: Option<char>)
    requires
        v.number is Some,
        v.comment is None,
        !v.p.ctrl,
        v.p.tool == TOOL_EFFECTS,
        a.audio,
        !a.ended,
        typed == Some(' ') || typed is None,
    ensures
        acts(v, a, Key::Space, typed) == seq![Act::CommitNumber, Act::SetPaused(!a.paused)],
{
    assert(acts(v, a, Key::Space, typed) =~= seq![Act::CommitNumber, Act::SetPaused(!a.paused)]);
}

/// Law: the escape key ends the program unless something is being typed or a menu is open, and no other
/// key does.
pub proof fn law_escape_ends_the_program(v: Editing, a: Around, code: Key, typed: Option<char>)
    requires
        !is_busy(v, a),
    ensures
        acts(v, a, code, typed).contains(Act::Quit) <==> code is Escape,
{
    let all = acts(v, a, code, typed);
    if code is Escape {
        let first = seq![Act::ClearSelection, Act::Quit];
        let panel = panel_key(v, a, code, typed);
        assert(all == Seq::<Act>::empty() + first + panel);
        assert(all[1] == Act::Quit);
    } else {
        assert forall|i: int| 0 <= i < all.len() implies #[trigger] all[i] != Act::Quit by {
        }
    }
}

/// Law: while a comment is being typed, no key without control does anything else, but those that an
/// open menu takes.
pub proof fn law_comment_takes_keys(v: Editing, a: Around, code: Key, typed: Option<char>)
    requires
        v.comment is Some,
        !v.p.ctrl,
        !v.p.menu_open,
    ensures
        acts(v, a, code, typed) == seq![Act::CommentKey],
{
    assert(acts(v, a, code, typed) =~= seq![Act::CommentKey]);
}

/// Whether an act takes something out of the chart.
pub open spec fn deletes(a: Act) -> bool {
    a is DeleteEvents || a is DeleteNote
}

/// Law: while a row of a number panel has the keyboard, the keys that delete delete no event and no
/// note.
pub proof fn law_typing_deletes_nothing(v: Editing, a: Around, code: Key, typed: Option<char>, i: int)
    requires
        is_typing(v, a),
        0 <= i < acts(v, a, code, typed).len(),
    ensures
        !deletes(acts(v, a, code, typed)[i]),
{
    let r = acts(v, a, code, typed);
    if taken(v, a, code, typed) is None && !(v.p.ctrl && code is Q) {
        assert(shortcut(v, a, code).len() <= 2);
        assert forall|j: int| 0 <= j < shortcut(v, a, code).len() implies !deletes(
            #[trigger] shortcut(v, a, code)[j],
        ) by {}
    }
}

/// Law: with control and an event chosen, the arrows to the side change events and do not move the
/// playhead.
pub proof fn law_control_arrows_edit(v: Editing, a: Around, onward: bool, typed: Option<char>)
    requires
        v.p.ctrl,
        has_events(v),
        !v.p.menu_open,
    ensures
        acts(
            v,
            a,
            if onward {
                Key::ArrowRight
            } else {
                Key::ArrowLeft
            },
            typed,
        ) == side_arrow(v, onward),
        side_arrow(v, onward).len() == 1,
        !(side_arrow(v, onward)[0] is Skip),
{
    let code = if onward {
        Key::ArrowRight
    } else {
        Key::ArrowLeft
    };
    assert(acts(v, a, code, typed) =~= side_arrow(v, onward));
}

/// Law: going on through the difficulties and then back comes to the one it started from.
pub proof fn law_next_then_previous(v: Editing, a: Around)
    requires
        difficulty_key(v, a, true).len() == 1,
        a.difficulty matches Some(i) && i < a.difficulties,
    ensures
        difficulty_key(v, a, true)[0] matches Act::SwitchDifficulty(to) && difficulty_key(
            v,
            Around { difficulty: Some(to), ..a },
            false,
        ) == seq![Act::SwitchDifficulty(a.difficulty->0)],
{
    let i = a.difficulty->0 as int;
    let n = a.difficulties as int;
    let to = (i + 1) % n;
    if i + 1 == n {
        vstd::arithmetic::div_mod::lemma_mod_self_0(n);
        vstd::arithmetic::div_mod::lemma_small_mod((n - 1) as nat, n as nat);
        assert((to + n - 1) % n == i);
    } else {
        vstd::arithmetic::div_mod::lemma_small_mod((i + 1) as nat, n as nat);
        vstd::arithmetic::div_mod::lemma_mod_add_multiples_vanish(i, n);
        vstd::arithmetic::div_mod::lemma_small_mod(i as nat, n as nat);
        assert(to + n - 1 == n + i);
        assert((to + n - 1) % n == i);
    }
}

/// Whether no field and no panel takes keys.
pub open spec fn is_quiet(v: Editing) -> bool {
    !v.p.menu_open && v.comment is None && v.number is None && !v.p.show_properties
}

/// Law: where no field takes keys, the function keys show and hide their panels, the brackets change
/// the scale, and the figures set the grid to a beat, a half, a quarter and an eighth of one.
pub proof fn law_keys_of_the_view(v: Editing, a: Around, typed: Option<char>)
    requires
        is_quiet(v),
    ensures
        acts(v, a, Key::Tab, typed) == seq![Act::NextAspect],
        acts(v, a, Key::F1, typed) == seq![Act::ToggleOverlay],
        acts(v, a, Key::F3, typed) == seq![Act::ToggleProperties],
        acts(v, a, Key::F4, typed) == seq![Act::ToggleEvents],
        !v.p.ctrl ==> acts(v, a, Key::F5, typed) == seq![Act::ToggleNotes],
        v.p.ctrl ==> acts(v, a, Key::F5, typed) == seq![Act::ToggleFullNotes],
        acts(v, a, Key::F6, typed) == seq![Act::ToggleVsync],
        acts(v, a, Key::F7, typed) == seq![Act::MemoryReport],
        v.p.event is Some ==> acts(v, a, Key::F2, typed) == seq![Act::NextTarget],
        v.p.event is None ==> acts(v, a, Key::F2, typed).len() == 0,
        acts(v, a, Key::BracketLeft, typed) == seq![Act::Scale(false)],
        acts(v, a, Key::BracketRight, typed) == seq![Act::Scale(true)],
        acts(v, a, Key::Digit1, typed) == seq![Act::SetSnap(0x1_0000_0000)],
        acts(v, a, Key::Digit2, typed) == seq![Act::SetSnap(0x8000_0000)],
        acts(v, a, Key::Digit3, typed) == seq![Act::SetSnap(0x4000_0000)],
        acts(v, a, Key::Digit4, typed) == seq![Act::SetSnap(0x2000_0000)],
{
    assert(acts(v, a, Key::Tab, typed) =~= seq![Act::NextAspect]);
    assert(acts(v, a, Key::F1, typed) =~= seq![Act::ToggleOverlay]);
    assert(acts(v, a, Key::F3, typed) =~= seq![Act::ToggleProperties]);
    assert(acts(v, a, Key::F4, typed) =~= seq![Act::ToggleEvents]);
    assert(!v.p.ctrl ==> acts(v, a, Key::F5, typed) =~= seq![Act::ToggleNotes]);
    assert(v.p.ctrl ==> acts(v, a, Key::F5, typed) =~= seq![Act::ToggleFullNotes]);
    assert(acts(v, a, Key::F6, typed) =~= seq![Act::ToggleVsync]);
    assert(acts(v, a, Key::F7, typed) =~= seq![Act::MemoryReport]);
    assert(v.p.event is Some ==> acts(v, a, Key::F2, typed) =~= seq![Act::NextTarget]);
    assert(acts(v, a, Key::BracketLeft, typed) =~= seq![Act::Scale(false)]);
    assert(acts(v, a, Key::BracketRight, typed) =~= seq![Act::Scale(true)]);
    assert(acts(v, a, Key::Digit1, typed) =~= seq![Act::SetSnap(0x1_0000_0000)]);
    assert(acts(v, a, Key::Digit2, typed) =~= seq![Act::SetSnap(0x8000_0000)]);
    assert(acts(v, a, Key::Digit3, typed) =~= seq![Act::SetSnap(0x4000_0000)]);
    assert(acts(v, a, Key::Digit4, typed) =~= seq![Act::SetSnap(0x2000_0000)]);
}

/// Law: where no field takes keys, the keys of the chart do what they stand for: with control undo,
/// redo, save, copy, paste and leave, without it the kinds of notes to place, tap, drag, hold and
/// flick, and the note itself with the enter key.
pub proof fn law_keys_of_the_chart(v: Editing, a: Around, typed: Option<char>)
    requires
        is_quiet(v),
    ensures
        acts(v, a, Key::I, typed) == seq![Act::LoopPoint(true)],
        acts(v, a, Key::O, typed) == seq![Act::LoopPoint(false)],
        acts(v, a, Key::P, typed) == seq![Act::ToggleLoop],
        v.p.ctrl ==> acts(v, a, Key::Z, typed) == seq![Act::Undo],
        v.p.ctrl ==> acts(v, a, Key::Y, typed) == seq![Act::Redo],
        v.p.ctrl ==> acts(v, a, Key::S, typed) == seq![Act::Save],
        v.p.ctrl ==> acts(v, a, Key::C, typed) == seq![Act::Copy],
        v.p.ctrl ==> acts(v, a, Key::V, typed) == seq![Act::Paste],
        v.p.ctrl ==> acts(v, a, Key::Q, typed) == seq![Act::Leave],
        !v.p.ctrl ==> acts(v, a, Key::Z, typed).len() == 0,
        !v.p.ctrl ==> acts(v, a, Key::Y, typed).len() == 0,
        !v.p.ctrl ==> acts(v, a, Key::S, typed).len() == 0,
        !v.p.ctrl ==> acts(v, a, Key::C, typed).len() == 0,
        !v.p.ctrl ==> acts(v, a, Key::V, typed).len() == 0,
        !v.p.ctrl ==> acts(v, a, Key::Q, typed) == seq![Act::SetPlaceKind(1)],
        acts(v, a, Key::W, typed) == seq![Act::SetPlaceKind(4)],
        acts(v, a, Key::E, typed) == seq![Act::SetPlaceKind(2)],
        acts(v, a, Key::R, typed) == seq![Act::SetPlaceKind(3)],
        !v.p.ctrl && !v.p.ime_active ==> acts(v, a, Key::Enter, typed) == seq![Act::PlaceNote]
            && acts(v, a, Key::NumpadEnter, typed) == seq![Act::PlaceNote],
        v.p.ctrl || v.p.ime_active ==> acts(v, a, Key::Enter, typed).len() == 0,
{
    assert(acts(v, a, Key::I, typed) =~= seq![Act::LoopPoint(true)]);
    assert(acts(v, a, Key::O, typed) =~= seq![Act::LoopPoint(false)]);
    assert(acts(v, a, Key::P, typed) =~= seq![Act::ToggleLoop]);
    if v.p.ctrl {
        assert(acts(v, a, Key::Z, typed) =~= seq![Act::Undo]);
        assert(acts(v, a, Key::Y, typed) =~= seq![Act::Redo]);
        assert(acts(v, a, Key::S, typed) =~= seq![Act::Save]);
        assert(acts(v, a, Key::C, typed) =~= seq![Act::Copy]);
        assert(acts(v, a, Key::V, typed) =~= seq![Act::Paste]);
    } else {
        assert(acts(v, a, Key::Q, typed) =~= seq![Act::SetPlaceKind(1)]);
        if !v.p.ime_active {
            assert(acts(v, a, Key::Enter, typed) =~= seq![Act::PlaceNote]);
            assert(acts(v, a, Key::NumpadEnter, typed) =~= seq![Act::PlaceNote]);
        }
    }
    assert(acts(v, a, Key::W, typed) =~= seq![Act::SetPlaceKind(4)]);
    assert(acts(v, a, Key::E, typed) =~= seq![Act::SetPlaceKind(2)]);
    assert(acts(v, a, Key::R, typed) =~= seq![Act::SetPlaceKind(3)]);
}

/// Law: the arrows. Right goes onward and left back, up raises and down lowers. Without control and alt
/// they move the playhead or do nothing; with alt they move notes; with control they change the field
/// of the chosen event that is being edited, and move a group of events to the side.
pub proof fn law_arrows(v: Editing, a: Around, typed: Option<char>, onward: bool)
    requires
        is_quiet(v),
    ensures
        ({
            let side = acts(
                v,
                a,
                if onward {
                    Key::ArrowRight
                } else {
                    Key::ArrowLeft
                },
                typed,
            );
            let upright = acts(
                v,
                a,
                if onward {
                    Key::ArrowUp
                } else {
                    Key::ArrowDown
                },
                typed,
            );
            let single = v.p.ctrl && v.p.event is Some && v.events.len() <= 1;
            &&& !v.p.ctrl && !v.p.alt ==> side == seq![Act::Skip(onward)] && upright.len() == 0
            &&& !v.p.ctrl && v.p.alt ==> side == seq![Act::NudgeTime(onward)]
            &&& v.p.alt ==> upright == seq![Act::NudgeAcross(onward)]
            &&& v.p.ctrl && v.events.len() > 1 ==> side == seq![Act::NudgeEvents(onward)]
            &&& single && v.p.edit_target == 0 ==> side == seq![
                Act::EditEvent(EventEdit::Start(onward)),
            ]
            &&& single && v.p.edit_target == 1 ==> side == seq![
                Act::EditEvent(EventEdit::End(onward)),
            ]
            &&& single && v.p.edit_target >= 2 ==> side == seq![Act::EditEvent(EventEdit::Same)]
            &&& v.p.ctrl && v.p.event is None && v.events.len() == 0 && !v.p.alt ==> side == seq![
                Act::Skip(onward),
            ] && upright.len() == 0
            &&& v.p.ctrl && !v.p.alt && v.p.event is Some && v.p.edit_target == 2 ==> upright == seq![
                Act::EditEvent(EventEdit::StartValue(onward)),
            ]
            &&& v.p.ctrl && !v.p.alt && v.p.event is Some && v.p.edit_target == 3 ==> upright == seq![
                Act::EditEvent(EventEdit::EndValue(onward)),
            ]
            &&& v.p.ctrl && !v.p.alt && v.p.event is Some && v.p.edit_target == 4 ==> upright == seq![
                Act::EditEvent(EventEdit::Easing(onward)),
            ]
            &&& v.p.ctrl && !v.p.alt && v.p.event is Some && v.p.edit_target <= 1 ==> upright == seq![
                Act::EditEvent(EventEdit::Same),
            ]
        }),
{
    let x = if onward {
        Key::ArrowRight
    } else {
        Key::ArrowLeft
    };
    let y = if onward {
        Key::ArrowUp
    } else {
        Key::ArrowDown
    };
    assert(acts(v, a, x, typed) =~= side_arrow(v, onward));
    assert(acts(v, a, y, typed) =~= upright_arrow(v, onward));
}

/// Law: the keys that delete take the chosen events first, and only while the events are shown; then
/// the chosen note; then the note under the pointer.
pub proof fn law_what_is_deleted(v: Editing, a: Around, typed: Option<char>, back: bool)
    requires
        is_quiet(v),
        !is_typing(v, a),
    ensures
        ({
            let r = acts(
                v,
                a,
                if back {
                    Key::Backspace
                } else {
                    Key::Delete
                },
                typed,
            );
            let events = v.p.show_events && (v.p.event is Some || v.events.len() > 0);
            &&& events ==> r == seq![Act::DeleteEvents]
            &&& !events && v.p.note is Some ==> r == seq![Act::DeleteNote(v.p.note->0)]
            &&& !events && v.p.note is None && a.mouse_note is Some ==> r == seq![
                Act::DeleteNote(a.mouse_note->0),
            ]
            &&& !events && v.p.note is None && a.mouse_note is None ==> r.len() == 0
        }),
{
    let code = if back {
        Key::Backspace
    } else {
        Key::Delete
    };
    assert(acts(v, a, code, typed) =~= delete_key(v, a, code));
}

/// Law: on the effect panel the delete key takes the chosen effect, unless chosen events are shown
/// and no row has the keyboard; the backspace key never does.
pub proof fn law_delete_takes_the_effect(v: Editing, a: Around, typed: Option<char>)
    requires
        v.p.show_properties,
        v.p.tool == 3,
        v.p.ctrl,
        !v.p.menu_open,
    ensures
        !(v.p.show_events && (v.p.event is Some || v.events.len() > 0) && !a.eff_focus) ==> acts(
            v,
            a,
            Key::Delete,
            typed,
        ) == seq![Act::RemoveEffect],
        !acts(v, a, Key::Backspace, typed).contains(Act::RemoveEffect),
{
    assert(acts(v, a, Key::Delete, typed) =~= delete_key(v, a, Key::Delete));
    assert(acts(v, a, Key::Backspace, typed) =~= delete_key(v, a, Key::Backspace));
}

/// Law: the insert key makes one event while the events are shown: of the kind of the column under the
/// pointer, or, away from the columns, of the chosen event's kind at the playhead.
pub proof fn law_insert_makes_an_event(v: Editing, a: Around, typed: Option<char>)
    requires
        is_quiet(v),
    ensures
        ({
            let r = acts(v, a, Key::Insert, typed);
            &&& !v.p.show_events ==> r.len() == 0
            &&& v.p.show_events && a.over_column && a.column is Some ==> r == seq![
                Act::AddEventAtMouse(a.column->0),
            ]
            &&& v.p.show_events && a.over_column && a.column is None ==> r.len() == 0
            &&& v.p.show_events && !a.over_column && a.event_kind is Some ==> r == seq![
                Act::AddEventAtPlayhead(a.event_kind->0),
            ]
            &&& v.p.show_events && !a.over_column && a.event_kind is None ==> r.len() == 0
        }),
{
    assert(acts(v, a, Key::Insert, typed) =~= insert_key(v, a));
}

/// Law: the space bar pauses what plays and plays what is paused, and at the end of the track goes back
/// to the start first.
pub proof fn law_space_bar(v: Editing, a: Around, typed: Option<char>)
    requires
        is_quiet(v),
    ensures
        ({
            let r = acts(v, a, Key::Space, typed);
            &&& a.audio ==> r.len() > 0 && r.last() == Act::SetPaused(!a.paused)
            &&& a.ended ==> r.len() > 0 && r[0] == Act::Replay
            &&& r.len() == (if a.audio { 1int } else { 0 }) + (if a.ended { 1int } else { 0 })
        }),
{
    assert(acts(v, a, Key::Space, typed) =~= space_bar(a));
}

/// Law: the next difficulty is the one after the open one, and after the last comes the first; the
/// previous one is the one before, and before the first comes the last.
pub proof fn law_difficulties_go_round(v: Editing, a: Around, typed: Option<char>)
    requires
        is_quiet(v),
        !v.p.ctrl && !v.p.alt && !v.p.ime_active,
        a.difficulty matches Some(i) && i < a.difficulties,
    ensures
        ({
            let next = acts(v, a, Key::N, typed);
            let previous = acts(v, a, Key::B, typed);
            let i = a.difficulty->0;
            let n = a.difficulties;
            &&& n < 2 ==> next.len() == 0 && previous.len() == 0
            &&& n >= 2 ==> next.len() == 1 && previous.len() == 1 && next[0] is SwitchDifficulty
                && previous[0] is SwitchDifficulty
            &&& n >= 2 && i + 1 < n ==> next[0]->SwitchDifficulty_0 == i + 1
            &&& n >= 2 && i + 1 == n ==> next[0]->SwitchDifficulty_0 == 0
            &&& n >= 2 && i > 0 ==> previous[0]->SwitchDifficulty_0 == i - 1
            &&& n >= 2 && i == 0 ==> previous[0]->SwitchDifficulty_0 == n - 1
        }),
{
    assert(acts(v, a, Key::N, typed) =~= difficulty_key(v, a, true));
    assert(acts(v, a, Key::B, typed) =~= difficulty_key(v, a, false));
    let i = a.difficulty->0 as int;
    let n = a.difficulties as int;
    if n >= 2 {
        if i + 1 == n {
            vstd::arithmetic::div_mod::lemma_mod_self_0(n);
        } else {
            vstd::arithmetic::div_mod::lemma_small_mod((i + 1) as nat, n as nat);
        }
        if i == 0 {
            vstd::arithmetic::div_mod::lemma_small_mod((n - 1) as nat, n as nat);
        } else {
            vstd::arithmetic::div_mod::lemma_mod_add_multiples_vanish(i - 1, n);
            vstd::arithmetic::div_mod::lemma_small_mod((i - 1) as nat, n as nat);
            assert(i + n - 1 == n + (i - 1));
        }
    }
}

/// Law: an open menu takes the arrows, the enter and the escape key from everything else.
pub proof fn law_menu_takes_keys(v: Editing, a: Around, code: Key, typed: Option<char>)
    requires
        v.p.menu_open,
        code is ArrowUp || code is ArrowDown || code is ArrowLeft || code is ArrowRight || code is Enter
            || code is NumpadEnter || code is Escape,
    ensures
        acts(v, a, code, typed).len() == 1,
        acts(v, a, code, typed)[0] is MenuKey,
{
}

/// Law: without an open menu a comment takes all keys without control, then a number, which leaves the
/// space bar, then the row of the chart panel that is being typed into.
pub proof fn law_who_takes_a_key(v: Editing, a: Around, code: Key, typed: Option<char>)
    requires
        !v.p.menu_open,
        !v.p.ctrl,
    ensures
        v.comment is Some ==> acts(v, a, code, typed) == seq![Act::CommentKey],
        v.comment is None && v.number is Some && !(code is Space) ==> acts(v, a, code, typed) == seq![
            Act::NumberKey,
        ],
        v.comment is None && v.number is None && v.p.show_properties && v.p.tool == 0
            && a.grid_editing && !v.p.ime_active && typed is Some && (code is Other || code is Digit1
            || code is Z || code is Space) ==> acts(v, a, code, typed) == seq![
            Act::GridKey(WidgetKey::Char(typed->0)),
        ],
{
    let r = acts(v, a, code, typed);
    if taken(v, a, code, typed) is Some && !(v.number is Some && code is Space) {
        assert(r =~= seq![taken(v, a, code, typed)->0]);
    }
}

/// Law: a row of the tempo panel, or of the effect panel, that has the keyboard gets the figures that
/// are typed, and no other row does.
pub proof fn law_rows_get_figures(v: Editing, a: Around, typed: char)
    requires
        '0' <= typed <= '9',
        v.p.show_properties,
        !v.p.ctrl && !v.p.menu_open,
        v.comment is None && v.number is None,
    ensures
        v.p.tool == 4 && a.bpm_focus ==> acts(v, a, Key::Other, Some(typed)) == seq![
            Act::BpmKey(WidgetKey::Char(typed)),
        ],
        v.p.tool == 3 && a.eff_focus ==> acts(v, a, Key::Other, Some(typed)) == seq![
            Act::EffKey(WidgetKey::Char(typed)),
        ],
        v.p.tool == 4 && !a.bpm_focus ==> acts(v, a, Key::Other, Some(typed)).len() == 0,
        v.p.tool == 3 && !a.eff_focus ==> acts(v, a, Key::Other, Some(typed)).len() == 0,
        v.p.tool == 4 && !a.bpm_focus ==> (acts(v, a, Key::Tab, None).contains(
            Act::BpmKey(WidgetKey::Tab),
        ) <==> a.over_bpm),
        v.p.tool == 3 && !a.eff_focus ==> (acts(v, a, Key::Tab, None).contains(
            Act::EffKey(WidgetKey::Tab),
        ) <==> a.over_eff),
{
    let code = Key::Other;
    let r = acts(v, a, code, Some(typed));
    if v.p.tool == 4 && a.bpm_focus {
        assert(r =~= seq![Act::BpmKey(WidgetKey::Char(typed))]);
    }
    if v.p.tool == 3 && a.eff_focus {
        assert(r =~= seq![Act::EffKey(WidgetKey::Char(typed))]);
    }
    let t = acts(v, a, Key::Tab, None);
    if v.p.tool == 4 && a.over_bpm {
        assert(t =~= seq![Act::NextAspect, Act::BpmKey(WidgetKey::Tab)]);
        assert(t[1] == Act::BpmKey(WidgetKey::Tab));
    }
    if v.p.tool == 3 && a.over_eff {
        assert(t =~= seq![Act::NextAspect, Act::EffKey(WidgetKey::Tab)]);
        assert(t[1] == Act::EffKey(WidgetKey::Tab));
    }
    if v.p.tool == 4 && !a.bpm_focus && !a.over_bpm || v.p.tool == 3 && !a.eff_focus && !a.over_eff {
        assert(t =~= seq![Act::NextAspect]);
    }
}

/// Law: a key that shows or hides something, pressed twice, leaves it as it was, and pressed once
/// changes nothing else that is shown.
#[verifier::spinoff_prover]
#[verifier::rlimit(40)]
pub proof fn law_toggles_undo_themselves(v: Editing)
    ensures
        after(v, Act::ToggleOverlay).p.show_overlay == !v.p.show_overlay,
        after(v, Act::ToggleProperties).p.show_properties == !v.p.show_properties,
        after(v, Act::ToggleEvents).p.show_events == !v.p.show_events,
        after(v, Act::ToggleNotes).p.show_notes == !v.p.show_notes,
        after(v, Act::ToggleFullNotes).p.full_notes == !v.p.full_notes,
        after(v, Act::ToggleVsync).p.vsync == !v.p.vsync,
        forall|t: Act| #[trigger]
            after(v, t).p.show_overlay != v.p.show_overlay ==> t is ToggleOverlay,
        forall|t: Act| #[trigger]
            after(v, t).p.show_properties != v.p.show_properties ==> t is ToggleProperties
                || t is Leave,
        forall|t: Act| #[trigger]
            after(v, t).p.show_events != v.p.show_events ==> t is ToggleEvents || t is Leave,
        forall|t: Act| #[trigger]
            after(v, t).p.show_notes != v.p.show_notes ==> t is ToggleNotes || t is Leave,
        forall|t: Act| #[trigger]
            after(v, t).p.full_notes != v.p.full_notes ==> t is ToggleFullNotes,
        forall|t: Act| #[trigger] after(v, t).p.vsync != v.p.vsync ==> t is ToggleVsync,
        !after(v, Act::Leave).p.show_properties,
        !after(v, Act::Leave).p.show_events,
        !after(v, Act::Leave).p.show_notes,
        !after(v, Act::Leave).p.ime_active,
{
}

/// Law: what is chosen is given up by clearing, by undo and by redo, all of it at once; and a deleted
/// note is no longer chosen.
pub proof fn law_what_unselects(v: Editing, t: Act)
    requires
        t is ClearSelection || t is Undo || t is Redo,
    ensures
        after(v, t).p.event is None,
        after(v, t).p.note is None,
        after(v, t).events.len() == 0,
        after(v, t).notes.len() == 0,
        t is Undo || t is Redo ==> !after(v, t).p.cache_valid,
        t is ClearSelection ==> after(v, t).p.cache_valid == v.p.cache_valid,
        after(v, Act::DeleteNote(0)).p.note is None,
        after(v, Act::DeleteNote(0)).p.event == v.p.event,
{
}

/// Law: nothing else that a key does changes what is chosen.
#[verifier::spinoff_prover]
#[verifier::rlimit(40)]
pub proof fn law_what_stays_chosen(v: Editing, t: Act)
    requires
        !(t is ClearSelection || t is Undo || t is Redo),
    ensures
        after(v, t).p.event == v.p.event,
        after(v, t).events == v.events,
        after(v, t).notes == v.notes,
        after(v, t).event_click == v.event_click,
        !(t is DeleteNote) ==> after(v, t).p.note == v.p.note,
{
}

/// Law: a key sets the grid, the kind of note, the shape of the playfield or the field of an event, and
/// each only by the act that is for it; the shapes come round after four steps, the fields after five.
#[verifier::spinoff_prover]
#[verifier::rlimit(40)]
pub proof fn law_what_keys_set(v: Editing, snap: i64, kind: u8, t: Act)
    requires
        v.p.aspect < 4,
        v.p.edit_target < 5,
    ensures
        after(v, Act::SetSnap(snap)).p.snap == snap,
        after(v, Act::SetPlaceKind(kind)).p.place_kind == kind,
        v.p.aspect < 3 ==> after(v, Act::NextAspect).p.aspect == v.p.aspect + 1,
        v.p.aspect == 3 ==> after(v, Act::NextAspect).p.aspect == 0,
        v.p.edit_target < 4 ==> after(v, Act::NextTarget).p.edit_target == v.p.edit_target + 1,
        v.p.edit_target == 4 ==> after(v, Act::NextTarget).p.edit_target == 0,
        !(t is SetSnap) ==> after(v, t).p.snap == v.p.snap,
        !(t is SetPlaceKind) ==> after(v, t).p.place_kind == v.p.place_kind,
        !(t is NextAspect) ==> after(v, t).p.aspect == v.p.aspect,
        !(t is NextTarget) ==> after(v, t).p.edit_target == v.p.edit_target,
        t is SwitchDifficulty ==> !after(v, t).p.menu_open,
        !(t is SwitchDifficulty) ==> after(v, t).p.menu_open == v.p.menu_open,
        after(v, t).p.ctrl == v.p.ctrl,
        after(v, t).p.shift == v.p.shift,
        after(v, t).p.alt == v.p.alt,
        after(v, t).p.line == v.p.line,
        after(v, t).p.layer == v.p.layer,
        after(v, t).p.tool == v.p.tool,
        after(v, t).p.effect == v.p.effect,
        after(v, t).p.keyframe_var == v.p.keyframe_var,
        after(v, t).p.keyframe == v.p.keyframe,
        after(v, t).comment == v.comment,
        after(v, t).number == v.number,
        v.p.dirty ==> after(v, t).p.dirty,
{
}

/// Law: a comment that is being typed is written where it was begun when the enter key is pressed, and
/// is over then; the escape key ends it and writes nothing; every other key keeps it open.
pub proof fn law_comment_is_written_once(v: Editing, code: Key, typed: Option<char>)
    requires
        v.comment is Some,
    ensures
        ({
            let w = comment_keyed(v, code, typed);
            let out = comment_written(v, code);
            let enter = code is Enter || code is NumpadEnter;
            &&& out is Some <==> enter
            &&& w.comment is None <==> enter || code is Escape
            &&& enter ==> (out->0).0 == (v.comment->0).0
            &&& w.comment is Some ==> (w.comment->0).0 == (v.comment->0).0
            &&& enter && (v.comment->0).1.len() == 0 ==> (out->0).1 is None
            &&& comment_written(w, code) is Some ==> !enter
            &&& w.number == v.number
            &&& w.p.dirty
            &&& enter ==> !w.p.cache_valid
            &&& !enter ==> w.p.cache_valid == v.p.cache_valid
        }),
{
}

/// Law: a key typed into a comment or a number stands at the end of its text, if the field takes it.
pub proof fn law_typed_text_grows(v: Editing, code: Key, c: char)
    requires
        code is Other || code is Digit1 || code is E,
        v.comment is Some && v.number is Some,
        c == 'e' || c == '.' || c == '-' || ('0' <= c <= '9'),
    ensures
        (comment_keyed(v, code, Some(c)).comment->0).1 == (v.comment->0).1.push(c),
        (number_keyed(v, code, Some(c)).number->0).1 == (v.number->0).1.push(c),
        (number_keyed(v, code, Some(c)).number->0).0 == (v.number->0).0,
        number_keyed(v, Key::Escape, None).number is None,
        number_keyed(v, Key::Enter, None).number is None,
{
}

/// Law: acts are done one after the other, each on the editor as the one before it left it.
pub proof fn law_acts_in_order(v: Editing, a: Act, b: Act)
    ensures
        after_all(v, Seq::empty()) == v,
        after_all(v, seq![a]) == after(v, a),
        after_all(v, seq![a, b]) == after(after(v, a), b),
{
    reveal_with_fuel(after_all, 3);
    assert(seq![a].drop_last() =~= Seq::<Act>::empty());
    assert(seq![a, b].drop_last() =~= seq![a]);
}

/// Law: whatever a key shows, hides, sets or chooses anew is drawn anew; showing or hiding the properties
/// ends what was being dragged in them.
pub proof fn law_what_is_drawn_anew(v: Editing, snap: i64, kind: u8, to: usize, on: bool, k: WidgetKey)
    ensures
        after(v, Act::ClearSelection).p.dirty,
        after(v, Act::ToggleOverlay).p.dirty,
        after(v, Act::ToggleProperties).p.dirty,
        after(v, Act::ToggleEvents).p.dirty,
        after(v, Act::ToggleNotes).p.dirty,
        after(v, Act::ToggleFullNotes).p.dirty,
        after(v, Act::ToggleVsync).p.dirty,
        after(v, Act::SetSnap(snap)).p.dirty,
        after(v, Act::SetPlaceKind(kind)).p.dirty,
        after(v, Act::Undo).p.dirty,
        after(v, Act::Redo).p.dirty,
        after(v, Act::Leave).p.dirty,
        after(v, Act::NextTarget).p.dirty,
        after(v, Act::SwitchDifficulty(to)).p.dirty,
        after(v, Act::Scale(on)).p.dirty,
        after(v, Act::LoopPoint(on)).p.dirty,
        after(v, Act::ToggleLoop).p.dirty,
        after(v, Act::Save).p.dirty,
        after(v, Act::MenuKey(k)).p.dirty,
        after(v, Act::GridKey(k)).p.dirty,
        after(v, Act::EffKey(k)).p.dirty,
        !after(v, Act::ToggleProperties).p.bpm_dragging,
        !after(v, Act::ToggleProperties).p.settings_dragging,
        !after(v, Act::ToggleProperties).p.line_dragging,
        after(v, Act::NextAspect).p.dirty == v.p.dirty,
        after(v, Act::Skip(on)) == v,
        after(v, Act::SetPaused(on)) == v,
        after(v, Act::Copy) == v,
        after(v, Act::Paste) == v,
        after(v, Act::PlaceNote) == v,
        after(v, Act::DeleteEvents) == v,
        after(v, Act::NudgeTime(on)) == v,
        after(v, Act::Quit) == v,
{
}

} // verus!
