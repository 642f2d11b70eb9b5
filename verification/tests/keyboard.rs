use phimakor::beats::BEAT;
use phimakor::editor::{Act, Around, CommentTarget, Editor, EventEdit, NumTarget, TOOL_BPM};
use phimakor::frame::{
    is_dimmed, frame_kind, info_field, notice_is_over, skip, Clock, DragAct, Fired, FrameKind, InfoField, Track,
    ACROSS_STEP, ALONG_STEP,
};
use phimakor::keys::{code_to_widget_key, handle_text_edit, Field, Key, WidgetKey};
use phimakor::loading::{
    dropped, dropped_dir, open_chart_from_pick, Dropped, DroppedDir, LoadThread, Loader, OpenStep,
    Picked, Reply, PANIC_MESSAGE,
};
use phimakor::pointer::{
    Click, ClickAct, Command, Hit, Message, Pointer, TimelineAct, WheelAct, DOUBLE_CLICK,
};
use phimakor::splash::{ImeField, Splash, SplashAct, SplashHover};
use phimakor::timeline::EventKind;

fn around() -> Around {
    Around {
        grid_editing: false,
        bpm_focus: false,
        eff_focus: false,
        over_bpm: false,
        over_eff: false,
        mouse_note: None,
        over_column: false,
        column: None,
        event_kind: None,
        audio: true,
        paused: false,
        ended: false,
        difficulties: 0,
        difficulty: None,
    }
}

fn press(e: &mut Editor, a: Around, code: Key, typed: Option<char>) -> Vec<Act> {
    e.handle_editor_keyboard(a, code, typed)
}

fn is(acts: &[Act], want: &[Act]) -> bool {
    acts.len() == want.len() && acts.iter().zip(want).all(|(a, b)| a == b)
}

#[test]
fn shortcuts_do_what_the_table_says() {
    let mut e = Editor::new(true);
    assert!(is(&press(&mut e, around(), Key::Space, Some(' ')), &[Act::SetPaused(true)]));
    assert!(is(&press(&mut e, around(), Key::ArrowLeft, None), &[Act::Skip(false)]));
    assert!(is(&press(&mut e, around(), Key::ArrowRight, None), &[Act::Skip(true)]));
    assert!(is(&press(&mut e, around(), Key::Tab, None), &[Act::NextAspect]));
    assert_eq!(e.p.aspect, 1);
    assert!(is(&press(&mut e, around(), Key::F1, None), &[Act::ToggleOverlay]));
    assert!(!e.p.show_overlay);
    press(&mut e, around(), Key::F3, None);
    assert!(e.p.show_properties);
    press(&mut e, around(), Key::F4, None);
    assert!(e.p.show_events);
    press(&mut e, around(), Key::F5, None);
    assert!(e.p.show_notes && !e.p.full_notes);
    e.hold(Key::Control);
    press(&mut e, around(), Key::F5, None);
    assert!(e.p.show_notes && e.p.full_notes);
    assert!(is(&press(&mut e, around(), Key::S, None), &[Act::Save]));
    assert!(is(&press(&mut e, around(), Key::Q, None), &[Act::Leave]));
    e.release(Key::Control, 1);
    assert!(is(&press(&mut e, around(), Key::Q, Some('q')), &[Act::SetPlaceKind(1)]));
    assert!(is(&press(&mut e, around(), Key::BracketLeft, Some('[')), &[Act::Scale(false)]));
    assert!(is(&press(&mut e, around(), Key::Digit2, Some('2')), &[Act::SetSnap(BEAT / 2)]));
    assert_eq!(e.p.snap, BEAT / 2);
    assert!(is(&press(&mut e, around(), Key::Other, None), &[]));
}

#[test]
fn space_at_the_end_starts_anew() {
    let mut e = Editor::new(true);
    let a = Around { ended: true, paused: true, ..around() };
    assert!(is(&press(&mut e, a, Key::Space, Some(' ')), &[Act::Replay, Act::SetPaused(false)]));
    let silent = Around { audio: false, ..around() };
    assert!(is(&press(&mut e, silent, Key::Space, Some(' ')), &[]));
}

#[test]
fn space_pauses_while_a_number_is_typed() {
    let mut e = Editor::new(true);
    e.p.tool = 3;
    e.start_kf_num_edit(NumTarget { keyframe: 1, end: false }, "1.5".to_string());
    assert!(is(
        &press(&mut e, around(), Key::Space, Some(' ')),
        &[Act::CommitNumber, Act::SetPaused(true)]
    ));
    let (target, text) = e.commit_num_edit().unwrap();
    assert_eq!((target.keyframe, text.as_str()), (1, "1.5"));
    assert!(e.number.is_none());
}

#[test]
fn comments_take_all_keys() {
    let mut e = Editor::new(true);
    e.start_comment_edit(CommentTarget::Line(2), Some(" ab".to_string()));
    assert!(is(&press(&mut e, around(), Key::Space, Some(' ')), &[Act::CommentKey]));
    assert!(e.comment_key(Key::Space, Some(' ')).is_none());
    assert!(e.comment_key(Key::Other, Some('\u{7}')).is_none());
    assert!(e.comment_key(Key::C, Some('c')).is_none());
    let (target, text) = e.comment_key(Key::Enter, None).unwrap();
    assert!(target == CommentTarget::Line(2));
    assert_eq!(text.as_deref(), Some("ab c"));
    assert!(e.comment.is_none());
    e.start_comment_edit(CommentTarget::Note(1, 2), Some("  ".to_string()));
    let (_, text) = e.comment_key(Key::NumpadEnter, None).unwrap();
    assert_eq!(text, None);
    e.start_comment_edit(CommentTarget::Line(0), None);
    assert!(e.comment_key(Key::Escape, None).is_none());
    assert!(e.comment.is_none());
}

#[test]
fn numbers_take_digits_only() {
    let mut e = Editor::new(true);
    e.start_kf_num_edit(NumTarget { keyframe: 0, end: true }, String::new());
    for c in "1x2.e-".chars() {
        assert!(e.number_key(Key::Other, Some(c)).is_none());
    }
    e.number_key(Key::Backspace, None);
    let (_, text) = e.number_key(Key::Enter, None).unwrap();
    assert_eq!(text, "12.e");
    assert!(e.number_key(Key::Enter, None).is_none());
}

#[test]
fn typing_in_a_panel_deletes_nothing() {
    let mut e = Editor::new(true);
    e.p.tool = 4;
    e.p.show_properties = true;
    e.p.show_events = true;
    e.p.event = Some(0);
    e.p.note = Some(3);
    let a = Around { bpm_focus: true, mouse_note: Some(1), ..around() };
    assert!(is(&press(&mut e, a, Key::Backspace, None), &[Act::BpmKey(WidgetKey::Backspace)]));
    assert!(is(&press(&mut e, a, Key::Delete, None), &[]));
    let free = Around { mouse_note: Some(1), ..around() };
    assert!(is(&press(&mut e, free, Key::Delete, None), &[Act::DeleteEvents]));
    e.p.show_events = false;
    assert!(is(&press(&mut e, free, Key::Delete, None), &[Act::DeleteNote(3)]));
    assert!(e.p.note.is_none());
    assert!(is(&press(&mut e, free, Key::Backspace, None), &[Act::DeleteNote(1)]));
    e.p.tool = 3;
    assert!(is(&press(&mut e, free, Key::Delete, None), &[Act::RemoveEffect]));
}

#[test]
fn arrows_edit_with_control_and_alt() {
    let mut e = Editor::new(true);
    e.p.event = Some(0);
    e.hold(Key::Control);
    assert!(is(
        &press(&mut e, around(), Key::ArrowLeft, None),
        &[Act::EditEvent(EventEdit::Start(false))]
    ));
    press(&mut e, around(), Key::F2, None);
    assert!(is(
        &press(&mut e, around(), Key::ArrowRight, None),
        &[Act::EditEvent(EventEdit::End(true))]
    ));
    press(&mut e, around(), Key::F2, None);
    assert!(is(
        &press(&mut e, around(), Key::ArrowUp, None),
        &[Act::EditEvent(EventEdit::StartValue(true))]
    ));
    assert!(is(
        &press(&mut e, around(), Key::ArrowRight, None),
        &[Act::EditEvent(EventEdit::Same)]
    ));
    e.events = vec![1, 2];
    assert!(is(&press(&mut e, around(), Key::ArrowLeft, None), &[Act::NudgeEvents(false)]));
    e.release(Key::Control, 0);
    e.hold(Key::Alt);
    assert!(is(&press(&mut e, around(), Key::ArrowLeft, None), &[Act::NudgeTime(false)]));
    assert!(is(&press(&mut e, around(), Key::ArrowDown, None), &[Act::NudgeAcross(false)]));
}

#[test]
fn open_menus_take_their_keys_only() {
    let mut e = Editor::new(true);
    e.p.menu_open = true;
    assert!(is(
        &press(&mut e, around(), Key::ArrowDown, None),
        &[Act::MenuKey(WidgetKey::Down)]
    ));
    assert!(is(&press(&mut e, around(), Key::Space, Some(' ')), &[Act::SetPaused(true)]));
}

#[test]
fn insert_makes_events() {
    let mut e = Editor::new(true);
    e.p.show_events = true;
    let over = Around { over_column: true, column: Some(EventKind::Speed), ..around() };
    assert!(is(&press(&mut e, over, Key::Insert, None), &[Act::AddEventAtMouse(EventKind::Speed)]));
    let away = Around { event_kind: Some(EventKind::Alpha), ..around() };
    assert!(is(
        &press(&mut e, away, Key::Insert, None),
        &[Act::AddEventAtPlayhead(EventKind::Alpha)]
    ));
    e.p.show_events = false;
    assert!(is(&press(&mut e, over, Key::Insert, None), &[]));
}

#[test]
fn difficulties_go_round() {
    let mut e = Editor::new(true);
    let at = |i| Around { difficulties: 3, difficulty: Some(i), ..around() };
    assert!(is(&press(&mut e, at(2), Key::N, Some('n')), &[Act::SwitchDifficulty(0)]));
    assert!(is(&press(&mut e, at(0), Key::B, Some('b')), &[Act::SwitchDifficulty(2)]));
    let one = Around { difficulties: 1, difficulty: Some(0), ..around() };
    assert!(is(&press(&mut e, one, Key::N, Some('n')), &[]));
}

#[test]
fn escape_and_undo_choose_nothing() {
    let mut e = Editor::new(true);
    e.p.event = Some(1);
    e.p.note = Some(2);
    e.notes = vec![2, 3];
    e.events = vec![1];
    assert!(is(&press(&mut e, around(), Key::Escape, None), &[Act::ClearSelection, Act::Quit]));
    e.p.menu_open = true;
    let in_menu = press(&mut e, around(), Key::Escape, None);
    assert!(is(&in_menu, &[Act::MenuKey(WidgetKey::Escape)]));
    e.p.menu_open = false;
    e.p.show_properties = true;
    e.p.tool = TOOL_BPM;
    let typing = press(&mut e, Around { bpm_focus: true, ..around() }, Key::Escape, None);
    assert!(typing.contains(&Act::ClearSelection) && !typing.contains(&Act::Quit));
    assert!(e.p.event.is_none() && e.p.note.is_none());
    assert!(e.notes.is_empty() && e.events.is_empty());
    e.notes = vec![5];
    e.p.cache_valid = true;
    e.hold(Key::Control);
    assert!(is(&press(&mut e, around(), Key::Z, None), &[Act::Undo]));
    assert!(e.notes.is_empty() && !e.p.cache_valid);
    e.p.note = Some(1);
    e.chart_loaded();
    assert!(e.p.note.is_none());
}

#[test]
fn lines_change_when_keys_go_up() {
    let mut e = Editor::new(true);
    e.notes = vec![1];
    e.release(Key::Z, 3);
    assert_eq!(e.p.line, 2);
    assert!(e.notes.is_empty());
    e.release(Key::C, 3);
    assert_eq!(e.p.line, 0);
    e.hold(Key::Control);
    e.release(Key::C, 3);
    assert_eq!(e.p.line, 0);
    e.line_clicked(Some(1));
    assert_eq!(e.p.line, 1);
    e.release(Key::Control, 3);
    e.line_clicked(Some(7));
    e.release(Key::Z, 3);
    assert_eq!(e.p.line, 0);
}

#[test]
fn widget_keys() {
    assert!(code_to_widget_key(Key::Tab, None, true) == Some(WidgetKey::Tab));
    assert!(code_to_widget_key(Key::Tab, None, false).is_none());
    assert!(code_to_widget_key(Key::Other, Some('x'), false) == Some(WidgetKey::Char('x')));
    assert!(code_to_widget_key(Key::Other, Some('x'), true).is_none());
    assert!(code_to_widget_key(Key::Other, Some('-'), true) == Some(WidgetKey::Char('-')));
    assert!(code_to_widget_key(Key::NumpadEnter, None, true) == Some(WidgetKey::Enter));
    let mut buf = "a".to_string();
    assert_eq!(handle_text_edit(&mut buf, Key::Other, Some('谱'), Field::Comment), (false, false));
    assert_eq!(buf, "a谱");
    assert_eq!(handle_text_edit(&mut buf, Key::Backspace, None, Field::Comment), (false, false));
    assert_eq!(buf, "a");
    assert_eq!(handle_text_edit(&mut buf, Key::Enter, None, Field::Comment), (true, false));
    assert_eq!(handle_text_edit(&mut buf, Key::Escape, None, Field::Comment), (false, true));
}

fn nowhere() -> Pointer {
    Pointer { over_widget: false, over_panels: false, over_timeline: false, below_bar: true }
}

#[test]
fn the_wheel_goes_to_what_is_under_it() {
    let mut e = Editor::new(true);
    assert!(e.wheel(true, nowhere(), false, true) == vec![WheelAct::ScrollCharts]);
    assert!(e.wheel(false, nowhere(), true, true) == vec![WheelAct::SeekAcross, WheelAct::SeekAlong]);
    e.p.show_properties = true;
    e.p.tool = 3;
    let over = Pointer { over_widget: true, ..nowhere() };
    assert!(e.wheel(false, over, false, true) == vec![WheelAct::Effects]);
    e.p.keyframe_var = Some(0);
    assert!(e.wheel(false, over, false, true) == vec![WheelAct::KeyframeEasing]);
    e.p.tool = 1;
    assert!(!e.is_mouse_over_props(false, over, 1));
    let column = Pointer { over_panels: true, ..nowhere() };
    assert!(e.wheel(false, column, false, true) == vec![WheelAct::Lines]);
    e.p.show_notes = true;
    let timeline = Pointer { over_timeline: true, ..nowhere() };
    assert!(e.wheel(false, timeline, false, true) == vec![WheelAct::ScrollTimeline]);
    e.hold(Key::Control);
    assert!(e.wheel(false, timeline, false, true) == vec![WheelAct::ZoomTimeline]);
}

fn click() -> Click {
    Click {
        inside: true,
        on_pause: false,
        hit: Hit::Nothing,
        keyframe_row: None,
        row: None,
        effects: 2,
        eff_rows: Some(8),
        keyframed: false,
        has_bpm: true,
        has_settings: true,
        has_lines: true,
        has_grid: true,
        over_events: false,
        audio: true,
        now: 0,
    }
}

#[test]
fn the_pause_button_uses_the_click() {
    let mut e = Editor::new(true);
    e.p.show_overlay = false;
    let c = Click { on_pause: true, ..click() };
    assert!(e.left_button(true, c) == vec![ClickAct::ShowClick, ClickAct::TogglePause]);
    e.p.show_overlay = true;
    assert!(
        e.left_button(true, c)
            == vec![ClickAct::ShowClick, ClickAct::DropDrag, ClickAct::Timeline(true)]
    );
}

#[test]
fn panels_take_clicks() {
    let mut e = Editor::new(true);
    e.p.show_properties = true;
    e.p.tool = 2;
    let c = Click { hit: Hit::Slider, ..click() };
    let acts = e.left_button(true, c);
    assert!(acts.contains(&ClickAct::SettingsClick));
    assert!(e.p.settings_dragging);
    let acts = e.left_button(false, c);
    assert!(
        acts == vec![ClickAct::SettingsClick, ClickAct::SettingsApply, ClickAct::Timeline(false)]
    );
    assert!(!e.p.settings_dragging);
    e.p.tool = 1;
    e.left_button(true, Click { hit: Hit::ScrollBar, ..click() });
    assert!(e.p.line_dragging);
    e.left_button(false, Click { inside: false, ..click() });
    assert!(!e.p.line_dragging);
}

#[test]
fn the_effect_panel_takes_clicks() {
    let mut e = Editor::new(true);
    e.p.show_properties = true;
    e.p.tool = 3;
    let acts = e.left_button(false, Click { row: Some(2), ..click() });
    assert!(acts == vec![ClickAct::ResetEffPanel, ClickAct::Timeline(false)]);
    assert_eq!(e.p.effect, Some(1));
    let acts = e.left_button(false, Click { row: Some(9), ..click() });
    assert!(acts[0] == ClickAct::AddEffect);
    let acts = e.left_button(false, Click { row: Some(7), keyframed: true, ..click() });
    assert!(acts.is_empty());
    assert_eq!((e.p.keyframe_var, e.p.keyframe), (Some(0), Some(0)));
    e.left_button(false, Click { row: Some(7), keyframed: true, ..click() });
    assert_eq!((e.p.keyframe_var, e.p.keyframe), (None, None));
    let acts = e.left_button(false, Click { row: Some(3), ..click() });
    assert!(acts[..2] == [ClickAct::EffClick, ClickAct::EffApply]);
    let first = Click { keyframe_row: Some(4), now: 1, ..click() };
    assert!(e.left_button(false, first).is_empty());
    let second = Click { now: DOUBLE_CLICK, ..first };
    assert!(e.left_button(false, second) == vec![ClickAct::EditKeyframe(4)]);
    let late = Click { now: 3 * DOUBLE_CLICK, ..first };
    assert!(e.left_button(false, late).is_empty());
}

#[test]
fn the_timeline_takes_clicks() {
    let mut e = Editor::new(true);
    e.events = vec![1, 2];
    e.click_event(2);
    assert_eq!(e.events, vec![1, 2]);
    e.click_event(5);
    assert!(e.events.is_empty());
    assert_eq!(e.p.event, Some(5));
    let column = || "Alpha".to_string();
    assert!(e.click_column(column(), 10) == TimelineAct::Seek);
    assert!(e.p.event.is_none());
    assert!(e.click_column(column(), 20) == TimelineAct::Create(EventKind::Alpha));
    assert!(e.click_column(column(), 30) == TimelineAct::Seek);
    assert!(e.click_column("Speed".to_string(), 40) == TimelineAct::Seek);
    assert!(e.click_column("Speed".to_string(), 40 + DOUBLE_CLICK) == TimelineAct::Seek);
    e.right_click_on_events(Some(3));
    assert_eq!(e.p.event, Some(3));
    e.events = vec![8, 9];
    e.sync_event_sel();
    assert_eq!(e.p.event, Some(8));
    e.events_nudged(vec![4, 5]);
    assert_eq!((e.p.event, e.events.len()), (Some(4), 2));
    e.event_added(Some(6));
    assert_eq!((e.p.event, e.events.len()), (Some(6), 0));
    e.event_edited(Some(2));
    assert_eq!((e.p.event, e.p.cache_valid, e.p.dirty), (Some(2), false, true));
    e.p.note = Some(1);
    e.notes = vec![1, 2];
    e.chart_changed();
    assert_eq!((e.p.event, e.p.note, e.notes.len()), (None, Some(1), 2));
    e.notes_changed();
    assert_eq!((e.p.note, e.notes.len()), (None, 0));
}

#[test]
fn menus_are_obeyed_in_order() {
    let mut e = Editor::new(true);
    e.p.note = Some(4);
    e.p.line = 1;
    let got = e.messages(
        &[
            Message::EditComment,
            Message::DeleteNote,
            Message::DeleteNote,
            Message::SeekToBeat,
            Message::MenuExport,
            Message::DeleteEvent,
        ],
        false,
        true,
    );
    assert!(
        got == vec![
            Command::EditComment(CommentTarget::Note(1, 4)),
            Command::DeleteNote(4),
            Command::SeekToBeat(3),
            Command::ExportDialog,
        ]
    );
    let got = e.messages(&[Message::EditComment], true, true);
    assert!(got == vec![Command::EditComment(CommentTarget::Line(1))]);
}

#[test]
fn charts_are_read_ahead_when_the_pointer_rests() {
    let ms = 1_000_000u64;
    let mut l = Loader::new(true, String::new());
    let a = || Some("a".to_string());
    assert_eq!(l.track(a(), 0), None);
    assert_eq!(l.track(a(), 200 * ms), None);
    let generation = l.track(a(), 201 * ms).unwrap();
    assert_eq!(l.target.as_deref(), Some("a"));
    assert_eq!(l.track(a(), 400 * ms), None);
    assert!(!l.reply(Reply::Nothing));
    assert!(l.reply(Reply::Done(generation, true)));
    assert_eq!(l.slot.as_deref(), Some("a"));
    assert_eq!(l.track(a(), 900 * ms), None);
    assert!(matches!(l.open_chart("a".to_string(), "a".to_string()), OpenStep::Stored));
    assert!(!l.splash && !l.is_loading());
    assert_eq!(l.chart_dir, "a");
}

#[test]
fn late_replies_are_ignored() {
    let ms = 1_000_000u64;
    let mut l = Loader::new(true, String::new());
    l.track(Some("a".to_string()), 0);
    let old = l.track(Some("a".to_string()), 300 * ms).unwrap();
    assert_eq!(l.track(Some("b".to_string()), 310 * ms), None);
    assert!(!l.reply(Reply::Done(old, true)));
    assert!(l.slot.is_none());
    let new = l.track(Some("b".to_string()), 600 * ms).unwrap();
    assert_ne!(new, old);
    assert!(!l.reply(Reply::Done(new, false)));
    assert!(l.slot.is_none() && l.target.is_none());
    l.track(Some("b".to_string()), 601 * ms).unwrap();
    assert!(!l.reply(Reply::Gone));
    assert!(l.target.is_none());
}

#[test]
fn loads_end_on_the_editor_or_with_a_message() {
    let mut l = Loader::new(true, String::new());
    assert!(matches!(l.open_chart("d/x".to_string(), "x".to_string()), OpenStep::Load));
    assert!(l.is_loading());
    assert!(!l.poll_loading(LoadThread::Running));
    assert!(l.is_loading());
    assert!(l.poll_loading(LoadThread::Loaded));
    l.applied();
    assert!(!l.is_loading() && !l.splash);
    l.reload_chart("d/y".to_string(), "y".to_string());
    assert!(!l.poll_loading(LoadThread::Failed("broken".to_string())));
    assert!(l.splash && !l.is_loading());
    assert_eq!(l.error.as_deref(), Some("broken"));
    l.reload_chart("d/z".to_string(), "z".to_string());
    assert!(l.error.is_none());
    assert!(!l.poll_loading(LoadThread::Panicked));
    assert_eq!(l.error.as_deref(), Some(PANIC_MESSAGE));
    l.back_to_splash();
    assert!(l.error.is_none() && l.ime_allowed);
}

#[test]
fn picked_and_dropped_files() {
    assert!(matches!(open_chart_from_pick(true, false, true), Picked::Directory));
    assert!(matches!(open_chart_from_pick(false, true, true), Picked::Package));
    assert!(matches!(open_chart_from_pick(false, false, true), Picked::Parent));
    assert!(matches!(open_chart_from_pick(false, false, false), Picked::Nothing));
    assert!(matches!(dropped(b"PK\x03\x04", true, true, "a", false), Dropped::Package));
    assert!(matches!(dropped(b"", true, false, "a", false), Dropped::Directory));
    assert!(matches!(dropped(b"{...", false, true, "info.json", false), Dropped::Parent));
    assert!(matches!(dropped(b"{...", false, true, "x.json", true), Dropped::Parent));
    assert!(matches!(dropped(b"{...", false, true, "x.json", false), Dropped::Refused));
    assert!(matches!(dropped_dir("", false, false), DroppedDir::Open));
    assert!(matches!(dropped_dir("a", false, true), DroppedDir::OpenListed));
    assert!(matches!(dropped_dir("a", false, false), DroppedDir::Copy));
}

#[test]
fn the_chart_list_takes_keys() {
    let mut s = Splash::new();
    let filtered = [2usize, 0, 5];
    let acts = s.handle_splash_keyboard(Key::ArrowDown, None, false, &filtered, 6);
    assert!(acts == vec![SplashAct::KeepVisible]);
    assert_eq!(s.sel, Some(0));
    for _ in 0..5 {
        s.handle_splash_keyboard(Key::ArrowDown, None, false, &filtered, 6);
    }
    assert_eq!(s.sel, Some(2));
    assert!(s.handle_splash_keyboard(Key::Enter, None, false, &filtered, 6) == vec![SplashAct::Open(5)]);
    assert!(s.wanted(&filtered, 6) == Some(5));
    s.hover = SplashHover::Chart(1);
    assert!(s.wanted(&filtered, 6) == Some(0));
    let acts = s.handle_splash_keyboard(Key::Delete, None, false, &filtered, 6);
    assert!(acts[0] == SplashAct::DeleteChart(5));
    assert_eq!(s.sel, None);
    for c in "ab".chars() {
        s.handle_splash_keyboard(Key::Other, Some(c), false, &filtered, 6);
    }
    assert_eq!(s.search, "ab");
    s.handle_splash_keyboard(Key::Backspace, None, false, &filtered, 6);
    assert_eq!(s.search, "a");
    s.handle_splash_keyboard(Key::Escape, None, false, &filtered, 6);
    assert_eq!(s.search, "");
    assert!(s.handle_splash_keyboard(Key::Q, None, true, &filtered, 6) == vec![SplashAct::Quit]);
    s.composing(true);
    assert!(s.handle_splash_keyboard(Key::Enter, None, false, &filtered, 6).is_empty());
}

#[test]
fn new_charts_are_named_in_a_dialog() {
    let mut s = Splash::new();
    assert!(s.click(SplashHover::New, &[], 0) == vec![SplashAct::PlaceIme]);
    assert!(s.ime_field(true) == Some(ImeField::NewName));
    s.handle_splash_keyboard(Key::Other, Some('x'), false, &[], 0);
    assert!(!s.commit("谱".to_string()));
    assert_eq!(s.dialog.as_ref().map(|d| d.0.as_str()), Some("x谱"));
    assert!(s.handle_splash_keyboard(Key::Enter, None, false, &[], 0) == vec![SplashAct::Create]);
    s.created(Some("no".to_string()));
    assert_eq!(s.dialog.as_ref().and_then(|d| d.1.as_deref()), Some("no"));
    s.created(None);
    assert!(s.dialog.is_none());
    assert!(s.commit("搜".to_string()));
    assert_eq!(s.search, "搜");
    assert!(s.click(SplashHover::Sort, &[], 0).is_empty());
    assert_eq!(s.sort, 1);
    assert!(s.click(SplashHover::Delete(0), &[3], 4)[0] == SplashAct::DeleteChart(3));
    assert!(s.click(SplashHover::Chart(0), &[9], 4).is_empty());
    s.click(SplashHover::Settings, &[], 0);
    assert!(s.ime_field(true).is_none());
    s.handle_splash_keyboard(Key::Escape, None, false, &[], 0);
    assert!(!s.show_settings);
    s.reset();
    assert_eq!(s.search, "");
}

fn track(audio: i64) -> Track {
    Track {
        audio,
        duration: 100_000_000_000,
        offset: 0,
        paused: false,
        dragging: false,
        frame_time: 16_000_000,
        latency: 15_000_000,
    }
}

#[test]
fn time_does_not_run_back_when_paused() {
    let mut c = Clock::new();
    let t = c.show(track(1_000_000_000), 1_000_000_000);
    assert_eq!(t, 1_001_000_000);
    let paused = Track { paused: true, ..track(1_000_000_000) };
    assert_eq!(c.show(paused, 1_000_000_000), t);
    c.target = Some(0);
    assert_eq!(c.show(paused, 1_000_000_000), 1_000_000_000);
}

#[test]
fn seeking_goes_in_steps() {
    let second = 1_000_000_000i64;
    let mut c = Clock::new();
    assert_eq!(c.seek(200 * second, track(0)), 100 * second);
    assert_eq!(c.chart_time, 100 * second);
    let (now, to) = c.scroll(track(0));
    assert_eq!(now, 12 * second + 4_000_000);
    assert_eq!(to, Some(now));
    c.hard_seek(5 * second, track(0));
    assert!(c.pending.is_none() && c.target.is_none());
    assert_eq!(c.scroll(track(5 * second)), (5 * second, None));
    c.seek(3 * second, track(0));
    let dragged = Track { dragging: true, ..track(0) };
    assert_eq!(c.scroll(dragged), (3 * second, None));
    c.repositioned(7);
    assert_eq!((c.combo, c.hits), (7, 7));
    assert_eq!(skip(10 * second, false), 5 * second);
    assert_eq!(skip(10 * second, true), 15 * second);
}

#[test]
fn the_wheel_moves_the_playhead() {
    let second = 1_000_000_000i64;
    let mut c = Clock::new();
    c.scroll_by(2 * ALONG_STEP, track(10 * second));
    assert_eq!(c.target, Some(9 * second));
    c.scroll_by(ACROSS_STEP, track(10 * second));
    assert_eq!(c.target, Some(12 * second));
    c.scroll_by(ALONG_STEP, track(0));
    assert_eq!(c.target, Some(0));
    c.scroll_by(ACROSS_STEP, track(99 * second));
    assert_eq!(c.target, Some(100 * second));
    assert_eq!(c.chart_time, 0);
}

#[test]
fn dragging_pauses_and_goes_on() {
    let mut c = Clock::new();
    assert!(matches!(c.drag(true, true), DragAct::Pause));
    assert!(matches!(c.drag(true, false), DragAct::Nothing));
    assert!(matches!(c.drag(false, false), DragAct::GoOn));
    assert!(matches!(c.drag(true, false), DragAct::Nothing));
    assert!(matches!(c.drag(false, false), DragAct::Nothing));
}

#[test]
fn hits_are_counted() {
    let mut c = Clock::new();
    c.count(&[
        Fired { hold_tail: false, tick: false, fake: false },
        Fired { hold_tail: false, tick: true, fake: false },
        Fired { hold_tail: true, tick: true, fake: false },
        Fired { hold_tail: true, tick: false, fake: true },
        Fired { hold_tail: false, tick: false, fake: true },
    ]);
    assert_eq!((c.combo, c.hits), (2, 2));
    c.chart_loaded();
    assert_eq!((c.combo, c.hits), (0, 0));
}

#[test]
fn frames_show_what_is_open() {
    assert!(matches!(frame_kind(true, true, false, true), FrameKind::Loading));
    assert!(matches!(frame_kind(false, true, false, true), FrameKind::Skipped));
    assert!(matches!(frame_kind(false, true, true, true), FrameKind::Charts));
    assert!(matches!(frame_kind(false, false, false, false), FrameKind::Editor));
    assert!(matches!(info_field(0), Some(InfoField::Name)));
    assert!(matches!(info_field(5), Some(InfoField::Difficulty)));
    assert!(info_field(6).is_none());
    assert!(!notice_is_over(0, 2_000_000_000));
    assert!(notice_is_over(0, 2_000_000_001));
}

#[test]
fn the_picture_is_dimmed_after_a_jump() {
    assert!(!is_dimmed(None, 5));
    assert!(is_dimmed(Some(1_000), 1_000));
    assert!(is_dimmed(Some(1_000), 400_000_999));
    assert!(!is_dimmed(Some(1_000), 400_001_000));
}
