use phimakor::beats::{
    drag_drop, drag_moved, drag_origin, drag_preview, new_effect_span, new_event_span, nudge_event,
    nudge_selected, placed_end, resolve_target_beat, show_preview, snap_beat,
    NoteTime, BEAT, HOLD,
};
use phimakor::loops::{
    loop_error_text, loop_points_valid, notice_text, Loop, LoopError, Notice, Playing,
};
use phimakor::notes::{
    clamp_x, nudge_notes, paste_notes_transform, place_note, place_note_at_playhead, Note, ALWAYS, EDGE, LEFT_EDGE,
};
use phimakor::panels::{
    bpm_apply, custom_shaders, eff_sorted, eff_var_is_keyframed, effect_of_row, next_event_easing,
    next_keyframe_easing, row_of_effect, var_of_row, VarKind,
};
use phimakor::scripting::{
    bad_op_text, bezier_points, event_kind, events, tempo_order, tint, BadOp,
};
use phimakor::timeline::{
    chosen_of, copy_selected_notes, event_kind_name, event_kind_of, extract_full_notes,
    extract_line_events, extract_line_notes, find_event, group_by_kind, picked_events, placed_kind,
    reselect, selected_event_kind, Entry, EventKind, Layer, LineNotes,
};

fn ticks(beats: f64) -> i64 {
    (beats * BEAT as f64).round() as i64
}

fn beats(t: i64) -> f64 {
    t as f64 / BEAT as f64
}

#[test]
fn resolve_target_beat_priority_playhead_then_selected_then_zero() {
    let resolve = |p: f64, s: f64, n: Option<f64>| {
        beats(resolve_target_beat(ticks(p), ticks(s), n.map(ticks)))
    };
    assert_eq!(resolve(4.4, 0.25, Some(10.0)), 4.5);
    assert_eq!(resolve(2.1, 0.5, None), 2.0);
    assert_eq!(resolve(0.0, 0.25, Some(3.7)), 3.75);
    assert_eq!(resolve(0.0, 0.25, None), 0.0);
}

#[test]
fn beats_snap_to_the_nearest_step() {
    assert_eq!(beats(snap_beat(ticks(4.4), ticks(0.25), 0)), 4.5);
    assert_eq!(beats(snap_beat(ticks(0.125), ticks(0.25), 0)), 0.25);
    assert_eq!(beats(snap_beat(ticks(-0.5), ticks(0.25), 0)), 0.0);
    let p = snap_beat(ticks(7.03), ticks(0.125), 0);
    assert_eq!(snap_beat(p, ticks(0.125), 0), p);
}

fn note_at(b: f64, kind: u8) -> NoteTime {
    NoteTime { start: ticks(b), end: ticks(b), kind }
}

fn whole_note_at(beats: f64, kind: u8) -> Note {
    place_note(kind, ticks(beats), ticks(beats), 0)
}

#[test]
fn paste_transform_keeps_offsets_and_snaps_anchor() {
    let mut tap = whole_note_at(2.0, 1);
    tap.position_x = 123.0f32.to_bits();
    tap.comment = Some("c".into());
    let mut hold = whole_note_at(4.0, 2);
    hold.time.end = ticks(6.0);
    let out = paste_notes_transform(&[tap, hold], ticks(10.0));
    assert_eq!(out.len(), 2);
    assert_eq!(beats(out[0].time.start), 10.0);
    assert_eq!(beats(out[1].time.start), 12.0);
    assert_eq!(beats(out[1].time.end), 14.0);
    assert_eq!(out[0].time.kind, 1);
    assert_eq!(f32::from_bits(out[0].position_x), 123.0);
    assert_eq!(out[0].comment.as_deref(), Some("c"));
}

#[test]
fn paste_transform_zero_end_stays_zero() {
    let mut n = whole_note_at(1.0, 3);
    n.time.end = ticks(0.0);
    let out = paste_notes_transform(&[n], ticks(5.0));
    assert_eq!(beats(out[0].time.start), 5.0);
    assert_eq!(beats(out[0].time.end), 0.0);
}

#[test]
fn placed_notes_are_plain_and_on_the_line() {
    let n = place_note(1, ticks(1.0), ticks(3.0), 900.0f32.to_bits());
    assert_eq!(n.time, note_at(1.0, 1));
    assert_eq!(n.position_x, 675.0f32.to_bits());
    assert_eq!((n.above, n.alpha, n.is_fake, n.y_offset), (1, 255, 0, 0));
    assert_eq!((f32::from_bits(n.size), f32::from_bits(n.speed)), (1.0, 1.0));
    assert_eq!(f64::from_bits(n.visible_time), 999999.0);
    assert!(n.hitsound.is_none() && n.comment.is_none() && n.tint.is_none());
    let hold = place_note_at_playhead(HOLD, ticks(2.1), ticks(0.5), (-5.0f32).to_bits());
    assert_eq!((beats(hold.time.start), beats(hold.time.end)), (2.0, 2.5));
    assert_eq!(f32::from_bits(hold.position_x), -5.0);
    let tap = place_note_at_playhead(1, ticks(2.1), ticks(0.5), 0);
    assert_eq!(tap.time, note_at(2.0, 1));
}

#[test]
fn places_are_cut_at_the_edges() {
    for x in [-1e9f32, -676.0, -675.0, -1.0, -0.0, 0.0, 674.5, 675.0, 675.1, f32::INFINITY] {
        assert_eq!(clamp_x(x.to_bits()), x.clamp(-675.0, 675.0).to_bits());
    }
    assert_eq!(clamp_x(f32::NAN.to_bits()), f32::NAN.to_bits());
    assert_eq!((EDGE, LEFT_EDGE), (675.0f32.to_bits(), (-675.0f32).to_bits()));
    assert_eq!(ALWAYS, 999999.0f64.to_bits());
}

#[test]
fn pasting_nothing_gives_nothing() {
    assert!(paste_notes_transform(&[], ticks(5.0)).is_empty());
}

#[test]
fn nudged_notes_stay_in_the_chart() {
    let mut hold = note_at(1.0, HOLD);
    hold.end = ticks(2.0);
    let notes = [note_at(0.1, 1), hold];
    let back = nudge_selected(&notes, &[1, 0, 9], -ticks(0.25));
    assert_eq!(back.len(), 2);
    assert_eq!(back[0].0, 1);
    assert_eq!(beats(back[0].1.start), 0.75);
    assert_eq!(beats(back[0].1.end), 1.75);
    assert_eq!(back[1].1.start, 0);
    let on = nudge_selected(&[back[0].1], &[0], ticks(0.25));
    assert_eq!(on[0].1, hold);
}

#[test]
fn dragged_groups_move_together() {
    let mut hold = note_at(3.0, HOLD);
    hold.end = ticks(5.0);
    let notes = [note_at(1.0, 1), hold, note_at(8.0, 4)];
    let set = drag_origin(&notes, &[0, 1], 1);
    assert_eq!(set.iter().map(|p| p.0).collect::<Vec<_>>(), vec![0, 1]);
    let with_self = drag_origin(&notes, &[0], 2);
    assert_eq!(with_self.iter().map(|p| p.0).collect::<Vec<_>>(), vec![0, 2]);
    let preview = drag_preview(&set, 1, ticks(4.1)).unwrap();
    assert_eq!(preview[1].1.start, ticks(4.1));
    assert_eq!(preview[1].1.end - preview[1].1.start, ticks(2.0));
    let dropped = drag_drop(&set, 1, ticks(4.1), ticks(0.25)).unwrap();
    assert_eq!(beats(dropped[1].1.start), 4.0);
    assert_eq!(beats(dropped[0].1.start), 2.0);
    assert_eq!(beats(dropped[1].1.end), 6.0);
    assert!(drag_moved(&set, &dropped));
    assert!(!drag_moved(&set, &set));
    assert!(drag_drop(&set, 7, 0, ticks(0.25)).is_none());
    assert!(drag_preview(&set, 7, 0).is_none());
}

#[test]
fn a_hold_dragged_alone_lasts_one_beat() {
    let mut hold = note_at(3.0, HOLD);
    hold.end = ticks(5.0);
    let set = drag_origin(&[hold], &[], 0);
    let dropped = drag_drop(&set, 0, ticks(4.0), ticks(0.25)).unwrap();
    assert_eq!(beats(dropped[0].1.end), 5.0);
    let tap = drag_origin(&[note_at(3.0, 1)], &[], 0);
    let dropped = drag_drop(&tap, 0, ticks(4.0), ticks(0.25)).unwrap();
    assert_eq!(dropped[0].1.end, dropped[0].1.start);
}

#[test]
fn previews_are_laid_over_the_list() {
    let mut list = vec![(4, note_at(1.0, 1)), (7, note_at(2.0, 1))];
    show_preview(&mut list, &[(7, note_at(-1.0, 9)), (5, note_at(3.0, 1))]);
    assert_eq!(list[0].1, note_at(1.0, 1));
    assert_eq!(list[1], (7, NoteTime { start: 0, end: 0, kind: 1 }));
}

#[test]
fn new_things_begin_on_the_grid() {
    assert_eq!(new_effect_span(ticks(5.1), ticks(0.25)), (ticks(3.0), ticks(7.0)));
    assert_eq!(new_effect_span(ticks(1.0), ticks(0.25)), (0, ticks(3.0)));
    assert_eq!(new_event_span(ticks(4.4), ticks(0.25)), (ticks(4.5), ticks(4.75)));
    assert_eq!(
        nudge_event(ticks(1.0), ticks(2.1), ticks(0.25), ticks(0.25)),
        (ticks(1.25), ticks(2.25))
    );
    assert_eq!(placed_end(HOLD, 1, 5), 5);
    assert_eq!(placed_end(1, 1, 5), 1);
}

#[test]
fn loop_points_valid_accepts_only_a_lt_b() {
    assert_eq!(
        loop_points_valid(Some(ticks(0.0)), Some(ticks(8.0))).ok(),
        Some((ticks(0.0), ticks(8.0)))
    );
    assert!(loop_points_valid(Some(ticks(4.0)), Some(ticks(4.0))).is_err());
    assert!(loop_points_valid(Some(ticks(6.0)), Some(ticks(4.0))).is_err());
    assert!(loop_points_valid(None, Some(ticks(4.0))).is_err());
    assert!(loop_points_valid(Some(ticks(4.0)), None).is_err());
    assert!(loop_points_valid(None, None).is_err());
    assert_eq!(loop_error_text(LoopError::NoA), "先设 A 点 (I)");
    assert_eq!(loop_error_text(LoopError::NoB), "先设 B 点 (O)");
    assert_eq!(loop_error_text(LoopError::NotBefore), "A 必须小于 B");
}

#[test]
fn loop_points_are_set_and_cleared() {
    let mut l = Loop::new();
    assert!(matches!(l.toggle_loop(), Notice::Cannot(LoopError::NoA)));
    assert!(matches!(l.set_loop_point(true, ticks(4.0), BEAT), Notice::SetA));
    assert!(matches!(l.toggle_loop(), Notice::Cannot(LoopError::NoB)));
    assert!(matches!(l.set_loop_point(false, ticks(4.0), BEAT), Notice::RefusedB));
    assert!(matches!(l.set_loop_point(false, ticks(8.0), BEAT), Notice::SetB));
    assert!(matches!(l.toggle_loop(), Notice::On));
    assert!(l.on);
    assert!(matches!(l.set_loop_point(true, ticks(0.0), BEAT), Notice::ClearedA));
    assert!(!l.on && l.a.is_none());
    assert!(matches!(l.set_loop_point(true, ticks(8.0), BEAT), Notice::RefusedA));
    assert!(matches!(l.set_loop_point(true, ticks(3.0), BEAT), Notice::SetA));
    assert!(matches!(l.toggle_loop(), Notice::On));
    assert!(matches!(l.toggle_loop(), Notice::Off));
    assert!(matches!(l.set_loop_point(false, ticks(0.0), BEAT), Notice::ClearedB));
    assert!(matches!(l.set_loop_point(true, ticks(5.0), BEAT), Notice::ClearedA));
    assert!(matches!(l.set_loop_point(true, ticks(4.4), ticks(0.25)), Notice::SetA));
    assert_eq!(l.a, Some(ticks(4.5)));
    assert_eq!(notice_text(Notice::SetA), ("A = ", " 拍"));
    assert_eq!(notice_text(Notice::Cannot(LoopError::NoB)), ("循环无法开启:", "先设 B 点 (O)"));
}

#[test]
fn playing_into_b_goes_back_to_a() {
    let second = 1_000_000_000i64;
    let playing = Playing { audio: true, paused: false, seeking: false, dragging: false };
    let mut l = Loop { a: Some(0), b: Some(1), on: true, last_audio: 9 * second + 900_000_000 };
    assert_eq!(l.frame(playing, 10 * second, 2 * second, 10 * second), Some(2 * second));
    assert_eq!(l.last_audio, 2 * second);
    assert_eq!(l.frame(playing, 2 * second + 1, 2 * second, 10 * second), None);
    assert_eq!(l.frame(playing, 11 * second, 2 * second, 10 * second), None);
    let paused = Playing { paused: true, ..playing };
    let mut l = Loop { a: Some(0), b: Some(1), on: true, last_audio: 10 * second };
    assert_eq!(l.frame(paused, 10 * second, 2 * second, 10 * second), None);
}

fn bits(v: &[f64]) -> Vec<u64> {
    v.iter().map(|b| b.to_bits()).collect()
}

fn layer() -> Layer {
    Layer {
        alpha: bits(&[4.0, 1.0]),
        move_x: bits(&[2.0]),
        move_y: bits(&[]),
        rotate: bits(&[1.0]),
        speed: bits(&[0.5]),
    }
}

#[test]
fn events_are_listed_by_their_ends() {
    let entries = extract_line_events(&Some(layer()));
    let got: Vec<(EventKind, usize)> = entries.iter().map(|e| (e.kind, e.index)).collect();
    let want = [
        (EventKind::Speed, 0),
        (EventKind::Alpha, 1),
        (EventKind::Rotate, 0),
        (EventKind::MoveX, 0),
        (EventKind::Alpha, 0),
    ];
    assert_eq!(got.len(), want.len());
    for i in 0..want.len() {
        assert!(got[i] == want[i], "place {i}");
    }
    assert!(extract_line_events(&None).is_empty());
    assert_eq!(find_event(&entries, Entry { kind: EventKind::Rotate, index: 0 }), Some(2));
    assert_eq!(find_event(&entries, Entry { kind: EventKind::MoveY, index: 0 }), None);
    assert!(selected_event_kind(&entries, Some(3)) == Some(EventKind::MoveX));
    assert!(selected_event_kind(&entries, Some(9)).is_none());
}

#[test]
fn chosen_events_are_grouped_and_found_again() {
    let entries = extract_line_events(&Some(layer()));
    let chosen = chosen_of(&vec![4, 0, 1, 77], Some(2));
    assert_eq!(chosen, vec![4, 0, 1, 77]);
    let events = picked_events(&entries, &chosen);
    assert_eq!(events.len(), 3);
    let groups = group_by_kind(&events);
    assert_eq!(groups.len(), 2);
    assert!(groups[0].0 == EventKind::Alpha);
    assert_eq!(groups[0].1, vec![0, 1]);
    assert!(groups[1].0 == EventKind::Speed);
    assert_eq!(reselect(&entries, &events), vec![4, 0, 1]);
    assert_eq!(chosen_of(&vec![], Some(2)), vec![2]);
    assert!(chosen_of(&vec![], None).is_empty());
}

#[test]
fn kinds_have_names() {
    for k in [
        EventKind::Alpha,
        EventKind::MoveX,
        EventKind::MoveY,
        EventKind::Rotate,
        EventKind::Speed,
    ] {
        assert!(event_kind_of(event_kind_name(k)) == Some(k));
    }
    assert!(event_kind_of("Color").is_none());
}

#[test]
fn notes_are_listed_by_their_ends() {
    assert_eq!(extract_line_notes(&bits(&[3.0, 1.0, 2.0, 1.0])), vec![1, 3, 2, 0]);
    let lines = [
        LineNotes { starts: bits(&[3.0, 1.0]), ends: bits(&[3.0, 9.0]) },
        LineNotes { starts: bits(&[1.0]), ends: bits(&[1.0]) },
    ];
    assert_eq!(extract_full_notes(&lines), vec![(0, 1), (1, 0), (0, 0)]);
}

#[test]
fn copies_keep_what_is_there() {
    assert_eq!(copy_selected_notes(&vec![3, 9, 0], None, 4), Some(vec![3, 0]));
    assert_eq!(copy_selected_notes(&vec![], Some(1), 4), Some(vec![1]));
    assert_eq!(copy_selected_notes(&vec![9], Some(1), 4), None);
    assert_eq!(copy_selected_notes(&vec![], None, 4), None);
    assert_eq!(placed_kind(&vec![1], Some(1), &[1, 4]), 4);
    assert_eq!(placed_kind(&vec![0, 1], Some(1), &[1, 4]), 1);
    assert_eq!(placed_kind(&vec![1], Some(7), &[1, 4]), 1);
}

#[test]
fn effects_are_listed_by_their_starts() {
    let starts = bits(&[8.0, 2.0, 4.0]);
    assert_eq!(eff_sorted(&starts), vec![1, 2, 0]);
    assert_eq!(effect_of_row(&starts, Some(2)), Some(0));
    assert_eq!(effect_of_row(&starts, Some(3)), None);
    assert_eq!(effect_of_row(&starts, None), None);
    assert_eq!(row_of_effect(&starts, 2), Some(1));
    assert_eq!(row_of_effect(&starts, 3), None);
    let names = vec!["size".to_string(), "alpha".to_string()];
    assert_eq!(var_of_row(&names, 0), Some(1));
    assert!(eff_var_is_keyframed(&names, &[VarKind::Keyframes(2), VarKind::Number], 1));
    assert!(!eff_var_is_keyframed(&names, &[VarKind::Keyframes(2), VarKind::Number], 0));
    assert!(!eff_var_is_keyframed(&names, &[VarKind::Keyframes(2), VarKind::Other], 5));
    let shaders = vec!["grayscale".to_string(), "mine.frag".to_string()];
    assert_eq!(custom_shaders(&shaders), vec!["mine.frag".to_string()]);
}

#[test]
fn easings_go_round_or_stop() {
    assert_eq!(next_keyframe_easing(29, true), 0);
    assert_eq!(next_keyframe_easing(0, false), 29);
    assert_eq!(next_keyframe_easing(-31, true), (-30i32).rem_euclid(30));
    assert_eq!(next_event_easing(5, true), 5);
    assert_eq!(next_event_easing(0, false), 0);
    assert_eq!(next_event_easing(2, true), 3);
}

#[test]
fn one_tempo_is_kept() {
    assert_eq!(bpm_apply(2, 4), (2, 0));
    assert_eq!(bpm_apply(4, 2), (0, 2));
    assert_eq!(bpm_apply(4, 0), (0, 3));
    assert_eq!(bpm_apply(3, 3), (0, 0));
}

#[test]
fn scripts_are_checked() {
    assert_eq!(bezier_points(&None).ok(), Some([0, 0, 0, 0]));
    assert_eq!(bezier_points(&Some(vec![1, 2, 3, 4])).ok(), Some([1, 2, 3, 4]));
    assert!(bezier_points(&Some(vec![1, 2, 3])).is_err());
    assert_eq!(tint(&None).ok(), Some(None));
    assert_eq!(tint(&Some(vec![1, 2, 3])).ok(), Some(Some([1, 2, 3])));
    assert!(tint(&Some(vec![])).is_err());
    assert!(matches!(event_kind("move_x"), Ok(EventKind::MoveX)));
    assert!(matches!(event_kind("MoveX"), Err(BadOp::EventKind)));
    assert_eq!(bad_op_text(BadOp::Tint), "tint must be a list of 3 bytes (r, g, b)");
    let layers = vec![Some(layer()), None, Some(layer())];
    assert_eq!(events(&layers, "alpha"), vec![(0, 0), (0, 1), (2, 0), (2, 1)]);
    assert!(events(&layers, "colour").is_empty());
}

#[test]
fn nudged_notes_keep_what_else_they_hold() {
    let mut first = whole_note_at(1.0, 1);
    first.comment = Some("c".into());
    first.alpha = 17;
    let notes = [first, whole_note_at(2.0, 3)];
    let xs = [670.0f32 + 5.0, -680.0].map(|x: f32| x.to_bits());
    let got = nudge_notes(&notes, &[1, 7, 0], ticks(0.25), &xs);
    assert_eq!(got.iter().map(|p| p.0).collect::<Vec<_>>(), vec![1, 0]);
    assert_eq!(beats(got[0].1.time.start), 2.25);
    assert_eq!(f32::from_bits(got[0].1.position_x), -675.0);
    assert_eq!(beats(got[1].1.time.start), 1.25);
    assert_eq!(f32::from_bits(got[1].1.position_x), 675.0);
    assert_eq!((got[1].1.comment.as_deref(), got[1].1.alpha), (Some("c"), 17));
}

#[test]
fn tempos_are_listed_by_beat() {
    let order = |beats: &[f64]| tempo_order(&beats.iter().map(|b| b.to_bits()).collect::<Vec<u64>>());
    assert_eq!(order(&[8.0, 0.0, 4.5, 4.5, -1.0]), vec![4, 1, 2, 3, 0]);
    assert!(order(&[]).is_empty());
}
