use phimakor::editor::EventEdit;
use phimakor::events::{
    clamp_one, edit_event, move_event, new_event, script_event, Event, MINUS_ONE,
};
use phimakor::forms::{
    bpm_adds, bpm_replacements, eff_apply, Effect, Row, Tempo, VarValue, FIRST_BPM, HUNDREDTH,
};
use phimakor::renderer::ONE;
use phimakor::scripting::BadOp;
use phimakor::texture::{upload_layout, PreparedTex};

const BEAT: i64 = phimakor::beats::BEAT;

fn ticks(beats: f64) -> i64 {
    (beats * BEAT as f64).round() as i64
}

fn effect() -> Effect {
    Effect {
        shader: "glitch".to_string(),
        start: ticks(1.0),
        end: ticks(3.0),
        global: true,
        names: vec!["rate".to_string(), "power".to_string(), "colour".to_string()],
        values: vec![VarValue::Number(Some(600)), VarValue::Number(Some(30)), VarValue::Keyframes(2)],
    }
}

fn number(beats: f64, thousandths: i64) -> Row {
    Row::Number { ticks: ticks(beats), thousandths }
}

fn rows(shader: usize, start: f64, end: f64, on: bool, power: i64, rate: i64) -> Vec<Row> {
    let items = vec!["glitch".to_string(), "noise".to_string()];
    vec![
        Row::Other,
        Row::Combo { items, selected: shader },
        number(start, 0),
        number(end, 0),
        Row::Toggle(on),
        number(0.0, 77),
        number(0.0, power),
        number(0.0, rate),
    ]
}

#[test]
fn rows_that_say_the_same_change_nothing() {
    let mut e = effect();
    assert!(!eff_apply(&mut e, &rows(0, 1.0, 3.0, true, 30, 600), 1));
    assert_eq!((e.shader.as_str(), e.start, e.end, e.global), ("glitch", ticks(1.0), ticks(3.0), true));
}

#[test]
fn rows_are_written_to_the_values_of_their_names() {
    let mut e = effect();
    assert!(eff_apply(&mut e, &rows(1, 0.5, 2.0, false, 31, 601), 1));
    assert_eq!((e.shader.as_str(), e.start, e.end, e.global), ("noise", ticks(0.5), ticks(2.0), false));
    assert_eq!(
        e.values,
        vec![VarValue::Number(Some(601)), VarValue::Number(Some(31)), VarValue::Keyframes(2)]
    );
    assert_eq!(e.names, effect().names);
}

#[test]
fn spans_start_in_the_chart_and_are_not_too_short() {
    let mut e = effect();
    assert!(eff_apply(&mut e, &rows(0, -4.0, -2.0, true, 30, 600), 1));
    assert_eq!((e.start, e.end), (0, HUNDREDTH));
    let mut f = effect();
    let mut near = rows(0, 1.0, 3.0, true, 30, 600);
    near[2] = Row::Number { ticks: ticks(1.0) + 4, thousandths: 0 };
    assert!(!eff_apply(&mut f, &near, 1));
    near[2] = Row::Number { ticks: ticks(1.0) + 5, thousandths: 0 };
    assert!(eff_apply(&mut f, &near, 1));
    assert_eq!(f.start, ticks(1.0) + 5);
}

#[test]
fn numbers_that_are_no_thousandths_are_rounded() {
    let mut e = effect();
    e.values[0] = VarValue::Number(None);
    assert!(eff_apply(&mut e, &rows(0, 1.0, 3.0, true, 30, 600), 1));
    assert_eq!(e.values[0], VarValue::Number(Some(600)));
    assert!(!eff_apply(&mut e, &[], 0));
    assert!(!eff_apply(&mut e, &rows(9, 1.0, 3.0, true, 30, 600), 1));
}

fn tempo(beat: f64, bpm: f64) -> Tempo {
    Tempo { beat: ticks(beat), bpm: ticks(bpm) }
}

#[test]
fn new_tempo_rows_follow_the_last() {
    let old = [tempo(0.0, 120.0), tempo(8.0, 180.0)];
    let new = [old[0], old[1], tempo(0.0, 0.0), tempo(12.0, 90.0)];
    let added = bpm_adds(&old, &new);
    assert_eq!(added, vec![Tempo { beat: ticks(8.0) + HUNDREDTH, bpm: ticks(180.0) }, tempo(12.0, 90.0)]);
    assert!(bpm_adds(&old, &old).is_empty());
    assert!(bpm_adds(&new, &old).is_empty());
    assert_eq!(bpm_adds(&[], &[tempo(0.0, 0.0)]), vec![Tempo { beat: HUNDREDTH, bpm: FIRST_BPM }]);
    assert_eq!(FIRST_BPM, ticks(120.0));
}

#[test]
fn only_changed_tempo_rows_are_replaced() {
    let now = [tempo(0.0, 120.0), tempo(8.0, 180.0), tempo(9.0, 60.0)];
    let rows = [tempo(0.0, 120.0), tempo(8.5, 180.0)];
    assert_eq!(bpm_replacements(&now, &rows), vec![(1, rows[1])]);
    assert!(bpm_replacements(&now, &now).is_empty());
    assert_eq!(bpm_replacements(&now[..1], &[tempo(0.0, 121.0), rows[1]]), vec![(0, tempo(0.0, 121.0))]);
}

fn plain() -> Event {
    new_event(ticks(2.1), ticks(0.5))
}

#[test]
fn new_events_go_from_zero_to_one_in_a_step() {
    let e = plain();
    assert_eq!((e.start_time, e.end_time), (ticks(2.0), ticks(2.5)));
    assert_eq!((f32::from_bits(e.start), f32::from_bits(e.end)), (0.0, 1.0));
    assert_eq!((e.easing_type, f32::from_bits(e.easing_left), f32::from_bits(e.easing_right)), (1, 0.0, 1.0));
    assert_eq!((e.bezier, e.bezier_points), (0, [0; 4]));
}

#[test]
fn keys_change_one_part_of_an_event() {
    let g = ticks(0.5);
    let e = plain();
    assert_eq!(edit_event(e, EventEdit::Start(false), g, 0).start_time, ticks(1.5));
    assert_eq!(edit_event(e, EventEdit::End(true), g, 0).end_time, ticks(3.0));
    let early = new_event(0, g);
    assert_eq!(edit_event(early, EventEdit::Start(false), g, 0).start_time, 0);
    let up = edit_event(e, EventEdit::StartValue(true), g, 0.01f32.to_bits());
    assert_eq!(f32::from_bits(up.start), 0.01);
    let over = edit_event(e, EventEdit::EndValue(true), g, 1.01f32.to_bits());
    assert_eq!(f32::from_bits(over.end), 1.0);
    assert_eq!(edit_event(e, EventEdit::Easing(false), g, 0).easing_type, 0);
    let last = Event { easing_type: 5, ..e };
    assert_eq!(edit_event(last, EventEdit::Easing(true), g, 0).easing_type, 5);
    let same = edit_event(e, EventEdit::Same, g, 7);
    assert_eq!((same.start, same.end, same.start_time), (e.start, e.end, e.start_time));
}

#[test]
fn values_are_cut_to_one() {
    for v in [-5.0f32, -1.0, -0.5, -0.0, 0.0, 0.3, 1.0, 1.5, f32::INFINITY, f32::NEG_INFINITY] {
        assert_eq!(clamp_one(v.to_bits()), v.min(1.0).max(-1.0).to_bits());
    }
    assert_eq!(clamp_one(f32::NAN.to_bits()), f32::NAN.min(1.0).max(-1.0).to_bits());
    assert_eq!((ONE, MINUS_ONE), (1.0f32.to_bits(), (-1.0f32).to_bits()));
}

#[test]
fn moved_events_land_on_the_grid() {
    let e = move_event(plain(), ticks(0.7), ticks(0.5));
    assert_eq!((e.start_time, e.end_time), (ticks(2.5), ticks(3.0)));
    let back = move_event(plain(), ticks(-9.0), ticks(0.5));
    assert_eq!((back.start_time, back.end_time), (0, 0));
}

#[test]
fn scripts_give_four_points_or_none() {
    let e = script_event(plain(), &Some(vec![1, 2, 3, 4])).unwrap();
    assert_eq!(e.bezier_points, [1, 2, 3, 4]);
    assert_eq!(script_event(e, &None).unwrap().bezier_points, [0; 4]);
    assert_eq!(script_event(e, &Some(vec![1])).unwrap_err(), BadOp::BezierPoints);
}

#[test]
fn compressed_rows_are_rows_of_blocks() {
    let tex = |w: u32, h: u32, compressed: bool| PreparedTex {
        data: Vec::new(),
        w,
        h,
        compressed,
        orig_w: w,
        orig_h: h,
    };
    assert_eq!(upload_layout(&tex(8, 12, true)), (32, 3));
    assert_eq!(upload_layout(&tex(5, 1, true)), (32, 1));
    assert_eq!(upload_layout(&tex(5, 3, false)), (20, 3));
}
