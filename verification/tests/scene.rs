use phimakor::effects::{effect_index, EvalEffect, EFFECT_COUNT};
use phimakor::renderer::{FxPoint, Renderer};
use phimakor::debug::{baseline, count_lines, paint, DebugCounts, ROW_H};
use phimakor::engine::{
    custom_sprite_key, sprite_key, sprites, texture_names, ChartSession, FiredNote, LoadedChart,
};
use phimakor::floats::{is_gt_zero32, is_le_zero32, total_order};
use phimakor::fx::{fx_seed_of, shard_random, shard_seed, sheet_cell, HIT_FX_COLS, HIT_FX_FRAMES};
use phimakor::order::{sorted_by, stable_order};
use phimakor::preview::PreviewEngine;
use phimakor::scene::{
    build_line_cmds, choose_format, choose_sprite, depth_order, draw_runs, draw_to_view,
    frame_tint, grown_capacity, mask_items, note_color, FramePass,
    hud_bind, hud_fmt, hud_texts, is_builtin_texture, is_large, note_order, note_parts,
    pause_button, present_mode, progress_bar, required_features, scene_chunks, score_text, HudBind,
    HudCache, HudData, LineInfo, NoteInfo, Part, PauseButton, PresentMode,
};
use phimakor::text::{Glyph, TextAnchor};

fn note(kind: u8) -> NoteInfo {
    NoteInfo {
        kind,
        above: true,
        multiple_hint: false,
        alpha: 1.0f32.to_bits(),
        has_end: kind == 2,
        head_inside: true,
        tail_inside: true,
        body_shown: true,
    }
}

fn line(index: usize, z_order: i32, notes: Vec<NoteInfo>) -> LineInfo {
    LineInfo {
        index,
        z_order,
        pe_hide: false,
        alpha: 1.0f32.to_bits(),
        drawn_alpha: 1.0f32.to_bits(),
        attach_ui: None,
        texture: None,
        notes,
    }
}

fn hud() -> HudData {
    HudData {
        chart_name: "name".to_string(),
        difficulty: "IN Lv.12".to_string(),
        score: 123456,
        combo: 42,
        paused: false,
        visible: true,
        frame_ms: 0,
        fps: 0,
    }
}

fn loaded(names: &[&str]) -> Vec<String> {
    names.iter().map(|s| s.to_string()).collect()
}

#[test]
fn sprites_fall_back() {
    let all = loaded(&["note:click", "note:click_mh", "note:hold"]);
    assert_eq!(choose_sprite(1, false, &all), (Some("note:click".to_string()), false));
    assert_eq!(choose_sprite(1, true, &all), (Some("note:click_mh".to_string()), true));
    assert_eq!(choose_sprite(2, true, &all), (Some("note:hold".to_string()), false));
    assert_eq!(choose_sprite(3, true, &all), (None, false));
}

#[test]
fn notes_are_drawn_in_parts() {
    assert_eq!(note_parts(&note(1), true), vec![Part::Sprite]);
    assert_eq!(note_parts(&note(2), true), vec![Part::HoldBody, Part::HoldHead, Part::HoldTail]);
    assert_eq!(note_parts(&note(2), false), vec![Part::PlainBody, Part::PlainNote]);
    let mut hidden = note(1);
    hidden.alpha = 0;
    assert!(note_parts(&hidden, true).is_empty());
    let mut outside = note(1);
    outside.head_inside = false;
    assert!(note_parts(&outside, true).is_empty());
}

#[test]
fn holds_are_drawn_before_other_notes() {
    let order = note_order(&vec![note(1), note(2), note(4), note(2)]);
    assert_eq!(order.len(), 4);
    let kinds: Vec<u8> = order.iter().map(|&i| [1u8, 2, 4, 2][i]).collect();
    assert_eq!(&kinds[..2], &[2, 2]);
    assert_eq!(&order[..2], &[1, 3]);
}

#[test]
fn lines_are_drawn_with_their_notes() {
    let lines = vec![line(0, 0, vec![note(1)]), line(1, 0, vec![])];
    let items = build_line_cmds(&lines, &loaded(&["note:click"]));
    assert!(items.iter().any(|d| d.line == 0 && d.part == Part::Bar));
    assert!(items.iter().any(|d| d.line == 0 && d.note == Some(0) && d.part == Part::Sprite));
    assert!(items.iter().any(|d| d.line == 1 && d.part == Part::Bar));
    assert_eq!(items.len(), 3);
}

#[test]
fn lines_are_ordered_by_depth() {
    let lines = vec![line(0, 3, vec![]), line(1, -1, vec![]), line(2, 3, vec![]), line(3, 0, vec![])];
    assert_eq!(depth_order(&lines), vec![1, 3, 0, 2]);
    assert_eq!(stable_order(&[2i64, 1, 2, 1]), vec![1, 3, 0, 2]);
    assert_eq!(sorted_by(&["b".to_string(), "a".to_string()]), vec![1, 0]);
}

#[test]
fn scenes_are_cut_for_workers() {
    assert_eq!(scene_chunks(false, 8, 100, true), None);
    assert_eq!(scene_chunks(true, 8, 100, false), None);
    assert_eq!(scene_chunks(true, 8, 1, true), None);
    let cut = scene_chunks(true, 8, 100, true).unwrap();
    assert_eq!(cut[0].0, 0);
    assert_eq!(cut[cut.len() - 1].1, 100);
    for i in 1..cut.len() {
        assert_eq!(cut[i].0, cut[i - 1].1);
    }
    assert!(!is_large(&vec![line(0, 0, vec![])]));
}

#[test]
fn runs_share_a_texture() {
    let runs = draw_runs(&vec![5, 5, 7, 5]);
    let got: Vec<(u64, usize, usize)> = runs.iter().map(|r| (r.tex, r.start, r.end)).collect();
    assert_eq!(got, vec![(5, 0, 2), (7, 2, 3), (5, 3, 4)]);
    assert_eq!(grown_capacity(100, 4096), 4096);
    assert_eq!(grown_capacity(5000, 4096), 5000 * 3 / 2 + 512);
}

#[test]
fn hud_follows_the_lines_it_is_bound_to() {
    let mut bound = line(0, 0, vec![]);
    bound.attach_ui = Some("combonumber".to_string());
    assert!(matches!(hud_bind(&vec![bound], "combonumber"), HudBind::Bound(0)));
    assert!(matches!(hud_bind(&vec![line(0, 0, vec![])], "combonumber"), HudBind::Default));
    let lines = vec![line(0, 0, vec![])];
    assert_eq!(score_text(123456), "0123456");
    let texts = hud_texts(&hud(), &lines);
    assert!(texts.iter().any(|t| t.text == "0123456"));
    assert!(texts.iter().any(|t| t.text == "name"));
    assert!(texts.iter().any(|t| t.text == "42"));
    assert!(texts.iter().any(|t| t.anchor == TextAnchor::ComboLabel));
    let mut hidden = hud();
    hidden.visible = false;
    assert!(matches!(pause_button(&hidden, &lines), PauseButton::Hidden));
    assert!(matches!(pause_button(&hud(), &lines), PauseButton::Bars(None)));
    let mut paused = hud();
    paused.paused = true;
    assert!(matches!(pause_button(&paused, &lines), PauseButton::Triangle(None)));
    assert!(matches!(progress_bar(0, &lines), HudBind::Hidden));
    assert!(matches!(progress_bar(0.5f32.to_bits(), &lines), HudBind::Default));
}

#[test]
fn hud_numbers_are_formatted_once() {
    let mut cache = HudCache { value: 0, text: "zero".to_string() };
    assert_eq!(hud_fmt(&mut cache, 0, |v| format!("{v}")), "zero");
    assert_eq!(hud_fmt(&mut cache, 7, |v| format!("{v}")), "7");
    assert_eq!(hud_fmt(&mut cache, 7, |_| "again".to_string()), "7");
}

#[test]
fn surfaces_are_chosen() {
    assert!(is_builtin_texture("note:click"));
    assert!(!is_builtin_texture("line.png"));
    assert!(matches!(present_mode(true, true), PresentMode::AutoVsync));
    assert!(matches!(present_mode(false, true), PresentMode::Mailbox));
    assert!(matches!(present_mode(false, false), PresentMode::AutoNoVsync));
    let f = required_features(false, true, true, false);
    assert!(!f.timestamps && f.texture_compression && !f.pipeline_cache);
    assert_eq!(choose_format(&vec![true, false]), 1);
    assert_eq!(choose_format(&vec![true, true]), 0);
}

#[test]
fn frames_come_back_unpadded() {
    let mut e = PreviewEngine::new(2, 2);
    assert_eq!(e.size(), (2, 2));
    let before = e.slots();
    let mut mapped = vec![0u8; 512];
    for i in 0..8 {
        mapped[i] = i as u8;
        mapped[256 + i] = 10 + i as u8;
    }
    e.render_frame(Some(&mapped));
    assert_eq!(
        e.pixels(),
        &[0, 1, 2, 3, 4, 5, 6, 7, 10, 11, 12, 13, 14, 15, 16, 17]
    );
    assert_ne!(e.slots(), before);
    let mut out = Vec::new();
    e.copy_pixels_to(&mut out);
    assert_eq!(out, e.pixels());
    e.render_frame(None);
    assert_eq!(e.pixels().len(), 16);
    e.resize(3, 1);
    assert_eq!(e.size(), (3, 1));
}

fn fired(line: usize) -> FiredNote {
    FiredNote { line, kind: 1, x: 0.5f32.to_bits(), fake: false, tick: false, hold_tail: false }
}

#[test]
fn sessions_hold_a_chart() {
    let mut s = ChartSession::new(2, 1);
    assert_eq!(s.note_count(), 0);
    assert!(s.music_path().is_none());
    assert!(s.last_fired.is_empty() && s.engine().frame_idx == 0);
    assert_eq!(s.pixels(), &[0u8; 8]);
    assert!(s.render_frame(None, vec![fired(0)]).is_none());
    assert!(s.last_fired.is_empty());
    s.load(LoadedChart {
        dir: "d".to_string(),
        music: "m.mp3".to_string(),
        max_combo: 9,
        line_length: 4.0f32.to_bits(),
    });
    assert_eq!(s.note_count(), 9);
    let p = s.music_path().unwrap();
    assert_eq!((p.dir.as_str(), p.file.as_str()), ("d", "m.mp3"));
    s.set_hud(hud());
    assert!(s.engine().renderer.hud.visible);
    assert_eq!(s.engine().renderer.line_length, 4.0f32.to_bits());
    assert!(s.engine().renderer.post.has_chart_dir);
    let got = s.render_frame(Some(&vec![3u8; 256]), vec![fired(0), fired(1)]).unwrap();
    assert_eq!(got, vec![3u8; 8]);
    assert_eq!(s.pixels(), &[3u8; 8]);
    assert_eq!(s.last_fired, vec![fired(0), fired(1)]);
    let mut out = vec![1u8];
    assert!(s.render_frame_into(None, vec![fired(2)], &mut out));
    assert_eq!(out, vec![3u8; 8]);
    assert_eq!(s.last_fired, vec![fired(2)]);
    assert_eq!(s.note_count(), 9);
    assert_eq!(s.music_path().unwrap().file, "m.mp3");
    assert!(s.engine().renderer.hud.visible);
}

#[test]
fn textures_have_keys() {
    assert_eq!(sprites().len(), 9);
    assert_eq!(sprite_key("click"), "note:click");
    assert_eq!(sprite_key("hit_fx"), "note:hitfx");
    assert_eq!(custom_sprite_key("Tap"), Some("note:click".to_string()));
    assert_eq!(custom_sprite_key("Hold"), Some("note:hold".to_string()));
    assert_eq!(custom_sprite_key("Other"), None);
    let lines = loaded(&["a.png", "", "b.png", "a.png"]);
    assert_eq!(texture_names(&lines), loaded(&["a.png", "b.png"]));
}

#[test]
fn bursts_are_the_same_every_time() {
    let seed = fx_seed_of(1.25f64.to_bits());
    assert_eq!(seed, fx_seed_of(1.25f64.to_bits()));
    assert_ne!(seed, fx_seed_of(1.5f64.to_bits()));
    assert_eq!(
        seed,
        1.25f64.to_bits().wrapping_mul(6364136223846793005).wrapping_add(1442695040888963407)
    );
    assert_ne!(shard_seed(seed, 0), shard_seed(seed, 1));
    assert_eq!(shard_random(seed, 3), shard_random(seed, 3));
    assert_eq!(sheet_cell(0), (0, 0));
    assert_eq!(sheet_cell(HIT_FX_COLS), (0, 1));
    assert_eq!(sheet_cell(HIT_FX_FRAMES - 1), (4, 5));
}

#[test]
fn debug_window_shows_counts() {
    let c = DebugCounts {
        combo: 1,
        hits: 2,
        note_count: 3,
        lines: 4,
        visible_notes: 5,
        fired: 6,
        paused: true,
        window: (7, 8),
    };
    let lines = count_lines(&c);
    assert!(lines.iter().any(|l| l.contains('3')));
    assert_eq!(baseline(1) - baseline(0), ROW_H);
    assert_eq!(baseline(5000), 100_016);
    let glyph = Glyph { x: 0, y: 0, width: 1, height: 1, bitmap: vec![255] };
    assert_ne!(paint(&vec![glyph], 0, 0), paint(&vec![], 0, 0));
}

#[test]
fn order_of_beats_agrees_with_total_order() {
    let values = [
        f64::NEG_INFINITY,
        -2.5,
        -0.0,
        0.0,
        1e-300,
        1.0,
        4.5,
        f64::INFINITY,
        f64::NAN,
        -f64::NAN,
    ];
    for a in values {
        for b in values {
            assert_eq!(
                total_order(a.to_bits()).cmp(&total_order(b.to_bits())),
                a.total_cmp(&b)
            );
        }
    }
    for v in [-1.0f32, -0.0, 0.0, 1.0, f32::NAN, f32::INFINITY, f32::NEG_INFINITY] {
        assert_eq!(is_le_zero32(v.to_bits()), v <= 0.0);
        assert_eq!(is_gt_zero32(v.to_bits()), v > 0.0);
    }
}

#[test]
fn renderers_keep_their_settings() {
    let mut r = Renderer::new(800, 600, true, true, false);
    assert_eq!(r.size(), (800, 600));
    assert!(!r.resize(0, 5));
    assert!(r.resize(640, 480));
    assert_eq!((r.size(), r.post.width, r.post.height), ((640, 480), 640, 480));
    assert!(matches!(r.set_vsync(false), Some(PresentMode::Mailbox)));
    assert!(matches!(r.set_vsync(true), Some(PresentMode::AutoVsync)));
    assert!(!r.compress_enabled());
    for v in [-1.0f32, -0.0, 0.0, 0.25, 1.0, 1.5, f32::INFINITY, f32::NEG_INFINITY] {
        r.set_progress(v.to_bits());
        assert_eq!(r.progress, v.clamp(0.0, 1.0).to_bits(), "{v}");
    }
    r.set_line_length(0);
    assert_eq!(r.line_length, 6.0f32.to_bits());
    r.set_line_length(2.0f32.to_bits());
    assert_eq!(r.line_length, 2.0f32.to_bits());
    assert_eq!(r.playfield_aspect(), 1.5f32.to_bits());
    r.set_playfield_aspect(1.0f32.to_bits());
    assert_eq!(r.playfield_aspect(), 1.0f32.to_bits());
    r.set_frame_fx(vec![FxPoint { t0: 1, x: 2, y: 3 }]);
    assert_eq!(r.frame_fx.len(), 1);
    let mut offscreen = Renderer::new(1, 1, false, true, false);
    assert!(offscreen.set_vsync(false).is_none());
}

fn png_bytes() -> Vec<u8> {
    let img = image::RgbaImage::from_pixel(16, 16, image::Rgba([9, 8, 7, 255]));
    let mut out = std::io::Cursor::new(Vec::new());
    img.write_to(&mut out, image::ImageFormat::Png).unwrap();
    out.into_inner()
}

#[test]
fn chart_textures_go_with_the_chart() {
    let mut r = Renderer::new(8, 8, false, false, true);
    let bytes = png_bytes();
    let t = r.load_texture("line.png", &bytes).ok().unwrap();
    assert!(t.compressed);
    assert_eq!((t.w, t.h), (16, 16));
    assert!(r.load_texture("bad.png", b"no image").is_err());
    r.load_texture_prepared("note:click");
    r.load_texture_prepared("note:click");
    assert_eq!(r.textures, loaded(&["line.png", "note:click"]));
    r.clear_chart_textures();
    assert_eq!(r.textures, loaded(&["note:click"]));
    let b = r.set_background(&bytes, 0.5f32.to_bits()).ok().unwrap();
    assert_eq!((b.orig_w, b.orig_h), (16, 16));
    assert_eq!(r.background, Some((16, 16)));
    assert!(r.set_background(b"no image", 0).is_err());
    assert_eq!(r.background_dim, 0.5f32.to_bits());
    r.clear_background();
    assert_eq!((r.background, r.background_dim), (None, 1.0f32.to_bits()));
    assert_eq!(r.warmup_effects().len(), EFFECT_COUNT);
    let files = ["a.wgsl".to_string(), "b.png".to_string()];
    assert!(r.warmup_custom_effects(&files).is_empty());
    r.post.has_chart_dir = true;
    assert_eq!(r.warmup_custom_effects(&files), vec![0]);
}

#[test]
fn previews_run_one_pass_for_each_effect() {
    let mut e = PreviewEngine::new(4, 4);
    let eval = |name: &str, value: f32| EvalEffect {
        shader_name: name.to_string(),
        priority: 0,
        uniforms_names: vec!["size".to_string()],
        uniforms: vec![value.to_bits()],
    };
    let evals = vec![eval("circleBlur", 0.0), eval("mine.frag", 2.0)];
    e.set_effects_from_extra(&evals, 0, (0, 0));
    let active = &e.renderer().post.active;
    assert_eq!(active.len(), 2);
    assert_eq!(active[0].shader_idx, effect_index("circleBlur").unwrap());
    assert_eq!(active[1].custom_name.as_deref(), Some("mine.frag"));
    assert_eq!(active[1].uniform_values, vec![2.0f32.to_bits()]);
    let mut out = Vec::new();
    assert_eq!(e.pixels_reused(&mut out).len(), 64);
    assert_eq!(out, e.pixels());
    e.set_progress(2.0f32.to_bits());
    assert_eq!(e.renderer().progress, 1.0f32.to_bits());
    assert!(e.load_texture("a", &png_bytes()).is_ok());
    assert!(e.set_background(&png_bytes(), 0).is_ok());
}

#[test]
fn masks_show_lines_in_range_and_their_seen_notes() {
    let note = |alpha: f32| NoteInfo {
        kind: 1,
        above: true,
        multiple_hint: false,
        alpha: alpha.to_bits(),
        has_end: false,
        head_inside: true,
        tail_inside: false,
        body_shown: false,
    };
    let line = |index: usize, pe_hide: bool, ui: Option<&str>| LineInfo {
        index,
        z_order: 0,
        pe_hide,
        alpha: 1.0f32.to_bits(),
        drawn_alpha: 1.0f32.to_bits(),
        attach_ui: ui.map(|s| s.to_string()),
        texture: None,
        notes: vec![note(1.0), note(0.0), note(0.5)],
    };
    let lines = [line(0, false, None), line(1, true, None), line(2, false, Some("bar")), line(3, false, None)];
    let shown = mask_items(&lines, &[false, true, true, true]);
    assert_eq!(shown, vec![(3, None), (3, Some(0)), (3, Some(2))]);
    let all = mask_items(&lines, &[true, true, true, true]);
    assert_eq!(all.len(), 6);
    assert_eq!(all[0], (0, None));
}

#[test]
fn frames_are_drawn_in_passes() {
    let lines = |from, to, first, extras| FramePass::Lines { from, to, first, extras };
    assert_eq!(
        draw_to_view(&None, 7, true, false),
        vec![lines(0, 7, true, true), FramePass::Overlay]
    );
    let chunks = Some(vec![(0, 4), (4, 7)]);
    assert_eq!(
        draw_to_view(&chunks, 7, true, true),
        vec![
            lines(0, 4, true, false),
            lines(4, 7, false, false),
            FramePass::Extras,
            FramePass::Effects,
            FramePass::Present,
            FramePass::Overlay,
        ]
    );
    assert_eq!(draw_to_view(&chunks, 7, false, false).len(), 3);
}

#[test]
fn notes_without_sprites_have_the_colour_of_their_kind() {
    let rgb = |kind: u8| {
        let t = note_color(Part::PlainNote, kind, 0.5f32.to_bits());
        assert_eq!(f32::from_bits(t.alpha), 0.5);
        [t.red, t.green, t.blue].map(f32::from_bits)
    };
    assert_eq!(rgb(1), [0.2, 0.6, 1.0]);
    assert_eq!(rgb(2), [0.3, 0.7, 1.0]);
    assert_eq!(rgb(3), [1.0, 0.3, 0.5]);
    assert_eq!(rgb(4), [1.0, 0.85, 0.2]);
    let sprite = note_color(Part::Sprite, 1, 0);
    assert_eq!([sprite.red, sprite.green, sprite.blue].map(f32::from_bits), [1.0; 3]);
    let mut l = LineInfo {
        index: 0,
        z_order: 0,
        pe_hide: false,
        alpha: 1.0f32.to_bits(),
        drawn_alpha: 1.0f32.to_bits(),
        attach_ui: None,
        texture: None,
        notes: vec![note(3)],
    };
    l.notes[0].alpha = 0.25f32.to_bits();
    let items = build_line_cmds(&[l], &Vec::new());
    assert_eq!(items.len(), 2);
    assert!(items[0].tint.is_none());
    assert_eq!((items[1].part, items[1].tex.is_none()), (Part::PlainNote, true));
    assert_eq!(items[1].tint, Some(note_color(Part::PlainNote, 3, 0.25f32.to_bits())));
}

#[test]
fn slow_frames_are_told_in_red() {
    let color = |ms: f32| {
        let t = frame_tint(ms.to_bits());
        [t.red, t.green, t.blue, t.alpha].map(f32::from_bits)
    };
    let (green, yellow, red) = ([0.63, 0.9, 0.78, 1.0], [1.0, 0.82, 0.35, 1.0], [1.0, 0.35, 0.35, 1.0]);
    for ms in [-60.0, 0.0, 16.7, 25.0, f32::NAN, -f32::NAN] {
        assert_eq!(color(ms), green);
    }
    for ms in [25.01, 50.0] {
        assert_eq!(color(ms), yellow);
    }
    for ms in [50.01, 1000.0, f32::INFINITY] {
        assert_eq!(color(ms), red);
    }
}
