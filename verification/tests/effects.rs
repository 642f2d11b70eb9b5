use phimakor::effects::{
    build_effect_chain, effect_def, effect_defaults, effect_frag, effect_index, effect_is_half_res, effect_key,
    effect_name, effect_stages, is_effect_noop, ActiveEffect, EvalEffect, EFFECT_COUNT,
};

fn effect(shader: &str, vars: Vec<(&str, f64)>) -> EvalEffect {
    let mut sorted = vars;
    sorted.sort_by(|a, b| a.0.cmp(b.0));
    EvalEffect {
        shader_name: shader.to_string(),
        priority: 0,
        uniforms_names: sorted.iter().map(|p| p.0.to_string()).collect(),
        uniforms: sorted.iter().map(|p| (p.1 as f32).to_bits()).collect(),
    }
}

fn bits(v: f32) -> u32 {
    v.to_bits()
}

#[test]
fn builtin_uniforms_merged_and_injected() {
    let extra = vec![effect("grayscale", vec![("factor", 0.7), ("time", 3.5)])];
    let chain = build_effect_chain(&extra, bits(10.0), (bits(1920.0), bits(1080.0)));
    assert_eq!(chain.len(), 1);
    let fx = &chain[0];
    assert_ne!(fx.shader_idx, usize::MAX);
    let factor = f32::from_bits(fx.uniform_values[0]);
    assert!((factor - 0.7).abs() < 1e-6);
    let defs = effect_defaults(fx.shader_idx);
    if let Some(pos) = defs.iter().position(|u| u.name == "time") {
        assert!((f32::from_bits(fx.uniform_values[pos]) - 10.0).abs() < 1e-6);
    }
}

#[test]
fn names_of_uniforms_ignore_case_and_hyphens() {
    let screen = (bits(1920.0), bits(1080.0));
    let plain = build_effect_chain(&vec![effect("grayscale", vec![("factor", 0.7)])], 0, screen);
    for name in ["FACTOR", "Fac_Tor", "fac-tor"] {
        let other = build_effect_chain(&vec![effect("grayscale", vec![(name, 0.7)])], 0, screen);
        assert_eq!(other[0].uniform_values, plain[0].uniform_values);
    }
    let missed = build_effect_chain(&vec![effect("grayscale", vec![("factors", 0.7)])], 0, screen);
    assert_ne!(missed[0].uniform_values, plain[0].uniform_values);
}

#[test]
fn time_and_screen_are_injected() {
    for i in 0..EFFECT_COUNT {
        let defs = effect_defaults(i);
        if let Some(pos) = defs.iter().position(|u| u.name == "time") {
            let extra = vec![effect(effect_name(i), vec![("time", 3.5)])];
            let chain = build_effect_chain(&extra, bits(10.0), (bits(1920.0), bits(1080.0)));
            for fx in &chain {
                if fx.shader_idx == i {
                    assert_eq!(fx.uniform_values[pos], bits(10.0));
                }
            }
        }
    }
}

#[test]
fn custom_shader_uses_raw_uniforms() {
    let extra = vec![effect("custom.frag", vec![("foo", 1.5), ("bar", 2.5)])];
    let chain = build_effect_chain(&extra, bits(0.0), (bits(0.0), bits(0.0)));
    assert_eq!(chain.len(), 1);
    let fx = &chain[0];
    assert_eq!(fx.shader_idx, usize::MAX);
    assert_eq!(fx.custom_name.as_deref(), Some("custom.frag"));
    assert_eq!(fx.uniform_values, vec![bits(2.5), bits(1.5)]);
    assert_eq!(fx.uniform_count, 2);
    assert_eq!(effect_key(fx), "custom.frag");
}

#[test]
fn priority_order_preserved() {
    let mut a = effect("grayscale", vec![]);
    a.priority = 10;
    let mut b = effect("vignette", vec![]);
    b.priority = 2;
    let chain = build_effect_chain(&vec![a, b], bits(0.0), (bits(0.0), bits(0.0)));
    assert_eq!(chain.len(), 2);
    assert!(chain[0].priority <= chain[1].priority, "sorted by priority");
    assert_eq!(effect_key(&chain[0]), "vignette");
    assert_eq!(effect_key(&chain[1]), "grayscale");
}

#[test]
fn equal_priorities_keep_their_order() {
    let a = effect("vignette", vec![]);
    let b = effect("grayscale", vec![]);
    let chain = build_effect_chain(&vec![a, b], bits(0.0), (bits(0.0), bits(0.0)));
    assert_eq!(effect_key(&chain[0]), "vignette");
    assert_eq!(effect_key(&chain[1]), "grayscale");
}

#[test]
fn composite_circle_blur_expands_to_two_passes() {
    let extra = vec![effect("circleBlur", vec![("size", 12.0)])];
    let chain = build_effect_chain(&extra, bits(0.0), (bits(1920.0), bits(1080.0)));
    assert_eq!(chain.len(), 2);
    let names: Vec<&str> = chain
        .iter()
        .map(|fx| if fx.shader_idx == usize::MAX { "custom" } else { effect_name(fx.shader_idx) })
        .collect();
    assert_eq!(names, vec!["circleBlurH", "circleBlurV"]);
    for fx in &chain {
        assert!((f32::from_bits(fx.uniform_values[0]) - 12.0).abs() < 1e-6);
    }
}

#[test]
fn composite_zero_size_skipped_before_expansion() {
    let extra = vec![effect("circleBlur", vec![("size", 0.0)])];
    let chain = build_effect_chain(&extra, bits(0.0), (bits(0.0), bits(0.0)));
    assert!(chain.is_empty());
}

#[test]
fn strength_is_found_whatever_the_case_of_its_name() {
    for name in ["factor", "FACTOR", "Fac_Tor", "fac-tor"] {
        let extra = vec![effect("grayscale", vec![(name, 0.0)])];
        let chain = build_effect_chain(&extra, bits(0.0), (bits(0.0), bits(0.0)));
        assert!(chain.is_empty(), "{name}");
    }
    let extra = vec![effect("GrayScale", vec![("factor", 0.0)])];
    let chain = build_effect_chain(&extra, bits(0.0), (bits(0.0), bits(0.0)));
    assert_eq!(chain.len(), 1);
    assert_eq!(chain[0].custom_name.as_deref(), Some("GrayScale"));
}

fn fx(name: &str, vals: &[f32]) -> ActiveEffect {
    ActiveEffect {
        shader_idx: effect_index(name).unwrap(),
        custom_name: None,
        priority: 0,
        uniform_values: vals.iter().map(|v| v.to_bits()).collect(),
        uniform_count: vals.len(),
    }
}

#[test]
fn noop_detection() {
    assert!(is_effect_noop(&fx("grayscale", &[0.0])));
    assert!(!is_effect_noop(&fx("grayscale", &[0.5])));
    assert!(is_effect_noop(&fx("chromatic", &[0.0, 3.0, 0.0, 0.0])));
    assert!(is_effect_noop(&fx("vignette", &[0.0, 0.0, 0.0, 0.0, 0.25, 15.0])));
    assert!(!is_effect_noop(&fx("vignette", &[0.0, 0.0, 0.0, 1.0, 0.25, 15.0])));
    let custom = ActiveEffect {
        shader_idx: usize::MAX,
        custom_name: Some("x.frag".into()),
        priority: 0,
        uniform_values: vec![0.0f32.to_bits()],
        uniform_count: 1,
    };
    assert!(!is_effect_noop(&custom));
}

#[test]
fn every_effect_has_a_name_of_its_own_and_a_shader() {
    for i in 0..EFFECT_COUNT {
        assert_eq!(effect_index(effect_name(i)), Some(i));
        if effect_stages(i).is_empty() {
            assert!(effect_frag(i).contains("fn fs_main"));
        }
    }
    assert_eq!(effect_index("no such effect"), None);
    assert_eq!(effect_name(EFFECT_COUNT), "");
}

#[test]
fn effects_without_pixel_sizes_run_at_half_resolution() {
    for name in ["glitch", "chromatic", "noise", "radialBlur", "grayscale", "vignette"] {
        assert!(effect_is_half_res(name), "{name}");
    }
    assert!(!effect_is_half_res("circleBlurH"));
    assert!(!effect_is_half_res("pixel"));
}

#[test]
fn definitions_hold_what_the_lists_hold() {
    for i in 0..EFFECT_COUNT {
        let d = effect_def(i).unwrap();
        assert_eq!((d.name.as_str(), d.frag.as_str()), (effect_name(i), effect_frag(i)));
        assert_eq!(d.defaults.len(), effect_defaults(i).len());
        assert_eq!(d.stages, effect_stages(i));
    }
    assert_eq!(effect_def(0).unwrap().name, "grayscale");
    assert!(effect_def(EFFECT_COUNT).is_none());
}
