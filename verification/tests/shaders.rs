use phimakor::effects::{effect_index, effect_name, ActiveEffect, EFFECT_COUNT};
use phimakor::glsl::{
    build_glsl, glsl_for_glslang, is_glsl_source, link_stages, std140_layout, uniforms_fit, GlslError,
    GLSL_VERT,
};
use phimakor::post::{
    glsl_writes, holds, plan_passes, relative_name, uniform_data, PostPipe, SrcTag, Step, Want,
    UNIFORM_SIZE,
};

const PLAIN: &str = "#version 100
precision mediump float;
varying vec2 v_uv;
void main() {
    vec3 c = vec3(v_uv.x, v_uv.y, 1.0 - v_uv.x);
    gl_FragColor = vec4(c, 1.0);
}
";

const WITH_TEX: &str = "#version 100
precision mediump float;
uniform sampler2D u_tex;
uniform float time;
uniform float power;
varying vec2 v_uv;
void main() {
    vec4 color = texture2D(u_tex, v_uv);
    gl_FragColor = color + vec4(vec3(power), 0.0);
}
";

#[test]
fn glsl_es100_fragment_compiles_via_glslang() {
    let c = glsl_for_glslang(PLAIN);
    let (converted, count) = (c.source, c.uniform_count);
    assert_eq!(count, 0);
    assert!(converted.starts_with("#version 450"));
    assert!(converted.contains("in vec2 v_uv"));
    assert!(!converted.contains("precision"));
    assert!(converted.contains("layout(location = 0) out vec4 fragColor_out"));
    let compiler = glslang::Compiler::acquire().unwrap();
    let compile = |src: String, stage: glslang::ShaderStage| {
        let source = glslang::ShaderSource::from(src);
        let input = glslang::ShaderInput::new(
            &source,
            stage,
            &glslang::CompilerOptions::default(),
            None::<&[(&str, Option<&str>)]>,
            None,
        )
        .unwrap();
        compiler.create_shader(input).unwrap().compile().unwrap()
    };
    let _ = compile(converted, glslang::ShaderStage::Fragment);
    let _ = compile(GLSL_VERT.to_string(), glslang::ShaderStage::Vertex);
    let c = glsl_for_glslang(WITH_TEX);
    let (converted, count, layout) = (c.source, c.uniform_count, c.layout);
    assert_eq!(count, 1);
    assert_eq!(layout, vec![(0, 4), (4, 4)]);
    assert!(converted.contains("layout(binding = 0) uniform texture2D u_tex"));
    assert!(converted.contains("layout(binding = 1) uniform sampler u_tex_smp"));
    assert!(converted.contains("layout(binding = 2) uniform Params"));
    assert!(converted.contains("    float time;"));
    assert!(converted.contains("    float power;"));
    assert!(converted.contains("texture(sampler2D(u_tex, u_tex_smp), v_uv)"));
    let _ = compile(converted, glslang::ShaderStage::Fragment);
}

#[test]
fn programs_are_built_from_both_stages() {
    let p = match build_glsl(WITH_TEX) {
        Ok(p) => p,
        Err(_) => panic!("a valid shader"),
    };
    assert_eq!(p.vertex[0], 0x0723_0203);
    assert_eq!(p.fragment[0], 0x0723_0203);
    assert_eq!(p.uniform_count, 1);
    assert_eq!(p.layout, vec![(0, 4), (4, 4)]);
    assert!(matches!(build_glsl("#version 100\nvoid main() { nonsense }\n"), Err(GlslError::Fragment)));
    assert!(uniforms_fit(WITH_TEX));
    assert!(matches!(link_stages(None, Some(vec![1])), Err(GlslError::Vertex)));
    assert!(matches!(link_stages(Some(vec![1]), None), Err(GlslError::Fragment)));
    assert_eq!(link_stages(Some(vec![1]), Some(vec![2])), Ok((vec![1], vec![2])));
}

#[test]
fn glsl_is_told_from_wgsl() {
    assert!(is_glsl_source("#version 100\nvoid main() {}"));
    assert!(is_glsl_source("precision mediump float;\nvoid main() { gl_FragColor = vec4(1.0); }"));
    assert!(!is_glsl_source("@fragment\nfn fs_main() -> @location(0) vec4f { return vec4f(1.0); }"));
}

#[test]
fn std140_sizes_and_alignments() {
    assert_eq!(std140_layout("float"), (4, 4));
    assert_eq!(std140_layout("vec2"), (8, 8));
    assert_eq!(std140_layout(" vec3 "), (16, 12));
    for t in ["ivec3", "uvec3", "bvec3"] {
        assert_eq!(std140_layout(t), (16, 12));
    }
    assert_eq!(std140_layout("vec4"), (16, 16));
}

#[test]
fn mixed_uniforms_are_aligned() {
    let c = glsl_for_glslang(
        "#version 100\nuniform float a;\nuniform vec2 b;\nuniform vec3 c;\nuniform float d;\nvoid main() { gl_FragColor = vec4(a); }\n",
    );
    assert_eq!(c.layout.len(), 4);
    for i in 1..c.layout.len() {
        assert!(c.layout[i].0 >= c.layout[i - 1].0 + c.layout[i - 1].1);
    }
    assert_eq!(c.layout[0], (0, 4));
    assert_eq!(c.layout[1].0 % 8, 0);
    assert_eq!(c.layout[2].0 % 16, 0);
    assert_eq!(c.layout, vec![(0, 4), (8, 8), (16, 12), (28, 4)]);
}

fn builtin(name: &str) -> ActiveEffect {
    ActiveEffect {
        shader_idx: effect_index(name).unwrap(),
        custom_name: None,
        priority: 0,
        uniform_values: vec![1.0f32.to_bits(); 8],
        uniform_count: 8,
    }
}

fn custom(name: &str) -> ActiveEffect {
    ActiveEffect {
        shader_idx: usize::MAX,
        custom_name: Some(name.to_string()),
        priority: 0,
        uniform_values: vec![],
        uniform_count: 0,
    }
}

#[test]
fn passes_follow_each_other() {
    let steps = vec![
        Step { effect: 0, half: false, ready: true },
        Step { effect: 1, half: true, ready: true },
        Step { effect: 2, half: true, ready: true },
        Step { effect: 3, half: false, ready: true },
    ];
    let (passes, out) = plan_passes(&steps);
    assert_eq!(passes[0].src, SrcTag::Scene);
    for i in 1..passes.len() {
        assert_eq!(passes[i].src, passes[i - 1].dst);
    }
    let ran: Vec<usize> = passes.iter().filter_map(|p| p.effect).collect();
    assert_eq!(ran, vec![0, 1, 2, 3]);
    assert_eq!(passes[passes.len() - 1].dst, SrcTag::Full(out));
}

#[test]
fn effects_without_a_pipeline_are_left_out() {
    let mut post = PostPipe::new(800, 600);
    post.active = vec![builtin("grayscale"), builtin("vignette")];
    assert!(post.ensure_effect("grayscale"));
    post.builtin_built("grayscale", true);
    assert!(!post.ensure_effect("grayscale"));
    let ran: Vec<usize> = post.apply().iter().filter_map(|p| p.effect).collect();
    assert_eq!(ran, vec![0]);
    post.builtin_built("vignette", true);
    let ran: Vec<usize> = post.apply().iter().filter_map(|p| p.effect).collect();
    assert_eq!(ran, vec![0, 1]);
}

#[test]
fn failed_custom_effects_are_not_tried_again() {
    let mut post = PostPipe::new(800, 600);
    post.has_chart_dir = true;
    assert_eq!(post.ensure_custom_effect("/fx/../a.frag"), Some(relative_name("/fx/../a.frag")));
    assert!(matches!(post.want(&custom("a.frag")), Some(Want::Custom { name, .. }) if name == "a.frag"));
    post.custom_built("a.frag", false);
    assert_eq!(post.ensure_custom_effect("a.frag"), None);
    assert!(post.want(&custom("a.frag")).is_none());
    assert!(holds(&post.failed_custom, "a.frag"));
}

#[test]
fn leading_separators_are_taken_off_custom_names() {
    assert_eq!(relative_name("/a.frag"), "a.frag");
    assert_eq!(relative_name("\\/fx/a.frag"), "fx/a.frag");
    assert_eq!(relative_name("a.frag"), "a.frag");
}

#[test]
fn warmup_goes_through_all_effects() {
    let mut post = PostPipe::new(1, 1);
    post.start_warmup();
    let mut built: Vec<usize> = Vec::new();
    loop {
        let (some, done) = post.tick_warmup(3);
        assert!(some.len() <= 3);
        for i in &some {
            post.builtin_built(effect_name(*i), true);
        }
        built.extend(some);
        if done {
            break;
        }
    }
    built.sort();
    built.dedup();
    assert_eq!(built.len(), EFFECT_COUNT);
}

#[test]
fn targets_have_a_half_size() {
    let mut post = PostPipe::new(801, 3);
    assert_eq!(post.half_size(), (400, 1));
    post.resize(1, 1);
    assert_eq!(post.half_size(), (1, 1));
}

#[test]
fn uniforms_fill_their_block() {
    let data = uniform_data(&vec![1.0f32.to_bits(), 2.0f32.to_bits()]);
    assert_eq!(data.len(), UNIFORM_SIZE);
    assert_eq!(&data[0..4], &1.0f32.to_le_bytes());
    assert!(data[4..].iter().any(|&b| b != 0));
    assert!(uniform_data(&vec![]).iter().all(|&b| b == 0));
    let writes = glsl_writes(&vec![1.0f32.to_bits(), 2.0f32.to_bits()], &vec![(0, 4), (16, 4)]);
    assert_eq!(writes.len(), 2);
    assert_eq!(writes[0].offset, 0);
    assert_eq!(writes[0].bytes, 1.0f32.to_le_bytes().to_vec());
    assert_eq!(writes[1].offset, 16);
    assert_eq!(writes[1].bytes, 2.0f32.to_le_bytes().to_vec());
}

#[test]
fn shaders_of_a_chart_are_built_ahead() {
    let mut post = PostPipe::new(8, 8);
    let files: Vec<String> =
        ["a.wgsl", "b.frag", ".wgsl", "c.wgsl"].iter().map(|s| s.to_string()).collect();
    assert!(post.warmup_custom(&files).is_empty());
    post.has_chart_dir = true;
    assert_eq!(post.warmup_custom(&files), vec![0, 3]);
    post.custom_built("a.wgsl", true);
    assert_eq!(post.warmup_custom(&files), vec![3]);
}
