//! The chain of post-processing effects of a frame.
//!
//! Uniform values are single-precision numbers held as their IEEE 754 bits.

use vstd::prelude::*;

use crate::order::{stable_order, stably_ordered};
use crate::shaders::{
    CHROMATIC_FRAG, CIRCLE_BLUR_FRAG, CIRCLE_BLUR_H_FRAG, CIRCLE_BLUR_V_FRAG, FISHEYE_FRAG,
    GLITCH_FRAG, GRAYSCALE_FRAG, NOISE_FRAG, PIXELATE_FRAG, RADIAL_BLUR_FRAG, RAINBOW_FRAG,
    SHOCKWAVE_FRAG, VIGNETTE_FRAG,
};
use crate::strings::{
    ascii_lower, chars_of, contains, ends, ends_with, occurs, part, same, stands_at, string_of,
    texts,
};

verus! {

/// A uniform with its value.
pub struct Uniform {
    pub name: String,
    pub value: u32,
}

/// Names and values of uniforms.
pub open spec fn uniforms_view(v: Seq<Uniform>) -> Seq<(Seq<char>, u32)> {
    v.map_values(|u: Uniform| (u.name@, u.value))
}

fn uniform(name: &'static str, value: u32) -> (r: Uniform)
    ensures
        r.name@ == name@,
        r.value == value,
{
    Uniform { name: name.to_owned(), value }
}

/// The number of built-in effects.
pub const EFFECT_COUNT: usize = 13;

/// The name of built-in effect `i`.
pub open spec fn name_of(i: int) -> Seq<char> {
    if i == 0 {
        "grayscale"@
    } else if i == 1 {
        "chromatic"@
    } else if i == 2 {
        "glitch"@
    } else if i == 3 {
        "vignette"@
    } else if i == 4 {
        "fisheye"@
    } else if i == 5 {
        "shockwave"@
    } else if i == 6 {
        "circleBlur"@
    } else if i == 7 {
        "radialBlur"@
    } else if i == 8 {
        "pixel"@
    } else if i == 9 {
        "noise"@
    } else if i == 10 {
        "rainbow"@
    } else if i == 11 {
        "circleBlurH"@
    } else if i == 12 {
        "circleBlurV"@
    } else {
        Seq::empty()
    }
}

/// The uniforms of built-in effect `i`: names and default values.
pub open spec fn defaults_of(i: int) -> Seq<(Seq<char>, u32)> {
    if i == 0 {
        seq![("factor"@, 0x3F800000u32)]
    } else if i == 1 {
        seq![("power"@, 0x3C23D70Au32), ("sample_count"@, 0x40400000u32), ("screen_size_x"@,
            0x00000000u32), ("screen_size_y"@, 0x00000000u32)]
    } else if i == 2 {
        seq![("power"@, 0x3CF5C28Fu32), ("time"@, 0x00000000u32), ("rate"@, 0x3F19999Au32),
            ("speed"@, 0x40A00000u32), ("block_count"@, 0x41F40000u32), ("color_rate"@,
            0x3C23D70Au32)]
    } else if i == 3 {
        seq![("color_r"@, 0x00000000u32), ("color_g"@, 0x00000000u32), ("color_b"@,
            0x00000000u32), ("color_a"@, 0x3F800000u32), ("extend"@, 0x3E800000u32), ("radius"@,
            0x41700000u32)]
    } else if i == 4 {
        seq![("power"@, 0xBDCCCCCDu32), ("aspect"@, 0x3F800000u32)]
    } else if i == 5 {
        seq![("progress"@, 0x3E4CCCCDu32), ("_pad"@, 0x00000000u32), ("center_x"@, 0x3F000000u32),
            ("center_y"@, 0x3F000000u32), ("width"@, 0x3DCCCCCDu32), ("distortion"@,
            0x3F4CCCCDu32), ("expand"@, 0x41200000u32), ("_pad2"@, 0x00000000u32),
            ("screen_size_x"@, 0x00000000u32), ("screen_size_y"@, 0x00000000u32)]
    } else if i == 6 {
        seq![("size"@, 0x41200000u32), ("_pad"@, 0x00000000u32), ("screen_size_x"@,
            0x00000000u32), ("screen_size_y"@, 0x00000000u32)]
    } else if i == 7 {
        seq![("power"@, 0x3C23D70Au32), ("sample_count"@, 0x40C00000u32), ("center_x"@,
            0x3F000000u32), ("center_y"@, 0x3F000000u32)]
    } else if i == 8 {
        seq![("size"@, 0x41200000u32), ("_pad"@, 0x00000000u32), ("screen_size_x"@,
            0x00000000u32), ("screen_size_y"@, 0x00000000u32)]
    } else if i == 9 {
        seq![("seed"@, 0x42A20000u32), ("power"@, 0x3CF5C28Fu32)]
    } else if i == 10 {
        seq![("time"@, 0x00000000u32)]
    } else if i == 11 {
        seq![("size"@, 0x41200000u32), ("_pad"@, 0x00000000u32), ("screen_size_x"@,
            0x00000000u32), ("screen_size_y"@, 0x00000000u32)]
    } else if i == 12 {
        seq![("size"@, 0x41200000u32), ("_pad"@, 0x00000000u32), ("screen_size_x"@,
            0x00000000u32), ("screen_size_y"@, 0x00000000u32)]
    } else {
        Seq::empty()
    }
}

/// The effects that built-in effect `i` is made of, where it is a composite.
pub open spec fn stages_of(i: int) -> Seq<Seq<char>> {
    if i == 6 {
        seq!["circleBlurH"@, "circleBlurV"@]
    } else {
        Seq::empty()
    }
}

/// The name of a built-in effect; empty where there is none of that index.
pub fn effect_name(i: usize) -> (r: &'static str)
    ensures
        r@ == name_of(i as int),
{
    proof {
        reveal_strlit("");
        assert(""@ == Seq::<char>::empty());
    }
    if i == 0 {
        "grayscale"
    } else if i == 1 {
        "chromatic"
    } else if i == 2 {
        "glitch"
    } else if i == 3 {
        "vignette"
    } else if i == 4 {
        "fisheye"
    } else if i == 5 {
        "shockwave"
    } else if i == 6 {
        "circleBlur"
    } else if i == 7 {
        "radialBlur"
    } else if i == 8 {
        "pixel"
    } else if i == 9 {
        "noise"
    } else if i == 10 {
        "rainbow"
    } else if i == 11 {
        "circleBlurH"
    } else if i == 12 {
        "circleBlurV"
    } else {
        ""
    }
}

/// The WGSL fragment shader of a built-in effect; empty where there is none of that index.
pub fn effect_frag(i: usize) -> (r: &'static str)
    ensures
        r@ == frag_of(i as int),
{
    proof {
        reveal_strlit("");
        assert(""@ == Seq::<char>::empty());
    }
    if i == 0 {
        GRAYSCALE_FRAG
    } else if i == 1 {
        CHROMATIC_FRAG
    } else if i == 2 {
        GLITCH_FRAG
    } else if i == 3 {
        VIGNETTE_FRAG
    } else if i == 4 {
        FISHEYE_FRAG
    } else if i == 5 {
        SHOCKWAVE_FRAG
    } else if i == 6 {
        CIRCLE_BLUR_FRAG
    } else if i == 7 {
        RADIAL_BLUR_FRAG
    } else if i == 8 {
        PIXELATE_FRAG
    } else if i == 9 {
        NOISE_FRAG
    } else if i == 10 {
        RAINBOW_FRAG
    } else if i == 11 {
        CIRCLE_BLUR_H_FRAG
    } else if i == 12 {
        CIRCLE_BLUR_V_FRAG
    } else {
        ""
    }
}

/// The WGSL fragment shader of built-in effect `i`.
pub open spec fn frag_of(i: int) -> Seq<char> {
    if i == 0 {
        GRAYSCALE_FRAG@
    } else if i == 1 {
        CHROMATIC_FRAG@
    } else if i == 2 {
        GLITCH_FRAG@
    } else if i == 3 {
        VIGNETTE_FRAG@
    } else if i == 4 {
        FISHEYE_FRAG@
    } else if i == 5 {
        SHOCKWAVE_FRAG@
    } else if i == 6 {
        CIRCLE_BLUR_FRAG@
    } else if i == 7 {
        RADIAL_BLUR_FRAG@
    } else if i == 8 {
        PIXELATE_FRAG@
    } else if i == 9 {
        NOISE_FRAG@
    } else if i == 10 {
        RAINBOW_FRAG@
    } else if i == 11 {
        CIRCLE_BLUR_H_FRAG@
    } else if i == 12 {
        CIRCLE_BLUR_V_FRAG@
    } else {
        Seq::empty()
    }
}

/// The uniforms of a built-in effect.
pub fn effect_defaults(i: usize) -> (r: Vec<Uniform>)
    ensures
        uniforms_view(r@) == defaults_of(i as int),
{
    let r: Vec<Uniform> = if i == 0 {
        vec![uniform("factor", 0x3F800000)]
    } else if i == 1 {
        vec![uniform("power", 0x3C23D70A), uniform("sample_count", 0x40400000),
            uniform("screen_size_x", 0x00000000), uniform("screen_size_y", 0x00000000)]
    } else if i == 2 {
        vec![uniform("power", 0x3CF5C28F), uniform("time", 0x00000000), uniform("rate",
            0x3F19999A), uniform("speed", 0x40A00000), uniform("block_count", 0x41F40000),
            uniform("color_rate", 0x3C23D70A)]
    } else if i == 3 {
        vec![uniform("color_r", 0x00000000), uniform("color_g", 0x00000000), uniform("color_b",
            0x00000000), uniform("color_a", 0x3F800000), uniform("extend", 0x3E800000),
            uniform("radius", 0x41700000)]
    } else if i == 4 {
        vec![uniform("power", 0xBDCCCCCD), uniform("aspect", 0x3F800000)]
    } else if i == 5 {
        vec![uniform("progress", 0x3E4CCCCD), uniform("_pad", 0x00000000), uniform("center_x",
            0x3F000000), uniform("center_y", 0x3F000000), uniform("width", 0x3DCCCCCD),
            uniform("distortion", 0x3F4CCCCD), uniform("expand", 0x41200000), uniform("_pad2",
            0x00000000), uniform("screen_size_x", 0x00000000), uniform("screen_size_y",
            0x00000000)]
    } else if i == 6 {
        vec![uniform("size", 0x41200000), uniform("_pad", 0x00000000), uniform("screen_size_x",
            0x00000000), uniform("screen_size_y", 0x00000000)]
    } else if i == 7 {
        vec![uniform("power", 0x3C23D70A), uniform("sample_count", 0x40C00000),
            uniform("center_x", 0x3F000000), uniform("center_y", 0x3F000000)]
    } else if i == 8 {
        vec![uniform("size", 0x41200000), uniform("_pad", 0x00000000), uniform("screen_size_x",
            0x00000000), uniform("screen_size_y", 0x00000000)]
    } else if i == 9 {
        vec![uniform("seed", 0x42A20000), uniform("power", 0x3CF5C28F)]
    } else if i == 10 {
        vec![uniform("time", 0x00000000)]
    } else if i == 11 {
        vec![uniform("size", 0x41200000), uniform("_pad", 0x00000000), uniform("screen_size_x",
            0x00000000), uniform("screen_size_y", 0x00000000)]
    } else if i == 12 {
        vec![uniform("size", 0x41200000), uniform("_pad", 0x00000000), uniform("screen_size_x",
            0x00000000), uniform("screen_size_y", 0x00000000)]
    } else {
        Vec::new()
    };
    proof {
        assert(uniforms_view(r@) == defaults_of(i as int));
    }
    r
}

/// A built-in effect.
pub struct EffectDef {
    pub name: String,
    pub frag: String,
    pub defaults: Vec<Uniform>,
    pub stages: Vec<String>,
}

/// The built-in effect of an index.
pub fn effect_def(i: usize) -> (r: Option<EffectDef>)
    ensures
        match r {
            Some(d) => {
                &&& i < EFFECT_COUNT
                &&& d.name@ == name_of(i as int)
                &&& d.frag@ == frag_of(i as int)
                &&& uniforms_view(d.defaults@) == defaults_of(i as int)
                &&& texts(d.stages@) == stages_of(i as int)
            },
            None => i >= EFFECT_COUNT,
        },
{
    if i >= EFFECT_COUNT {
        return None;
    }
    Some(
        EffectDef {
            name: effect_name(i).to_owned(),
            frag: effect_frag(i).to_owned(),
            defaults: effect_defaults(i),
            stages: effect_stages(i),
        },
    )
}

/// The effects that a built-in effect is made of.
pub fn effect_stages(i: usize) -> (r: Vec<String>)
    ensures
        texts(r@) == stages_of(i as int),
{
    let r: Vec<String> = if i == 6 {
        vec!["circleBlurH".to_owned(), "circleBlurV".to_owned()]
    } else {
        Vec::new()
    };
    proof {
        assert(texts(r@) == stages_of(i as int));
    }
    r
}

/// The index of the first built-in effect of a name, from `from` on.
pub open spec fn index_of(name: Seq<char>, from: int) -> Option<int>
    decreases EFFECT_COUNT - from,
{
    if from >= EFFECT_COUNT {
        None
    } else if name_of(from) == name {
        Some(from)
    } else {
        index_of(name, from + 1)
    }
}

/// Finds a built-in effect by its name.
pub fn effect_index(name: &str) -> (r: Option<usize>)
    ensures
        match r {
            Some(i) => i < EFFECT_COUNT && index_of(name@, 0) == Some(i as int),
            None => index_of(name@, 0) is None,
        },
{
    let mut i: usize = 0;
    while i < EFFECT_COUNT
        invariant
            i <= EFFECT_COUNT,
            index_of(name@, i as int) == index_of(name@, 0),
        decreases EFFECT_COUNT - i,
    {
        if same(effect_name(i), name) {
            return Some(i);
        }
        i = i + 1;
    }
    None
}

/// Whether the bits are those of a zero, of either sign.
pub open spec fn is_zero(bits: u32) -> bool {
    bits == 0 || bits == 0x8000_0000
}

/// The lower case of a text.
pub uninterp spec fn lowercase(s: Seq<char>) -> Seq<char>;

/// Whether a text is ASCII.
pub open spec fn is_plain(s: Seq<char>) -> bool {
    forall|i: int| 0 <= i < s.len() ==> (#[trigger] s[i] as u32) < 128
}

/// `str::to_lowercase` of std, by the Unicode property Lowercase. Stated of ASCII texts, where it
/// is the lower case of each letter; else only named.
#[verifier::external_body]
fn to_lowercase(s: &str) -> (r: String)
    ensures
        r@ == lowercase(s@),
        is_plain(s@) ==> r@ == ascii_lower(s@),
{
    s.to_lowercase()
}

/// A text without underscores and hyphens.
pub open spec fn unhyphened(s: Seq<char>) -> Seq<char>
    decreases s.len(),
{
    if s.len() == 0 {
        s
    } else if s.last() == '_' || s.last() == '-' {
        unhyphened(s.drop_last())
    } else {
        unhyphened(s.drop_last()).push(s.last())
    }
}

/// A text in lower case: that of each letter where it is ASCII.
pub open spec fn lowered(s: Seq<char>) -> Seq<char> {
    if is_plain(s) {
        ascii_lower(s)
    } else {
        lowercase(s)
    }
}

/// The form in which names of uniforms are compared: lower case, without `_` and `-`.
pub open spec fn norm(s: Seq<char>) -> Seq<char> {
    unhyphened(lowered(s))
}

/// Law: a name of a uniform in ASCII is found under any other that differs in the case of letters only.
pub proof fn law_names_ignore_case(names: Seq<Seq<char>>, a: Seq<char>, b: Seq<char>)
    requires
        is_plain(a),
        is_plain(b),
        ascii_lower(a) == ascii_lower(b),
    ensures
        norm(a) == norm(b),
        named(names, norm(a), 0) == named(names, norm(b), 0),
        named(names.push(a), norm(b), names.len() as int) == Some(names.len() as int),
{
}

fn without_hyphens(s: &str) -> (r: String)
    ensures
        r@ == unhyphened(s@),
{
    let v: Vec<char> = chars_of(s);
    let mut out: String = String::new();
    let mut i: usize = 0;
    proof {
        assert(v@.take(0).len() == 0);
        assert(out@ == unhyphened(v@.take(0)));
    }
    while i < v.len()
        invariant
            v@ == s@,
            i <= v.len(),
            out@ == unhyphened(v@.take(i as int)),
        decreases v.len() - i,
    {
        let c: char = v[i];
        proof {
            assert(v@.take(i + 1).drop_last() == v@.take(i as int));
            assert(v@.take(i + 1).last() == c);
        }
        if c != '_' && c != '-' {
            out.push(c);
        }
        i = i + 1;
    }
    proof {
        assert(v@.take(v@.len() as int) == v@);
    }
    out
}

fn normed(s: &str) -> (r: String)
    ensures
        r@ == norm(s@),
{
    let low: String = to_lowercase(s);
    without_hyphens(low.as_str())
}

/// `s` without the suffix `p`, as often as it ends with it.
pub open spec fn without_suffix(s: Seq<char>, p: Seq<char>) -> Seq<char>
    decreases s.len(),
{
    if 0 < p.len() && ends(s, p) {
        without_suffix(s.take(s.len() - p.len()), p)
    } else {
        s
    }
}

fn strip_suffix(s: &str, p: &str) -> (r: String)
    ensures
        r@ == without_suffix(s@, p@),
{
    let mut cur: String = s.to_owned();
    let q: Vec<char> = chars_of(p);
    let mut n: usize = chars_of(s).len();
    if q.len() == 0 {
        return cur;
    }
    while ends_with(cur.as_str(), p)
        invariant
            q@ == p@,
            p@.len() > 0,
            n == cur@.len(),
            without_suffix(cur@, p@) == without_suffix(s@, p@),
        decreases n,
    {
        let v: Vec<char> = chars_of(cur.as_str());
        let cut: Vec<char> = part(&v, 0, v.len() - q.len());
        proof {
            assert(cut@ == cur@.take(cur@.len() - p@.len()));
        }
        n = cut.len();
        cur = string_of(&cut);
    }
    cur
}

/// The name of a uniform without the mark of its channel.
pub open spec fn base_of(name: Seq<char>) -> Seq<char> {
    without_suffix(
        without_suffix(
            without_suffix(
                without_suffix(without_suffix(without_suffix(name, "_r"@), "_g"@), "_b"@),
                "_a"@,
            ),
            "_x"@,
        ),
        "_y"@,
    )
}

fn base(name: &str) -> (r: String)
    ensures
        r@ == base_of(name@),
{
    let a: String = strip_suffix(name, "_r");
    let b: String = strip_suffix(a.as_str(), "_g");
    let c: String = strip_suffix(b.as_str(), "_b");
    let d: String = strip_suffix(c.as_str(), "_a");
    let e: String = strip_suffix(d.as_str(), "_x");
    strip_suffix(e.as_str(), "_y")
}

/// An effect of the chart as evaluated at a beat.
pub struct EvalEffect {
    pub shader_name: String,
    pub priority: u32,
    pub uniforms_names: Vec<String>,
    pub uniforms: Vec<u32>,
}

/// The first of `names`, from `from` on, whose compared form is `key`.
pub open spec fn named(names: Seq<Seq<char>>, key: Seq<char>, from: int) -> Option<int>
    decreases names.len() - from,
{
    if from >= names.len() {
        None
    } else if norm(names[from]) == key {
        Some(from)
    } else {
        named(names, key, from + 1)
    }
}

fn find_named(names: &Vec<String>, key: &str) -> (r: Option<usize>)
    ensures
        match r {
            Some(i) => i < names.len() && named(texts(names@), key@, 0) == Some(i as int),
            None => named(texts(names@), key@, 0) is None,
        },
{
    let mut i: usize = 0;
    while i < names.len()
        invariant
            i <= names.len(),
            named(texts(names@), key@, i as int) == named(texts(names@), key@, 0),
        decreases names.len() - i,
    {
        let n: String = normed(names[i].as_str());
        if same(n.as_str(), key) {
            return Some(i);
        }
        i = i + 1;
    }
    None
}

/// The uniform whose zero makes a built-in effect do nothing.
pub open spec fn main_param(name: Seq<char>) -> Option<Seq<char>> {
    if name == "grayscale"@ {
        Some("factor"@)
    } else if name == "chromatic"@ || name == "glitch"@ || name == "fisheye"@ || name == "noise"@
        || name == "radialBlur"@ {
        Some("power"@)
    } else if name == "pixel"@ || name == "circleBlur"@ || name == "circleBlurH"@ || name
        == "circleBlurV"@ {
        Some("size"@)
    } else if name == "vignette"@ {
        Some("color_a"@)
    } else {
        None
    }
}

fn main_param_of(name: &str) -> (r: Option<&'static str>)
    ensures
        match r {
            Some(p) => main_param(name@) == Some(p@),
            None => main_param(name@) is None,
        },
{
    if same(name, "grayscale") {
        Some("factor")
    } else if same(name, "chromatic") || same(name, "glitch") || same(name, "fisheye") || same(
        name,
        "noise",
    ) || same(name, "radialBlur") {
        Some("power")
    } else if same(name, "pixel") || same(name, "circleBlur") || same(name, "circleBlurH") || same(
        name,
        "circleBlurV",
    ) {
        Some("size")
    } else if same(name, "vignette") {
        Some("color_a")
    } else {
        None
    }
}

/// Whether the main uniform of effect `name` is given, and zero.
pub open spec fn does_nothing(
    name: Seq<char>,
    names: Seq<Seq<char>>,
    values: Seq<u32>,
) -> bool {
    match main_param(name) {
        None => false,
        Some(p) => match named(names, norm(p), 0) {
            None => false,
            Some(i) => i < values.len() && is_zero(values[i]),
        },
    }
}

/// Whether an evaluated effect does nothing as the built-in effect `name`.
pub fn effect_noop(e: &EvalEffect, name: &str) -> (r: bool)
    ensures
        r == does_nothing(name@, texts(e.uniforms_names@), e.uniforms@),
{
    match main_param_of(name) {
        None => false,
        Some(p) => {
            let key: String = normed(p);
            match find_named(&e.uniforms_names, key.as_str()) {
                None => false,
                Some(i) => i < e.uniforms.len() && (e.uniforms[i] == 0 || e.uniforms[i]
                    == 0x8000_0000),
            }
        },
    }
}

/// The value of a uniform of a built-in effect. The chart time and the size of the screen are
/// put in by name; any other takes the value that the chart gives it, or else its default.
pub open spec fn resolved_value(
    name: Seq<char>,
    default: u32,
    names: Seq<Seq<char>>,
    values: Seq<u32>,
    time: u32,
    screen: (u32, u32),
) -> u32 {
    if name == "time"@ {
        time
    } else if occurs(name, "screen_size"@) {
        if ends(name, "x"@) {
            screen.0
        } else {
            screen.1
        }
    } else {
        match named(names, norm(base_of(name)), 0) {
            Some(i) => values[i],
            None => default,
        }
    }
}

/// The values of all uniforms of built-in effect `i`.
pub open spec fn resolved_values(
    i: int,
    names: Seq<Seq<char>>,
    values: Seq<u32>,
    time: u32,
    screen: (u32, u32),
) -> Seq<u32> {
    defaults_of(i).map_values(
        |d: (Seq<char>, u32)| resolved_value(d.0, d.1, names, values, time, screen),
    )
}

/// The values of the uniforms of a built-in effect.
pub fn resolve_builtin(e: &EvalEffect, i: usize, time: u32, screen: (u32, u32)) -> (r: Vec<u32>)
    requires
        e.uniforms_names.len() <= e.uniforms.len(),
    ensures
        r@ == resolved_values(i as int, texts(e.uniforms_names@), e.uniforms@, time, screen),
{
    let defs: Vec<Uniform> = effect_defaults(i);
    let ghost want = resolved_values(
        i as int,
        texts(e.uniforms_names@),
        e.uniforms@,
        time,
        screen,
    );
    let mut out: Vec<u32> = Vec::new();
    let mut k: usize = 0;
    while k < defs.len()
        invariant
            k <= defs.len(),
            e.uniforms_names.len() <= e.uniforms.len(),
            uniforms_view(defs@) == defaults_of(i as int),
            want == resolved_values(
                i as int,
                texts(e.uniforms_names@),
                e.uniforms@,
                time,
                screen,
            ),
            out@ == want.take(k as int),
        decreases defs.len() - k,
    {
        let name: &str = defs[k].name.as_str();
        proof {
            assert(defaults_of(i as int)[k as int] == uniforms_view(defs@)[k as int]);
            assert(want[k as int] == resolved_value(
                defs@[k as int].name@,
                defs@[k as int].value,
                texts(e.uniforms_names@),
                e.uniforms@,
                time,
                screen,
            ));
        }
        let value: u32 = if same(name, "time") {
            time
        } else if contains(name, "screen_size") {
            if ends_with(name, "x") {
                screen.0
            } else {
                screen.1
            }
        } else {
            let b: String = base(name);
            let key: String = normed(b.as_str());
            match find_named(&e.uniforms_names, key.as_str()) {
                Some(at) => e.uniforms[at],
                None => defs[k].value,
            }
        };
        out.push(value);
        k = k + 1;
    }
    proof {
        assert(defs@.len() == defaults_of(i as int).len()) by {
            assert(uniforms_view(defs@).len() == defs@.len());
        }
        assert(want.take(defs@.len() as int) == want);
    }
    out
}

/// One pass of the effect chain.
pub struct ActiveEffect {
    /// The index of a built-in effect; `usize::MAX` for a shader of the chart.
    pub shader_idx: usize,
    /// The file of a shader of the chart.
    pub custom_name: Option<String>,
    /// Lower runs earlier.
    pub priority: u32,
    /// The values of the uniforms.
    pub uniform_values: Vec<u32>,
    /// How many of the values count.
    pub uniform_count: usize,
}

/// [`ActiveEffect`] with its contents as sequences.
pub ghost struct PassView {
    pub shader: usize,
    pub custom: Option<Seq<char>>,
    pub priority: u32,
    pub values: Seq<u32>,
    pub count: usize,
}

impl View for ActiveEffect {
    type V = PassView;

    open spec fn view(&self) -> PassView {
        PassView {
            shader: self.shader_idx,
            custom: match self.custom_name {
                Some(s) => Some(s@),
                None => None,
            },
            priority: self.priority,
            values: self.uniform_values@,
            count: self.uniform_count,
        }
    }
}

/// The contents of passes.
pub open spec fn passes_view(v: Seq<ActiveEffect>) -> Seq<PassView> {
    v.map_values(|a: ActiveEffect| a@)
}

/// The pass of an effect that is not built in.
pub open spec fn custom_pass(e: EvalEffect) -> PassView {
    PassView {
        shader: usize::MAX,
        custom: Some(e.shader_name@),
        priority: e.priority,
        values: e.uniforms@,
        count: e.uniforms@.len() as usize,
    }
}

/// The pass of a built-in effect.
pub open spec fn builtin_pass(e: EvalEffect, i: int, time: u32, screen: (u32, u32)) -> PassView {
    let values = resolved_values(i, texts(e.uniforms_names@), e.uniforms@, time, screen);
    PassView {
        shader: i as usize,
        custom: None,
        priority: e.priority,
        values,
        count: values.len() as usize,
    }
}

/// The passes of the first `n` stages of a composite effect; a stage that is no built-in effect
/// is left out.
pub open spec fn stage_passes(
    e: EvalEffect,
    stages: Seq<Seq<char>>,
    time: u32,
    screen: (u32, u32),
) -> Seq<PassView>
    decreases stages.len(),
{
    if stages.len() == 0 {
        Seq::empty()
    } else {
        let before = stage_passes(e, stages.drop_last(), time, screen);
        match index_of(stages.last(), 0) {
            Some(i) => before.push(builtin_pass(e, i, time, screen)),
            None => before,
        }
    }
}

/// The passes of an evaluated effect. A shader of the chart is one pass with its own uniforms; a
/// built-in effect that does nothing is none; a composite one is a pass for each stage.
pub open spec fn passes_of(e: EvalEffect, time: u32, screen: (u32, u32)) -> Seq<PassView> {
    match index_of(e.shader_name@, 0) {
        None => seq![custom_pass(e)],
        Some(i) => if does_nothing(name_of(i), texts(e.uniforms_names@), e.uniforms@) {
            Seq::empty()
        } else if stages_of(i).len() == 0 {
            seq![builtin_pass(e, i, time, screen)]
        } else {
            stage_passes(e, stages_of(i), time, screen)
        },
    }
}

/// Makes the pass of an effect that is not built in: its values as they are.
pub fn make_custom(e: &EvalEffect) -> (r: ActiveEffect)
    ensures
        r@ == custom_pass(*e),
{
    let values: Vec<u32> = copy_bits(&e.uniforms);
    let n: usize = values.len();
    ActiveEffect {
        shader_idx: usize::MAX,
        custom_name: Some(e.shader_name.clone()),
        priority: e.priority,
        uniform_values: values,
        uniform_count: n,
    }
}

/// Makes the pass of a built-in effect.
pub fn make_pass(e: &EvalEffect, i: usize, time: u32, screen: (u32, u32)) -> (r: ActiveEffect)
    requires
        e.uniforms_names.len() <= e.uniforms.len(),
    ensures
        r@ == builtin_pass(*e, i as int, time, screen),
{
    let values: Vec<u32> = resolve_builtin(e, i, time, screen);
    let n: usize = values.len();
    ActiveEffect {
        shader_idx: i,
        custom_name: None,
        priority: e.priority,
        uniform_values: values,
        uniform_count: n,
    }
}

fn copy_bits(v: &Vec<u32>) -> (r: Vec<u32>)
    ensures
        r@ == v@,
{
    let r: Vec<u32> = part(v, 0, v.len());
    proof {
        assert(r@ == v@);
    }
    r
}

/// The passes of an evaluated effect.
pub fn resolve_one(e: &EvalEffect, time: u32, screen: (u32, u32)) -> (r: Vec<ActiveEffect>)
    requires
        e.uniforms_names.len() <= e.uniforms.len(),
    ensures
        passes_view(r@) == passes_of(*e, time, screen),
{
    match effect_index(e.shader_name.as_str()) {
        None => {
            let a: ActiveEffect = make_custom(e);
            let r: Vec<ActiveEffect> = vec![a];
            proof {
                assert(passes_view(r@) == passes_of(*e, time, screen));
            }
            r
        },
        Some(i) => {
            if effect_noop(e, effect_name(i)) {
                let r: Vec<ActiveEffect> = Vec::new();
                proof {
                    assert(passes_view(r@) == passes_of(*e, time, screen));
                }
                return r;
            }
            let stages: Vec<String> = effect_stages(i);
            let ghost names = texts(stages@);
            proof {
                assert(names.len() == stages@.len());
            }
            if stages.len() == 0 {
                let r: Vec<ActiveEffect> = vec![make_pass(e, i, time, screen)];
                proof {
                    assert(passes_view(r@) == passes_of(*e, time, screen));
                }
                return r;
            }
            let mut r: Vec<ActiveEffect> = Vec::new();
            let mut k: usize = 0;
            proof {
                assert(names.take(0).len() == 0);
                assert(passes_view(r@) == Seq::<PassView>::empty());
            }
            while k < stages.len()
                invariant
                    k <= stages.len(),
                    names == texts(stages@),
                    e.uniforms_names.len() <= e.uniforms.len(),
                    passes_view(r@) == stage_passes(*e, names.take(k as int), time, screen),
                decreases stages.len() - k,
            {
                let ghost before = passes_view(r@);
                proof {
                    assert(names.take(k + 1).drop_last() == names.take(k as int));
                    assert(names.take(k + 1).last() == stages@[k as int]@);
                }
                if let Some(s) = effect_index(stages[k].as_str()) {
                    let a: ActiveEffect = make_pass(e, s, time, screen);
                    r.push(a);
                    proof {
                        assert(passes_view(r@) == before.push(a@));
                    }
                }
                k = k + 1;
            }
            proof {
                assert(names.take(names.len() as int) == names);
            }
            r
        },
    }
}

/// The priorities of evaluated effects, as keys of an order.
pub open spec fn priorities(evals: Seq<EvalEffect>) -> Seq<i64> {
    evals.map_values(|e: EvalEffect| e.priority as i64)
}

/// The passes of the effects that `order` lists, one after the other.
pub open spec fn chain(
    evals: Seq<EvalEffect>,
    order: Seq<usize>,
    time: u32,
    screen: (u32, u32),
) -> Seq<PassView>
    decreases order.len(),
{
    if order.len() == 0 {
        Seq::empty()
    } else {
        chain(evals, order.drop_last(), time, screen) + passes_of(
            evals[order.last() as int],
            time,
            screen,
        )
    }
}

/// The effect chain of a frame: the passes of the evaluated effects, by priority, effects of one
/// priority in the order in which they stand. `time` and `screen` are single-precision bits.
pub fn build_effect_chain(evals: &Vec<EvalEffect>, time: u32, screen: (u32, u32)) -> (r: Vec<
    ActiveEffect,
>)
    requires
        forall|i: int|
            0 <= i < evals.len() ==> (#[trigger] evals[i]).uniforms_names.len()
                <= evals[i].uniforms.len(),
    ensures
        exists|order: Seq<usize>| #[trigger]
            stably_ordered(priorities(evals@), order) && passes_view(r@) == chain(
                evals@,
                order,
                time,
                screen,
            ),
{
    let mut keys: Vec<i64> = Vec::new();
    let mut i: usize = 0;
    while i < evals.len()
        invariant
            i <= evals.len(),
            keys@ == priorities(evals@).take(i as int),
        decreases evals.len() - i,
    {
        keys.push(evals[i].priority as i64);
        i = i + 1;
    }
    proof {
        assert(priorities(evals@).take(evals@.len() as int) == priorities(evals@));
    }
    let order: Vec<usize> = stable_order(keys.as_slice());
    let mut r: Vec<ActiveEffect> = Vec::new();
    let mut k: usize = 0;
    proof {
        assert(order@.take(0).len() == 0);
        assert(passes_view(r@) == Seq::<PassView>::empty());
    }
    while k < order.len()
        invariant
            k <= order.len(),
            stably_ordered(priorities(evals@), order@),
            forall|i: int|
                0 <= i < evals.len() ==> (#[trigger] evals[i]).uniforms_names.len()
                    <= evals[i].uniforms.len(),
            passes_view(r@) == chain(evals@, order@.take(k as int), time, screen),
        decreases order.len() - k,
    {
        let at: usize = order[k];
        proof {
            assert(priorities(evals@).len() == evals@.len());
            assert(at < evals@.len());
            assert(order@.take(k + 1).drop_last() == order@.take(k as int));
            assert(order@.take(k + 1).last() == at);
        }
        let mut more: Vec<ActiveEffect> = resolve_one(&evals[at], time, screen);
        let ghost a = r@;
        let ghost b = more@;
        r.append(&mut more);
        proof {
            assert(passes_view(a + b) == passes_view(a) + passes_view(b));
        }
        k = k + 1;
    }
    proof {
        assert(order@.take(order@.len() as int) == order@);
    }
    r
}

proof fn lemma_stage_priority(
    e: EvalEffect,
    stages: Seq<Seq<char>>,
    time: u32,
    screen: (u32, u32),
)
    ensures
        forall|k: int|
            0 <= k < stage_passes(e, stages, time, screen).len() ==> (#[trigger] stage_passes(
                e,
                stages,
                time,
                screen,
            )[k]).priority == e.priority,
    decreases stages.len(),
{
    if stages.len() > 0 {
        lemma_stage_priority(e, stages.drop_last(), time, screen);
    }
}

proof fn lemma_passes_priority(e: EvalEffect, time: u32, screen: (u32, u32))
    ensures
        forall|k: int|
            0 <= k < passes_of(e, time, screen).len() ==> (#[trigger] passes_of(
                e,
                time,
                screen,
            )[k]).priority == e.priority,
{
    if let Some(i) = index_of(e.shader_name@, 0) {
        lemma_stage_priority(e, stages_of(i), time, screen);
    }
}

/// Law: the passes of a chain run by priority.
pub proof fn law_chain_runs_by_priority(
    evals: Seq<EvalEffect>,
    order: Seq<usize>,
    time: u32,
    screen: (u32, u32),
)
    requires
        stably_ordered(priorities(evals), order),
    ensures
        forall|i: int, j: int|
            0 <= i < j < chain(evals, order, time, screen).len() ==> (#[trigger] chain(
                evals,
                order,
                time,
                screen,
            )[i]).priority <= (#[trigger] chain(evals, order, time, screen)[j]).priority,
{
    lemma_chain_priorities(evals, order, order.len() as int, time, screen);
    assert(order.take(order.len() as int) == order);
}

proof fn lemma_chain_priorities(
    evals: Seq<EvalEffect>,
    order: Seq<usize>,
    n: int,
    time: u32,
    screen: (u32, u32),
)
    requires
        stably_ordered(priorities(evals), order),
        0 <= n <= order.len(),
    ensures
        ({
            let c = chain(evals, order.take(n), time, screen);
            &&& forall|i: int, j: int|
                0 <= i < j < c.len() ==> (#[trigger] c[i]).priority <= (#[trigger] c[j]).priority
            &&& forall|i: int, m: int|
                0 <= i < c.len() && n <= m < order.len() ==> (#[trigger] c[i]).priority
                    <= evals[(#[trigger] order[m]) as int].priority
        }),
    decreases n,
{
    if n > 0 {
        lemma_chain_priorities(evals, order, n - 1, time, screen);
        let t = order.take(n);
        assert(t.drop_last() == order.take(n - 1));
        assert(t.last() == order[n - 1]);
        let e = evals[order[n - 1] as int];
        lemma_passes_priority(e, time, screen);
        let a = chain(evals, order.take(n - 1), time, screen);
        let b = passes_of(e, time, screen);
        let c = chain(evals, t, time, screen);
        assert(c == a + b);
        assert(priorities(evals).len() == evals.len());
        assert forall|i: int, m: int| 0 <= i < c.len() && n <= m < order.len() implies (
        #[trigger] c[i]).priority <= evals[(#[trigger] order[m]) as int].priority by {
            if i < a.len() {
                assert(c[i] == a[i]);
            } else {
                assert(c[i] == b[i - a.len()]);
                assert(priorities(evals)[order[n - 1] as int] <= priorities(
                    evals,
                )[order[m] as int]);
            }
        }
        assert forall|i: int, j: int| 0 <= i < j < c.len() implies (#[trigger] c[i]).priority <= (
        #[trigger] c[j]).priority by {
            if i < a.len() {
                assert(c[i] == a[i]);
                if j < a.len() {
                    assert(c[j] == a[j]);
                } else {
                    assert(c[j] == b[j - a.len()]);
                    assert(a[i].priority <= evals[order[n - 1] as int].priority);
                }
            } else {
                assert(c[i] == b[i - a.len()]);
                assert(c[j] == b[j - a.len()]);
            }
        }
    }
}

/// Whether a pass does nothing: the main uniform of its built-in effect is zero. Of a shader of
/// the chart that cannot be told.
pub open spec fn pass_does_nothing(p: PassView) -> bool {
    if p.shader == usize::MAX {
        false
    } else {
        let name = name_of(p.shader as int);
        let at: int = if name == "noise"@ {
            1
        } else if name == "vignette"@ {
            3
        } else {
            0
        };
        &&& (name == "grayscale"@ || name == "chromatic"@ || name == "glitch"@ || name
            == "fisheye"@ || name == "noise"@ || name == "radialBlur"@ || name == "pixel"@ || name
            == "circleBlur"@ || name == "vignette"@)
        &&& at < p.values.len()
        &&& is_zero(p.values[at])
    }
}

/// Whether a pass can be skipped.
pub fn is_effect_noop(ae: &ActiveEffect) -> (r: bool)
    ensures
        r == pass_does_nothing(ae@),
{
    if ae.shader_idx == usize::MAX {
        return false;
    }
    let name: &str = effect_name(ae.shader_idx);
    let at: usize = if same(name, "noise") {
        1
    } else if same(name, "vignette") {
        3
    } else if same(name, "grayscale") || same(name, "chromatic") || same(name, "glitch") || same(
        name,
        "fisheye",
    ) || same(name, "radialBlur") || same(name, "pixel") || same(name, "circleBlur") {
        0
    } else {
        return false;
    };
    at < ae.uniform_values.len() && (ae.uniform_values[at] == 0 || ae.uniform_values[at]
        == 0x8000_0000)
}

/// Whether an effect runs at half resolution: those that do not depend on the size of a pixel.
pub open spec fn half_res(key: Seq<char>) -> bool {
    key == "glitch"@ || key == "chromatic"@ || key == "noise"@ || key == "radialBlur"@ || key
        == "grayscale"@ || key == "vignette"@
}

/// Whether an effect runs at half resolution.
pub fn effect_is_half_res(key: &str) -> (r: bool)
    ensures
        r == half_res(key@),
{
    same(key, "glitch") || same(key, "chromatic") || same(key, "noise") || same(key, "radialBlur")
        || same(key, "grayscale") || same(key, "vignette")
}

/// The name under which the pipeline of a pass is kept.
pub open spec fn key_of(p: PassView) -> Seq<char> {
    if p.shader < usize::MAX {
        name_of(p.shader as int)
    } else {
        match p.custom {
            Some(s) => s,
            None => Seq::empty(),
        }
    }
}

/// The name under which the pipeline of a pass is kept.
pub fn effect_key(ae: &ActiveEffect) -> (r: String)
    ensures
        r@ == key_of(ae@),
{
    if ae.shader_idx < usize::MAX {
        effect_name(ae.shader_idx).to_owned()
    } else {
        match &ae.custom_name {
            Some(s) => s.clone(),
            None => String::new(),
        }
    }
}

proof fn lemma_effect_names(i: int)
    requires
        0 <= i < 13,
    ensures
        name_of(i).len() == (if i == 0 || i == 1 || i == 5 {
            9int
        } else if i == 2 {
            6
        } else if i == 3 {
            8
        } else if i == 4 || i == 10 {
            7
        } else if i == 6 || i == 7 {
            10
        } else if i == 8 || i == 9 {
            5
        } else {
            11
        }),
        name_of(i)[0] == (if i == 0 || i == 2 {
            'g'
        } else if i == 1 || i == 6 || i == 11 || i == 12 {
            'c'
        } else if i == 3 {
            'v'
        } else if i == 4 {
            'f'
        } else if i == 5 {
            's'
        } else if i == 8 {
            'p'
        } else if i == 9 {
            'n'
        } else {
            'r'
        }),
        i == 11 ==> name_of(i)[10] == 'H',
        i == 12 ==> name_of(i)[10] == 'V',
{
    reveal_strlit("grayscale");
    reveal_strlit("chromatic");
    reveal_strlit("glitch");
    reveal_strlit("vignette");
    reveal_strlit("fisheye");
    reveal_strlit("shockwave");
    reveal_strlit("circleBlur");
    reveal_strlit("radialBlur");
    reveal_strlit("pixel");
    reveal_strlit("noise");
    reveal_strlit("rainbow");
    reveal_strlit("circleBlurH");
    reveal_strlit("circleBlurV");
}

/// Law: no two built-in effects have one name.
pub proof fn law_effect_names_differ(i: int, j: int)
    requires
        0 <= i < 13,
        0 <= j < 13,
        i != j,
    ensures
        name_of(i) != name_of(j),
{
    lemma_effect_names(i);
    lemma_effect_names(j);
}

/// Law: an effect is found under its name, and under a name that none has nothing is found.
pub proof fn law_effect_is_found(i: int)
    requires
        0 <= i < 13,
    ensures
        index_of(name_of(i), 0) == Some(i),
        forall|name: Seq<char>|
            (forall|k: int| 0 <= k < 13 ==> #[trigger] name_of(k) != name) ==> #[trigger] index_of(name, 0)
                is None,
{
    lemma_index_of(name_of(i), 0, i);
    assert forall|name: Seq<char>|
        (forall|k: int| 0 <= k < 13 ==> #[trigger] name_of(k) != name) implies #[trigger] index_of(name, 0)
        is None by {
        lemma_no_index(name, 0);
    }
}

proof fn lemma_index_of(name: Seq<char>, from: int, i: int)
    requires
        0 <= from <= i < 13,
        name == name_of(i),
    ensures
        index_of(name, from) == Some(i),
    decreases i - from,
{
    if from < i {
        law_effect_names_differ(from, i);
        lemma_index_of(name, from + 1, i);
    }
}

proof fn lemma_no_index(name: Seq<char>, from: int)
    requires
        0 <= from,
        forall|k: int| 0 <= k < 13 ==> #[trigger] name_of(k) != name,
    ensures
        index_of(name, from) is None,
    decreases EFFECT_COUNT - from,
{
    if from < EFFECT_COUNT {
        assert(name_of(from) != name);
        lemma_no_index(name, from + 1);
    }
}

/// Law: the effects by their names, with the shader of each, and the names and defaults of their uniforms
/// in the order in which the shader reads them.
pub proof fn law_effects_by_name(i: int)
    ensures
        index_of("grayscale"@, 0) == Some(i) ==> frag_of(i) == GRAYSCALE_FRAG@ && defaults_of(i) == seq![
            ("factor"@, 0x3F80_0000u32),
        ],
        index_of("chromatic"@, 0) == Some(i) ==> frag_of(i) == CHROMATIC_FRAG@ && defaults_of(i) == seq![
            ("power"@, 0x3C23_D70Au32),
            ("sample_count"@, 0x4040_0000u32),
            ("screen_size_x"@, 0u32),
            ("screen_size_y"@, 0u32),
        ],
        index_of("glitch"@, 0) == Some(i) ==> frag_of(i) == GLITCH_FRAG@ && defaults_of(i) == seq![
            ("power"@, 0x3CF5_C28Fu32),
            ("time"@, 0u32),
            ("rate"@, 0x3F19_999Au32),
            ("speed"@, 0x40A0_0000u32),
            ("block_count"@, 0x41F4_0000u32),
            ("color_rate"@, 0x3C23_D70Au32),
        ],
        index_of("vignette"@, 0) == Some(i) ==> frag_of(i) == VIGNETTE_FRAG@ && defaults_of(i) == seq![
            ("color_r"@, 0u32),
            ("color_g"@, 0u32),
            ("color_b"@, 0u32),
            ("color_a"@, 0x3F80_0000u32),
            ("extend"@, 0x3E80_0000u32),
            ("radius"@, 0x4170_0000u32),
        ],
        index_of("fisheye"@, 0) == Some(i) ==> frag_of(i) == FISHEYE_FRAG@ && defaults_of(i) == seq![
            ("power"@, 0xBDCC_CCCDu32),
            ("aspect"@, 0x3F80_0000u32),
        ],
        index_of("shockwave"@, 0) == Some(i) ==> frag_of(i) == SHOCKWAVE_FRAG@ && defaults_of(i) == seq![
            ("progress"@, 0x3E4C_CCCDu32),
            ("_pad"@, 0u32),
            ("center_x"@, 0x3F00_0000u32),
            ("center_y"@, 0x3F00_0000u32),
            ("width"@, 0x3DCC_CCCDu32),
            ("distortion"@, 0x3F4C_CCCDu32),
            ("expand"@, 0x4120_0000u32),
            ("_pad2"@, 0u32),
            ("screen_size_x"@, 0u32),
            ("screen_size_y"@, 0u32),
        ],
        index_of("radialBlur"@, 0) == Some(i) ==> frag_of(i) == RADIAL_BLUR_FRAG@ && defaults_of(i) == seq![
            ("power"@, 0x3C23_D70Au32),
            ("sample_count"@, 0x40C0_0000u32),
            ("center_x"@, 0x3F00_0000u32),
            ("center_y"@, 0x3F00_0000u32),
        ],
        index_of("noise"@, 0) == Some(i) ==> frag_of(i) == NOISE_FRAG@ && defaults_of(i) == seq![
            ("seed"@, 0x42A2_0000u32),
            ("power"@, 0x3CF5_C28Fu32),
        ],
        index_of("rainbow"@, 0) == Some(i) ==> frag_of(i) == RAINBOW_FRAG@ && defaults_of(i) == seq![
            ("time"@, 0u32),
        ],
        index_of("pixel"@, 0) == Some(i) ==> frag_of(i) == PIXELATE_FRAG@,
        index_of("circleBlur"@, 0) == Some(i) ==> frag_of(i) == CIRCLE_BLUR_FRAG@,
        index_of("circleBlurH"@, 0) == Some(i) ==> frag_of(i) == CIRCLE_BLUR_H_FRAG@,
        index_of("circleBlurV"@, 0) == Some(i) ==> frag_of(i) == CIRCLE_BLUR_V_FRAG@,
        (index_of("pixel"@, 0) == Some(i) || index_of("circleBlur"@, 0) == Some(i) || index_of(
            "circleBlurH"@,
            0,
        ) == Some(i) || index_of("circleBlurV"@, 0) == Some(i)) ==> defaults_of(i) == seq![
            ("size"@, 0x4120_0000u32),
            ("_pad"@, 0u32),
            ("screen_size_x"@, 0u32),
            ("screen_size_y"@, 0u32),
        ],
{
    lemma_index_of("grayscale"@, 0, 0);
    lemma_index_of("chromatic"@, 0, 1);
    lemma_index_of("glitch"@, 0, 2);
    lemma_index_of("vignette"@, 0, 3);
    lemma_index_of("fisheye"@, 0, 4);
    lemma_index_of("shockwave"@, 0, 5);
    lemma_index_of("circleBlur"@, 0, 6);
    lemma_index_of("radialBlur"@, 0, 7);
    lemma_index_of("pixel"@, 0, 8);
    lemma_index_of("noise"@, 0, 9);
    lemma_index_of("rainbow"@, 0, 10);
    lemma_index_of("circleBlurH"@, 0, 11);
    lemma_index_of("circleBlurV"@, 0, 12);
}

proof fn lemma_named(names: Seq<Seq<char>>, key: Seq<char>, from: int)
    requires
        0 <= from <= names.len(),
    ensures
        match named(names, key, from) {
            Some(i) => from <= i < names.len() && norm(names[i]) == key && forall|k: int|
                from <= k < i ==> norm(#[trigger] names[k]) != key,
            None => forall|k: int| from <= k < names.len() ==> norm(#[trigger] names[k]) != key,
        },
    decreases names.len() - from,
{
    if from < names.len() && norm(names[from]) != key {
        lemma_named(names, key, from + 1);
    }
}

/// Law: in every built-in effect the uniform named `time` has the time of the chart, `screen_size_x` the
/// width of the screen and `screen_size_y` its height, whatever the chart gives; there is one value for
/// each default.
pub proof fn law_time_and_screen_by_name(
    i: int,
    k: int,
    names: Seq<Seq<char>>,
    values: Seq<u32>,
    time: u32,
    screen: (u32, u32),
)
    requires
        0 <= k < defaults_of(i).len(),
    ensures
        ({
            let r = resolved_values(i, names, values, time, screen);
            let name = defaults_of(i)[k].0;
            &&& r.len() == defaults_of(i).len()
            &&& name == "time"@ ==> r[k] == time
            &&& name == "screen_size_x"@ ==> r[k] == screen.0
            &&& name == "screen_size_y"@ ==> r[k] == screen.1
        }),
{
    reveal_strlit("time");
    reveal_strlit("screen_size");
    reveal_strlit("screen_size_x");
    reveal_strlit("screen_size_y");
    reveal_strlit("x");
    assert("screen_size_x"@.subrange(0, 11) =~= "screen_size"@);
    assert("screen_size_y"@.subrange(0, 11) =~= "screen_size"@);
    assert(stands_at("screen_size_x"@, "screen_size"@, 0));
    assert(stands_at("screen_size_y"@, "screen_size"@, 0));
    assert("screen_size_x"@.subrange(12, 13) =~= "x"@);
    assert(ends("screen_size_x"@, "x"@));
    assert("screen_size_y"@.subrange(12, 13)[0] == 'y');
    assert("x"@[0] == 'x');
    assert(!ends("screen_size_y"@, "x"@));
    assert(!("screen_size_x"@ == "time"@)) by {
        assert("time"@.len() == 4);
    }
    assert(!("screen_size_y"@ == "time"@)) by {
        assert("time"@.len() == 4);
    }
}

proof fn lemma_not_screen(name: Seq<char>)
    requires
        name.len() < 11,
    ensures
        !occurs(name, "screen_size"@),
{
    reveal_strlit("screen_size");
}

/// Law: a uniform of a built-in effect that is neither the time nor a size of the screen has the value
/// of the first of the chart's uniforms whose name compares equal to its own without the mark of its
/// channel, and its default where there is none.
pub proof fn law_value_or_default(
    i: int,
    k: int,
    names: Seq<Seq<char>>,
    values: Seq<u32>,
    time: u32,
    screen: (u32, u32),
    j: int,
)
    requires
        0 <= k < defaults_of(i).len(),
        defaults_of(i)[k].0.len() < 11,
        defaults_of(i)[k].0 != "time"@,
        names.len() <= values.len(),
        0 <= j <= names.len(),
        forall|m: int| 0 <= m < j ==> norm(#[trigger] names[m]) != norm(base_of(defaults_of(i)[k].0)),
        j < names.len() ==> norm(names[j]) == norm(base_of(defaults_of(i)[k].0)),
    ensures
        ({
            let r = resolved_values(i, names, values, time, screen);
            &&& j < names.len() ==> r[k] == values[j]
            &&& j == names.len() ==> r[k] == defaults_of(i)[k].1
        }),
{
    let key = norm(base_of(defaults_of(i)[k].0));
    lemma_not_screen(defaults_of(i)[k].0);
    lemma_named(names, key, 0);
}

/// Law: pixelating and the two halves of a blur get their size, a filler, the width and the height of the
/// screen, in this order.
pub proof fn law_pixel_values(
    i: int,
    names: Seq<Seq<char>>,
    values: Seq<u32>,
    time: u32,
    screen: (u32, u32),
)
    requires
        index_of("pixel"@, 0) == Some(i) || index_of("circleBlur"@, 0) == Some(i) || index_of(
            "circleBlurH"@,
            0,
        ) == Some(i) || index_of("circleBlurV"@, 0) == Some(i),
    ensures
        ({
            let r = resolved_values(i, names, values, time, screen);
            &&& r.len() == 4
            &&& r[2] == screen.0
            &&& r[3] == screen.1
        }),
{
    law_effects_by_name(i);
    law_time_and_screen_by_name(i, 2, names, values, time, screen);
    law_time_and_screen_by_name(i, 3, names, values, time, screen);
}

/// Law: a pass of a built-in effect counts all of its values, has the priority of its effect and no name
/// of a file; that of a shader of the chart has the name of its file and the values as they are.
pub proof fn law_passes_keep_their_effect(e: EvalEffect, i: int, time: u32, screen: (u32, u32))
    requires
        0 <= i < 13,
        e.uniforms@.len() <= usize::MAX,
    ensures
        ({
            let p = builtin_pass(e, i, time, screen);
            &&& p.shader == i
            &&& p.custom is None
            &&& p.priority == e.priority
            &&& p.count == p.values.len()
            &&& p.values.len() == defaults_of(i).len()
            &&& key_of(p) == name_of(i)
        }),
        ({
            let p = custom_pass(e);
            &&& p.shader == usize::MAX
            &&& p.custom == Some(e.shader_name@)
            &&& p.priority == e.priority
            &&& p.values == e.uniforms@
            &&& p.count == e.uniforms@.len()
            &&& key_of(p) == e.shader_name@
        }),
{
}

/// Law: an effect whose name is not built in is one pass with the values of the chart; a built-in one is
/// one pass, but the blur in circles is two, first along the rows and then along the columns; and one
/// that does nothing is none.
pub proof fn law_how_many_passes(e: EvalEffect, time: u32, screen: (u32, u32))
    ensures
        ({
            let p = passes_of(e, time, screen);
            match index_of(e.shader_name@, 0) {
                None => p == seq![custom_pass(e)],
                Some(i) => {
                    let off = does_nothing(e.shader_name@, texts(e.uniforms_names@), e.uniforms@);
                    &&& off ==> p.len() == 0
                    &&& !off && e.shader_name@ != "circleBlur"@ ==> p == seq![
                        builtin_pass(e, i, time, screen),
                    ]
                    &&& !off && e.shader_name@ == "circleBlur"@ ==> {
                        &&& p.len() == 2
                        &&& key_of(p[0]) == "circleBlurH"@
                        &&& key_of(p[1]) == "circleBlurV"@
                        &&& p[0].values.len() == 4 && p[1].values.len() == 4
                        &&& p[0].values[2] == screen.0 && p[0].values[3] == screen.1
                        &&& p[1].values[2] == screen.0 && p[1].values[3] == screen.1
                        &&& p[0].values[0] == p[1].values[0]
                    }
                },
            }
        }),
{
    lemma_found_name(e.shader_name@, 0);
    lemma_index_of("circleBlur"@, 0, 6);
    lemma_index_of("circleBlurH"@, 0, 11);
    lemma_index_of("circleBlurV"@, 0, 12);
    let names = texts(e.uniforms_names@);
    law_pixel_values(11, names, e.uniforms@, time, screen);
    law_pixel_values(12, names, e.uniforms@, time, screen);
    if let Some(i) = index_of(e.shader_name@, 0) {
        if i == 6 {
            let s = stages_of(6);
            assert(s == seq!["circleBlurH"@, "circleBlurV"@]);
            assert(s.drop_last() =~= seq!["circleBlurH"@]);
            assert(s.drop_last().drop_last() =~= Seq::<Seq<char>>::empty());
            reveal_with_fuel(stage_passes, 3);
        }
    }
}

proof fn lemma_found_name(name: Seq<char>, from: int)
    requires
        0 <= from,
    ensures
        index_of(name, from) matches Some(i) ==> from <= i < 13 && name_of(i) == name,
    decreases EFFECT_COUNT - from,
{
    if from < EFFECT_COUNT && name_of(from) != name {
        lemma_found_name(name, from + 1);
    }
}

/// Law: an effect does nothing exactly where the chart gives its main uniform and that is zero, of either
/// sign. The main uniform is the factor of the grayscale, the opacity of the vignette, the size of what
/// pixelates and blurs in circles, and the power of the others; three effects have none.
pub proof fn law_when_an_effect_does_nothing(
    name: Seq<char>,
    names: Seq<Seq<char>>,
    values: Seq<u32>,
    main: Seq<char>,
    j: int,
)
    requires
        main == (if name == "grayscale"@ {
            "factor"@
        } else if name == "vignette"@ {
            "color_a"@
        } else if name == "pixel"@ || name == "circleBlur"@ || name == "circleBlurH"@ || name
            == "circleBlurV"@ {
            "size"@
        } else {
            "power"@
        }),
        0 <= j <= names.len() <= values.len(),
        forall|m: int| 0 <= m < j ==> norm(#[trigger] names[m]) != norm(main),
        j < names.len() ==> norm(names[j]) == norm(main),
    ensures
        j == names.len() ==> !does_nothing(name, names, values),
        j < names.len() && values[j] != 0 && values[j] != 0x8000_0000 ==> !does_nothing(name, names, values),
        j < names.len() && (values[j] == 0 || values[j] == 0x8000_0000) && (name == "grayscale"@ || name
            == "chromatic"@ || name == "glitch"@ || name == "fisheye"@ || name == "noise"@ || name
            == "radialBlur"@ || name == "pixel"@ || name == "circleBlur"@ || name == "circleBlurH"@ || name
            == "circleBlurV"@ || name == "vignette"@) ==> does_nothing(name, names, values),
        name == "shockwave"@ || name == "rainbow"@ ==> !does_nothing(name, names, values),
{
    lemma_named(names, norm(main), 0);
    lemma_found_distinct();
}

proof fn lemma_found_distinct()
    ensures
        forall|i: int, j: int|
            0 <= i < 13 && 0 <= j < 13 && i != j ==> #[trigger] name_of(i) != #[trigger] name_of(j),
        name_of(0) == "grayscale"@,
        name_of(1) == "chromatic"@,
        name_of(2) == "glitch"@,
        name_of(3) == "vignette"@,
        name_of(4) == "fisheye"@,
        name_of(5) == "shockwave"@,
        name_of(6) == "circleBlur"@,
        name_of(7) == "radialBlur"@,
        name_of(8) == "pixel"@,
        name_of(9) == "noise"@,
        name_of(10) == "rainbow"@,
        name_of(11) == "circleBlurH"@,
        name_of(12) == "circleBlurV"@,
{
    assert forall|i: int, j: int| 0 <= i < 13 && 0 <= j < 13 && i != j implies #[trigger] name_of(i)
        != #[trigger] name_of(j) by {
        law_effect_names_differ(i, j);
    }
}

/// Law: a pass is skipped exactly where the value at the place of the main uniform of its effect is zero;
/// the halves of a blur, which come out of an effect that was looked at already, and shaders of the chart
/// are never skipped.
pub proof fn law_skipped_passes(p: PassView, k: int)
    requires
        p.shader < 13,
        p.values.len() == defaults_of(p.shader as int).len(),
        0 <= k < p.values.len(),
        main_param(name_of(p.shader as int)) == Some(defaults_of(p.shader as int)[k].0),
    ensures
        p.shader < 11 ==> (pass_does_nothing(p) <==> p.values[k] == 0 || p.values[k] == 0x8000_0000),
        p.shader >= 11 ==> !pass_does_nothing(p),
        !pass_does_nothing(PassView { shader: usize::MAX, ..p }),
{
    lemma_found_distinct();
    reveal_strlit("factor");
    reveal_strlit("power");
    reveal_strlit("size");
    reveal_strlit("color_a");
    reveal_strlit("color_r");
    reveal_strlit("color_g");
    reveal_strlit("color_b");
    reveal_strlit("sample_count");
    reveal_strlit("screen_size_x");
    reveal_strlit("screen_size_y");
    reveal_strlit("time");
    reveal_strlit("rate");
    reveal_strlit("speed");
    reveal_strlit("block_count");
    reveal_strlit("color_rate");
    reveal_strlit("extend");
    reveal_strlit("radius");
    reveal_strlit("aspect");
    reveal_strlit("_pad");
    reveal_strlit("center_x");
    reveal_strlit("center_y");
    reveal_strlit("seed");
    assert("color_a"@[6] == 'a' && "color_r"@[6] == 'r' && "color_g"@[6] == 'g' && "color_b"@[6] == 'b');
    assert("power"@[0] == 'p' && "speed"@[0] == 's');
    assert("factor"@[0] == 'f');
    assert("size"@[1] == 'i' && "_pad"@[1] == 'p' && "time"@[0] == 't' && "rate"@[0] == 'r');
    let i = p.shader as int;
    let name = defaults_of(i)[k].0;
    if i == 2 {
        assert(name == "power"@);
        assert(k == 0);
    } else if i == 3 {
        assert(name == "color_a"@);
        assert(k == 3);
    } else if i == 9 {
        assert(name == "power"@);
        assert(k == 1);
    } else if i == 1 || i == 4 || i == 7 {
        assert(name == "power"@);
        assert(k == 0);
    } else if i == 0 {
        assert(k == 0);
    } else if i == 6 || i == 8 {
        assert(name == "size"@);
        assert(k == 0);
    } else if i == 5 || i == 10 {
        assert(name_of(i) == name_of(5) || name_of(i) == name_of(10));
        assert(main_param(name_of(i)) is None);
    }
}

proof fn lemma_unhyphened_concat(a: Seq<char>, b: Seq<char>)
    ensures
        unhyphened(a + b) == unhyphened(a) + unhyphened(b),
    decreases b.len(),
{
    if b.len() == 0 {
        assert(a + b =~= a);
        assert(unhyphened(a) + Seq::<char>::empty() =~= unhyphened(a));
    } else {
        lemma_unhyphened_concat(a, b.drop_last());
        assert((a + b).drop_last() =~= a + b.drop_last());
        assert((a + b).last() == b.last());
        assert((unhyphened(a) + unhyphened(b.drop_last())).push(b.last()) =~= unhyphened(a) + unhyphened(
            b.drop_last(),
        ).push(b.last()));
    }
}

/// Law: in the form in which names are compared no underscore and no hyphen is left, and where one stands,
/// or whether, makes no difference; a name without them stays as it is.
pub proof fn law_hyphens_do_not_count(a: Seq<char>, b: Seq<char>)
    ensures
        unhyphened(a + seq!['_'] + b) == unhyphened(a + b),
        unhyphened(a + seq!['-'] + b) == unhyphened(a + b),
        !unhyphened(a).contains('_'),
        !unhyphened(a).contains('-'),
        !a.contains('_') && !a.contains('-') ==> unhyphened(a) == a,
{
    lemma_unhyphened_concat(a + seq!['_'], b);
    lemma_unhyphened_concat(a, seq!['_']);
    lemma_unhyphened_concat(a + seq!['-'], b);
    lemma_unhyphened_concat(a, seq!['-']);
    lemma_unhyphened_concat(a, b);
    assert(seq!['_'].drop_last() =~= Seq::<char>::empty());
    assert(seq!['-'].drop_last() =~= Seq::<char>::empty());
    reveal_with_fuel(unhyphened, 2);
    assert(unhyphened(seq!['_']) =~= Seq::<char>::empty());
    assert(unhyphened(seq!['-']) =~= Seq::<char>::empty());
    assert(unhyphened(a) + Seq::<char>::empty() =~= unhyphened(a));
    lemma_unhyphened_chars(a);
}

proof fn lemma_unhyphened_chars(a: Seq<char>)
    ensures
        !unhyphened(a).contains('_'),
        !unhyphened(a).contains('-'),
        !a.contains('_') && !a.contains('-') ==> unhyphened(a) == a,
    decreases a.len(),
{
    if a.len() > 0 {
        lemma_unhyphened_chars(a.drop_last());
        let less = a.drop_last();
        assert(a[a.len() - 1] == a.last());
        assert(forall|c: char| less.contains(c) ==> a.contains(c)) by {
            assert forall|c: char| less.contains(c) implies a.contains(c) by {
                let k = choose|k: int| 0 <= k < less.len() && less[k] == c;
                assert(a[k] == c);
            }
        }
        assert(less.push(a.last()) =~= a);
    }
}

/// Law: behind a name that does not end in a channel, the mark of any channel is taken off.
pub proof fn law_channels_are_taken_off(s: Seq<char>, c: char)
    requires
        s.len() > 0,
        s.last() != 'r' && s.last() != 'g' && s.last() != 'b' && s.last() != 'a' && s.last() != 'x' && s.last()
            != 'y',
        c == 'r' || c == 'g' || c == 'b' || c == 'a' || c == 'x' || c == 'y',
    ensures
        base_of(s + seq!['_', c]) == s,
        base_of(s) == s,
{
    reveal_strlit("_r");
    reveal_strlit("_g");
    reveal_strlit("_b");
    reveal_strlit("_a");
    reveal_strlit("_x");
    reveal_strlit("_y");
    assert("_r"@ =~= seq!['_', 'r']);
    assert("_g"@ =~= seq!['_', 'g']);
    assert("_b"@ =~= seq!['_', 'b']);
    assert("_a"@ =~= seq!['_', 'a']);
    assert("_x"@ =~= seq!['_', 'x']);
    assert("_y"@ =~= seq!['_', 'y']);
    lemma_off(s, c, 'r');
    lemma_off(s, c, 'g');
    lemma_off(s, c, 'b');
    lemma_off(s, c, 'a');
    lemma_off(s, c, 'x');
    lemma_off(s, c, 'y');
}

proof fn lemma_off(s: Seq<char>, c: char, d: char)
    requires
        s.len() > 0,
        s.last() != d,
    ensures
        without_suffix(s, seq!['_', d]) == s,
        without_suffix(s + seq!['_', c], seq!['_', d]) == (if c == d {
            s
        } else {
            s + seq!['_', c]
        }),
{
    let p = seq!['_', d];
    let t = s + seq!['_', c];
    if s.len() >= 2 {
        assert(s.subrange(s.len() - 2, s.len() as int)[1] == s.last());
        assert(p[1] == d);
    }
    assert(t.subrange(t.len() - 2, t.len() as int) =~= seq!['_', c]);
    assert(seq!['_', c][1] == c);
    if c == d {
        assert(t.take(t.len() - 2) =~= s);
        reveal_with_fuel(without_suffix, 2);
    } else {
        assert(seq!['_', c] != p);
    }
}

/// Law: every effect that the order lists has its passes in the chain, together and in their order, and
/// the chain holds nothing else: it is as long as all of them.
pub proof fn law_chain_holds_every_effect(
    evals: Seq<EvalEffect>,
    order: Seq<usize>,
    k: int,
    time: u32,
    screen: (u32, u32),
)
    requires
        0 <= k < order.len(),
    ensures
        ({
            let c = chain(evals, order, time, screen);
            let before = chain(evals, order.take(k), time, screen);
            let own = passes_of(evals[order[k] as int], time, screen);
            &&& before.len() + own.len() <= c.len()
            &&& c.subrange(before.len() as int, (before.len() + own.len()) as int) == own
            &&& c.take(before.len() as int) == before
            &&& k == order.len() - 1 ==> c.len() == before.len() + own.len()
        }),
    decreases order.len(),
{
    let c = chain(evals, order, time, screen);
    let before = chain(evals, order.take(k), time, screen);
    let own = passes_of(evals[order[k] as int], time, screen);
    let rest = chain(evals, order.drop_last(), time, screen);
    let last = passes_of(evals[order.last() as int], time, screen);
    assert(c == rest + last);
    if k == order.len() - 1 {
        assert(order.take(k) =~= order.drop_last());
        assert(c.subrange(before.len() as int, (before.len() + own.len()) as int) =~= own);
        assert(c.take(before.len() as int) =~= before);
    } else {
        law_chain_holds_every_effect(evals, order.drop_last(), k, time, screen);
        assert(order.drop_last().take(k) =~= order.take(k));
        assert(c.subrange(before.len() as int, (before.len() + own.len()) as int) =~= rest.subrange(
            before.len() as int,
            (before.len() + own.len()) as int,
        ));
        assert(c.take(before.len() as int) =~= rest.take(before.len() as int));
    }
}

/// Law: the effects that run at half resolution.
pub proof fn law_half_resolution(i: int)
    requires
        0 <= i < 13,
    ensures
        half_res(name_of(i)) <==> i == 0 || i == 1 || i == 2 || i == 3 || i == 7 || i == 9,
{
    lemma_found_distinct();
}

} // verus!
