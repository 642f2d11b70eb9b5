//! Custom effects in GLSL: telling GLSL from WGSL, rewriting ES sources for glslang, the std140
//! layout of their uniforms, and compiling them to SPIR-V.

use vstd::prelude::*;

use crate::strings::{
    begins, chars_of, contains, decimal, find_ink, lines, lines_of, matches_at, occurs, part,
    push_decimal, replace, replaced, same, stands_at, starts_with, string_of, texts, trim,
    trim_start, trimmed,
};

verus! {

/// A call that samples a texture by name.
pub const TEXTURE_CALL: &'static str = r"texture2D\(\s*([A-Za-z_]\w*)\s*,";

/// What such a call becomes: image and sampler are separate.
pub const SEPARATE_CALL: &'static str = "texture(sampler2D($1, ${1}_smp),";

/// The declaration of a sampler: its type and its name.
pub const SAMPLER: &'static str =
    r"uniform\s+(sampler2D|sampler3D|samplerCube|sampler2DArray|samplerCubeArray)\s+(\w+)\s*;";

/// The declaration of a uniform variable: its type and its name.
pub const UNIFORM: &'static str =
    r"uniform\s+(float|int|uint|bool|vec[234]|ivec[234]|uvec[234]|bvec[234]|mat[234])\s+(\w+)\s*;";

/// The vertex shader in front of every GLSL effect: one triangle over the whole screen.
pub const GLSL_VERT: &'static str = r"#version 450
layout(location = 0) out vec2 v_uv;
void main() {
    vec2 verts[3] = vec2[3](vec2(-1.0, -1.0), vec2(3.0, -1.0), vec2(-1.0, 3.0));
    vec2 uvs[3] = vec2[3](vec2(0.0, 0.0), vec2(2.0, 0.0), vec2(0.0, 2.0));
    gl_Position = vec4(verts[gl_VertexIndex], 0.0, 1.0);
    v_uv = vec2(uvs[gl_VertexIndex].x, 1.0 - uvs[gl_VertexIndex].y);
}
";

/// Whether a source is GLSL: a version directive in front, or a name that only GLSL has.
pub open spec fn glsl_source(body: Seq<char>) -> bool {
    ||| begins(trim_start(body), "#version"@)
    ||| occurs(body, "gl_FragColor"@)
    ||| occurs(body, "gl_Position"@)
    ||| occurs(body, "gl_FragCoord"@)
    ||| occurs(body, "attribute "@)
    ||| occurs(body, "varying "@)
}

fn trimmed_front(s: &str) -> (r: String)
    ensures
        r@ == trim_start(s@),
{
    let v: Vec<char> = chars_of(s);
    let a: usize = find_ink(&v, 0);
    let rest: Vec<char> = part(&v, a, v.len());
    proof {
        assert(rest@ == v@.skip(a as int));
    }
    string_of(&rest)
}

/// Whether a source is GLSL rather than WGSL.
pub fn is_glsl_source(body: &str) -> (r: bool)
    ensures
        r == glsl_source(body@),
{
    let t: String = trimmed_front(body);
    starts_with(t.as_str(), "#version") || contains(body, "gl_FragColor") || contains(
        body,
        "gl_Position",
    ) || contains(body, "gl_FragCoord") || contains(body, "attribute ") || contains(
        body,
        "varying ",
    )
}

/// The alignment and size of a GLSL type in a std140 block, for a type name without white space
/// around it.
pub open spec fn std140_of(ty: Seq<char>) -> (u32, u32) {
    if ty == "float"@ || ty == "int"@ || ty == "uint"@ || ty == "bool"@ {
        (4, 4)
    } else if ty == "vec2"@ || ty == "ivec2"@ || ty == "uvec2"@ || ty == "bvec2"@ {
        (8, 8)
    } else if ty == "vec3"@ || ty == "ivec3"@ || ty == "uvec3"@ || ty == "bvec3"@ {
        (16, 12)
    } else if ty == "vec4"@ || ty == "ivec4"@ || ty == "uvec4"@ || ty == "bvec4"@ {
        (16, 16)
    } else if ty == "mat2"@ {
        (16, 32)
    } else if ty == "mat3"@ {
        (16, 48)
    } else if ty == "mat4"@ {
        (16, 64)
    } else {
        (4, 4)
    }
}

/// The alignment and size of a GLSL type in a std140 block.
pub fn std140_layout(ty: &str) -> (r: (u32, u32))
    ensures
        r == std140_of(trimmed(ty@)),
{
    let v: Vec<char> = chars_of(ty);
    let tv: Vec<char> = trim(&v);
    let t: String = string_of(&tv);
    let s: &str = t.as_str();
    if same(s, "float") || same(s, "int") || same(s, "uint") || same(s, "bool") {
        (4, 4)
    } else if same(s, "vec2") || same(s, "ivec2") || same(s, "uvec2") || same(s, "bvec2") {
        (8, 8)
    } else if same(s, "vec3") || same(s, "ivec3") || same(s, "uvec3") || same(s, "bvec3") {
        (16, 12)
    } else if same(s, "vec4") || same(s, "ivec4") || same(s, "uvec4") || same(s, "bvec4") {
        (16, 16)
    } else if same(s, "mat2") {
        (16, 32)
    } else if same(s, "mat3") {
        (16, 48)
    } else if same(s, "mat4") {
        (16, 64)
    } else {
        (4, 4)
    }
}

/// The first two groups of the first match of a pattern in a text, where there are any.
pub uninterp spec fn regex_groups(pattern: Seq<char>, text: Seq<char>) -> Option<
    (Seq<char>, Seq<char>),
>;

/// `regex::Regex::new` and `Regex::captures`: the texts of the first two groups of the leftmost
/// match. Only that they are a function of pattern and text is stated.
#[verifier::external_body]
fn match_groups(pattern: &str, text: &str) -> (r: Option<(String, String)>)
    ensures
        match r {
            Some((a, b)) => regex_groups(pattern@, text@) == Some((a@, b@)),
            None => regex_groups(pattern@, text@) is None,
        },
{
    let re: regex::Regex = regex::Regex::new(pattern).ok()?;
    let caps: regex::Captures = re.captures(text)?;
    Some((caps.get(1)?.as_str().to_owned(), caps.get(2)?.as_str().to_owned()))
}

/// A text with every match of a pattern replaced by a template.
pub uninterp spec fn regex_replaced(
    pattern: Seq<char>,
    text: Seq<char>,
    template: Seq<char>,
) -> Seq<char>;

/// `regex::Regex::new` and `Regex::replace_all`: every match replaced by the template with its
/// group references filled in. Only that the result is a function of the three texts is stated.
#[verifier::external_body]
fn replace_matches(pattern: &str, text: &str, template: &str) -> (r: String)
    ensures
        r@ == regex_replaced(pattern@, text@, template@),
{
    match regex::Regex::new(pattern) {
        Ok(re) => re.replace_all(text, template).into_owned(),
        Err(_) => text.to_owned(),
    }
}

/// A uniform variable: its name and its type.
pub struct UniformVar {
    pub name: String,
    pub ty: String,
}

/// The names and types of uniform variables.
pub open spec fn vars_view(v: Seq<UniformVar>) -> Seq<(Seq<char>, Seq<char>)> {
    v.map_values(|u: UniformVar| (u.name@, u.ty@))
}

/// The uniform variables that lines declare, name and type, in order.
pub open spec fn declared(ls: Seq<Seq<char>>) -> Seq<(Seq<char>, Seq<char>)>
    decreases ls.len(),
{
    if ls.len() == 0 {
        Seq::empty()
    } else {
        match regex_groups(UNIFORM@, trim_start(ls.last())) {
            Some((ty, name)) => declared(ls.drop_last()).push((name, ty)),
            None => declared(ls.drop_last()),
        }
    }
}

/// `s` with the first occurrence of `p` replaced by `q`.
pub open spec fn replaced_first(s: Seq<char>, p: Seq<char>, q: Seq<char>) -> Seq<char>
    decreases s.len(),
{
    if s.len() < p.len() || s.len() == 0 {
        s
    } else if stands_at(s, p, 0) {
        q + s.skip(p.len() as int)
    } else {
        seq![s[0]] + replaced_first(s.skip(1), p, q)
    }
}

fn replace_first(s: &str, p: &str, q: &str) -> (r: String)
    ensures
        r@ == replaced_first(s@, p@, q@),
{
    let v: Vec<char> = chars_of(s);
    let pat: Vec<char> = chars_of(p);
    let mut out: String = String::new();
    let mut i: usize = 0;
    proof {
        assert(v@.skip(0) == v@);
        assert(out@ + replaced_first(v@, p@, q@) == replaced_first(v@, p@, q@));
    }
    while i < v.len()
        invariant
            v@ == s@,
            pat@ == p@,
            i <= v.len(),
            out@ + replaced_first(v@.skip(i as int), p@, q@) == replaced_first(v@, p@, q@),
        decreases v.len() - i,
    {
        let ghost tail = v@.skip(i as int);
        let ghost before = out@;
        let hit: bool = matches_at(&v, &pat, i);
        proof {
            if i + p@.len() <= v@.len() {
                assert(tail.subrange(0, p@.len() as int) == v@.subrange(i as int, i + p@.len()));
            }
            assert(stands_at(tail, p@, 0) == hit);
        }
        if hit {
            out.append(q);
            let rest: Vec<char> = part(&v, i + pat.len(), v.len());
            let tail_text: String = string_of(&rest);
            out.append(tail_text.as_str());
            proof {
                assert(tail.skip(p@.len() as int) == rest@);
                assert(out@ == before + (q@ + rest@));
            }
            return out;
        }
        if v.len() - i < pat.len() {
            let rest: Vec<char> = part(&v, i, v.len());
            let tail_text: String = string_of(&rest);
            out.append(tail_text.as_str());
            proof {
                assert(tail == rest@);
            }
            return out;
        }
        out.push(v[i]);
        proof {
            assert(tail.skip(1) == v@.skip(i + 1));
            assert(before + (seq![v@[i as int]] + replaced_first(v@.skip(i + 1), p@, q@))
                == before.push(v@[i as int]) + replaced_first(v@.skip(i + 1), p@, q@));
        }
        i = i + 1;
    }
    proof {
        assert(v@.skip(i as int).len() == 0);
        assert(out@ + v@.skip(i as int) == out@);
    }
    out
}

/// A line with the ES names turned into those of desktop GLSL.
pub open spec fn renamed(line: Seq<char>) -> Seq<char> {
    replaced(
        replaced(replaced(line, "varying"@, "in"@), "attribute"@, "in"@),
        "gl_FragColor"@,
        "fragColor_out"@,
    )
}

/// Whether a line is a version directive.
pub open spec fn is_version(line: Seq<char>) -> bool {
    begins(trim_start(line), "#version"@)
}

/// Whether a line goes into the result under a location of its own.
pub open spec fn is_input(line: Seq<char>) -> bool {
    let t = trim_start(line);
    &&& !is_version(line)
    &&& !begins(t, "precision "@)
    &&& regex_groups(UNIFORM@, t) is None
    &&& !begins(t, "uniform "@)
    &&& begins(trim_start(renamed(line)), "in "@)
    &&& !occurs(renamed(line), "layout("@)
}

/// How many of the lines are inputs.
pub open spec fn inputs(ls: Seq<Seq<char>>) -> nat
    decreases ls.len(),
{
    if ls.len() == 0 {
        0
    } else {
        inputs(ls.drop_last()) + (if is_input(ls.last()) {
            1nat
        } else {
            0
        })
    }
}

/// The two declarations that stand for a sampler of type `ty` and name `name`.
pub open spec fn separate(ty: Seq<char>, name: Seq<char>) -> Seq<char> {
    "layout(binding = 0) uniform "@ + replaced_first(ty, "sampler"@, "texture"@) + " "@ + name
        + ";\nlayout(binding = 1) uniform sampler "@ + name + "_smp;\n"@
}

/// What a line other than the first version directive becomes, `at` inputs standing before it.
/// Version directives, precisions and uniforms vanish, except that a sampler is declared anew.
pub open spec fn rewritten(line: Seq<char>, at: nat) -> Seq<char> {
    let t = trim_start(line);
    let l = renamed(line);
    if is_version(line) || begins(t, "precision "@) || regex_groups(UNIFORM@, t) is Some {
        Seq::empty()
    } else if begins(t, "uniform "@) {
        match regex_groups(SAMPLER@, t) {
            Some((ty, name)) => separate(ty, name),
            None => Seq::empty(),
        }
    } else if is_input(line) {
        replaced_first(l, "in"@, "layout(location = "@ + decimal(at) + ") in"@) + "\n"@
    } else {
        regex_replaced(TEXTURE_CALL@, l, SEPARATE_CALL@) + "\n"@
    }
}

/// The lines from `from` to `to` rewritten, one after the other; inputs are counted from the
/// start of the source.
pub open spec fn rewritten_lines(ls: Seq<Seq<char>>, from: int, to: int) -> Seq<char>
    decreases to - from,
{
    if to <= from {
        Seq::empty()
    } else {
        rewritten_lines(ls, from, to - 1) + rewritten(ls[to - 1], inputs(ls.take(to - 1)))
    }
}

/// The index of the first version directive, or the number of lines.
pub open spec fn version_line(ls: Seq<Seq<char>>, from: int) -> int
    decreases ls.len() - from,
{
    if from >= ls.len() {
        ls.len() as int
    } else if is_version(ls[from]) {
        from
    } else {
        version_line(ls, from + 1)
    }
}

/// An offset moved up to the next multiple of `align`.
pub open spec fn aligned(at: nat, align: nat) -> nat {
    (at + align - 1) as nat / align * align
}

/// Where a std140 block with these variables ends.
pub open spec fn block_end(vars: Seq<(Seq<char>, Seq<char>)>) -> nat
    decreases vars.len(),
{
    if vars.len() == 0 {
        0
    } else {
        let (align, size) = std140_of(trimmed(vars.last().1));
        aligned(block_end(vars.drop_last()), align as nat) + size as nat
    }
}

/// The offset and size of variable `i` of a std140 block.
pub open spec fn slot(vars: Seq<(Seq<char>, Seq<char>)>, i: int) -> (nat, nat) {
    let (align, size) = std140_of(trimmed(vars[i].1));
    (aligned(block_end(vars.take(i)), align as nat), size as nat)
}

/// The declarations inside the block.
pub open spec fn members(vars: Seq<(Seq<char>, Seq<char>)>) -> Seq<char>
    decreases vars.len(),
{
    if vars.len() == 0 {
        Seq::empty()
    } else {
        members(vars.drop_last()) + ("    "@ + vars.last().1 + " "@ + vars.last().0 + ";\n"@)
    }
}

/// The uniform block; nothing where there are no variables.
pub open spec fn block(vars: Seq<(Seq<char>, Seq<char>)>) -> Seq<char> {
    if vars.len() == 0 {
        Seq::empty()
    } else {
        "layout(binding = 2) uniform Params {\n"@ + members(vars) + "};\n"@
    }
}

/// The declaration of the colour that the source writes; nothing where it writes none.
pub open spec fn output(src: Seq<char>) -> Seq<char> {
    if occurs(src, "gl_FragColor"@) {
        "layout(location = 0) out vec4 fragColor_out;\n"@
    } else {
        Seq::empty()
    }
}

/// The rewritten source: the version directive, in place of the first one or in front, and
/// behind it the uniform block and the declaration of the colour that is written.
pub open spec fn converted(src: Seq<char>) -> Seq<char> {
    let ls = lines_of(src);
    let k = version_line(ls, 0);
    let n = ls.len() as int;
    let head = "#version 450\n"@ + block(declared(ls)) + output(src);
    if k < n {
        rewritten_lines(ls, 0, k) + head + rewritten_lines(ls, k + 1, n)
    } else {
        head + rewritten_lines(ls, 0, n)
    }
}

/// A source rewritten for glslang.
pub struct Converted {
    pub source: String,
    /// The number of uniform buffers: 1 where there are uniform variables, else 0.
    pub uniform_count: usize,
    /// Offset and size of each uniform variable in its std140 block.
    pub layout: Vec<(u32, u32)>,
}

fn rename(line: &str) -> (r: String)
    ensures
        r@ == renamed(line@),
{
    proof {
        reveal_strlit("varying");
        reveal_strlit("attribute");
        reveal_strlit("gl_FragColor");
    }
    let a: String = replace(line, "varying", "in");
    let b: String = replace(a.as_str(), "attribute", "in");
    replace(b.as_str(), "gl_FragColor", "fragColor_out")
}

fn rewrite(line: &str, at: u64) -> (r: (String, bool))
    ensures
        r.0@ == rewritten(line@, at as nat),
        r.1 == is_input(line@),
{
    let front: String = trimmed_front(line);
    let t: &str = front.as_str();
    if starts_with(t, "#version") || starts_with(t, "precision ") {
        return (String::new(), false);
    }
    if match_groups(UNIFORM, t).is_some() {
        return (String::new(), false);
    }
    let l: String = rename(line);
    let mut out: String = String::new();
    if starts_with(t, "uniform ") {
        if let Some((ty, name)) = match_groups(SAMPLER, t) {
            let image: String = replace_first(ty.as_str(), "sampler", "texture");
            out.append("layout(binding = 0) uniform ");
            out.append(image.as_str());
            out.append(" ");
            out.append(name.as_str());
            out.append(";\nlayout(binding = 1) uniform sampler ");
            out.append(name.as_str());
            out.append("_smp;\n");
            proof {
                assert(out@ == separate(ty@, name@));
            }
        }
        return (out, false);
    }
    let lf: String = trimmed_front(l.as_str());
    if starts_with(lf.as_str(), "in ") && !contains(l.as_str(), "layout(") {
        let mut q: String = "layout(location = ".to_owned();
        push_decimal(&mut q, at);
        q.append(") in");
        let mut m: String = replace_first(l.as_str(), "in", q.as_str());
        m.append("\n");
        return (m, true);
    }
    let mut m: String = replace_matches(TEXTURE_CALL, l.as_str(), SEPARATE_CALL);
    m.append("\n");
    (m, false)
}

fn collect_vars(ls: &Vec<String>) -> (r: Vec<UniformVar>)
    ensures
        vars_view(r@) == declared(texts(ls@)),
{
    let ghost lines = texts(ls@);
    let mut vars: Vec<UniformVar> = Vec::new();
    let mut i: usize = 0;
    proof {
        assert(lines.take(0).len() == 0);
        assert(vars_view(vars@) == Seq::<(Seq<char>, Seq<char>)>::empty());
    }
    while i < ls.len()
        invariant
            i <= ls.len(),
            lines == texts(ls@),
            vars_view(vars@) == declared(lines.take(i as int)),
        decreases ls.len() - i,
    {
        let t: String = trimmed_front(ls[i].as_str());
        let ghost before = vars_view(vars@);
        proof {
            assert(lines.take(i + 1).drop_last() == lines.take(i as int));
            assert(lines.take(i + 1).last() == ls@[i as int]@);
        }
        if let Some((ty, name)) = match_groups(UNIFORM, t.as_str()) {
            let u: UniformVar = UniformVar { name, ty };
            vars.push(u);
            proof {
                assert(vars_view(vars@) == before.push((u.name@, u.ty@)));
            }
        }
        i = i + 1;
    }
    proof {
        assert(lines.take(lines.len() as int) == lines);
    }
    vars
}

proof fn lemma_aligned(at: nat, align: nat)
    requires
        align == 4 || align == 8 || align == 16,
    ensures
        at <= aligned(at, align) < at + align,
        aligned(at, align) % align == 0,
{
    if align == 4 {
    } else if align == 8 {
    }
}

proof fn lemma_block_grows(vars: Seq<(Seq<char>, Seq<char>)>, i: int)
    requires
        0 <= i <= vars.len(),
    ensures
        block_end(vars.take(i)) <= block_end(vars),
    decreases vars.len() - i,
{
    if i == vars.len() {
        assert(vars.take(i) == vars);
    } else {
        let t = vars.take(i + 1);
        assert(t.drop_last() == vars.take(i));
        lemma_aligned(block_end(vars.take(i)), std140_of(trimmed(t.last().1)).0 as nat);
        lemma_block_grows(vars, i + 1);
    }
}

fn next_slot(cursor: u32, align: u32) -> (r: u64)
    requires
        align == 4 || align == 8 || align == 16,
    ensures
        r == aligned(cursor as nat, align as nat),
{
    let at: u64 = cursor as u64;
    if align == 4 {
        (at + 3) / 4 * 4
    } else if align == 8 {
        (at + 7) / 8 * 8
    } else {
        (at + 15) / 16 * 16
    }
}

/// Whether the offsets of the uniforms of a source fit in 32 bits.
pub open spec fn block_fits(src: Seq<char>) -> bool {
    block_end(declared(lines_of(src))) <= u32::MAX
}

/// Whether the offsets of the uniforms of a source fit in 32 bits.
pub fn uniforms_fit(src: &str) -> (r: bool)
    ensures
        r == block_fits(src@),
{
    let all: Vec<char> = chars_of(src);
    let ls: Vec<String> = lines(&all);
    let vars: Vec<UniformVar> = collect_vars(&ls);
    let ghost vs = vars_view(vars@);
    let mut cursor: u32 = 0;
    let mut i: usize = 0;
    proof {
        assert(vs.take(0).len() == 0);
    }
    while i < vars.len()
        invariant
            i <= vars.len(),
            vs == vars_view(vars@),
            vs == declared(lines_of(src@)),
            cursor == block_end(vs.take(i as int)),
        decreases vars.len() - i,
    {
        let (align, size) = std140_layout(vars[i].ty.as_str());
        proof {
            assert(vs[i as int] == (vars@[i as int].name@, vars@[i as int].ty@));
            assert(vs.take(i + 1).drop_last() == vs.take(i as int));
            assert(vs.take(i + 1).last() == vs[i as int]);
            lemma_aligned(cursor as nat, align as nat);
            lemma_block_grows(vs, i + 1);
        }
        let end: u64 = next_slot(cursor, align) + size as u64;
        if end > u32::MAX as u64 {
            return false;
        }
        cursor = end as u32;
        i = i + 1;
    }
    proof {
        assert(vs.take(vs.len() as int) == vs);
    }
    true
}

fn lay_out(vars: &Vec<UniformVar>) -> (r: (Vec<(u32, u32)>, String))
    requires
        block_end(vars_view(vars@)) <= u32::MAX,
    ensures
        r.0@.len() == vars.len(),
        forall|i: int|
            0 <= i < vars.len() ==> (#[trigger] r.0@[i]).0 as nat == slot(vars_view(vars@), i).0
                && r.0@[i].1 as nat == slot(vars_view(vars@), i).1,
        r.1@ == members(vars_view(vars@)),
{
    let ghost vs = vars_view(vars@);
    let mut layout: Vec<(u32, u32)> = Vec::new();
    let mut inner: String = String::new();
    let mut cursor: u32 = 0;
    let mut i: usize = 0;
    proof {
        assert(vs.take(0).len() == 0);
    }
    while i < vars.len()
        invariant
            i <= vars.len(),
            vs == vars_view(vars@),
            block_end(vs) <= u32::MAX,
            layout@.len() == i,
            cursor == block_end(vs.take(i as int)),
            inner@ == members(vs.take(i as int)),
            forall|j: int|
                0 <= j < i ==> (#[trigger] layout@[j]).0 as nat == slot(vs, j).0
                    && layout@[j].1 as nat == slot(vs, j).1,
        decreases vars.len() - i,
    {
        let (align, size) = std140_layout(vars[i].ty.as_str());
        let ghost at = cursor;
        let ghost before = inner@;
        proof {
            assert(vs[i as int] == (vars@[i as int].name@, vars@[i as int].ty@));
            assert(vs.take(i + 1).drop_last() == vs.take(i as int));
            assert(vs.take(i + 1).last() == vs[i as int]);
            lemma_block_grows(vs, i + 1);
        }
        let start: u32 = next_slot(cursor, align) as u32;
        layout.push((start, size));
        inner.append("    ");
        inner.append(vars[i].ty.as_str());
        inner.append(" ");
        inner.append(vars[i].name.as_str());
        inner.append(";\n");
        proof {
            assert(start == aligned(at as nat, align as nat));
            assert(inner@ == before + ("    "@ + vs[i as int].1 + " "@ + vs[i as int].0 + ";\n"@));
        }
        cursor = start + size;
        i = i + 1;
    }
    proof {
        assert(vs.take(vs.len() as int) == vs);
    }
    (layout, inner)
}

proof fn lemma_no_version(ls: Seq<Seq<char>>, from: int, k: int)
    requires
        0 <= from <= k <= ls.len(),
        forall|j: int| from <= j < k ==> !is_version(#[trigger] ls[j]),
        k < ls.len() ==> is_version(ls[k]),
    ensures
        version_line(ls, from) == k,
    decreases k - from,
{
    if from < k {
        lemma_no_version(ls, from + 1, k);
    }
}

/// Rewrites a GLSL source for glslang.
pub fn glsl_for_glslang(src: &str) -> (r: Converted)
    requires
        block_fits(src@),
    ensures
        r.source@ == converted(src@),
        ({
            let vars = declared(lines_of(src@));
            &&& r.uniform_count == (if vars.len() > 0 {
                1int
            } else {
                0
            })
            &&& r.layout@.len() == vars.len()
            &&& forall|i: int|
                0 <= i < vars.len() ==> (#[trigger] r.layout@[i]).0 as nat == slot(vars, i).0
                    && r.layout@[i].1 as nat == slot(vars, i).1
        }),
{
    let all: Vec<char> = chars_of(src);
    let ls: Vec<String> = lines(&all);
    let ghost lns = texts(ls@);
    let vars: Vec<UniformVar> = collect_vars(&ls);
    let ghost vs = vars_view(vars@);
    let (layout, inner) = lay_out(&vars);
    let mut head: String = "#version 450\n".to_owned();
    if vars.len() > 0 {
        head.append("layout(binding = 2) uniform Params {\n");
        head.append(inner.as_str());
        head.append("};\n");
    }
    let ghost with_block = head@;
    proof {
        assert(with_block == "#version 450\n"@ + block(vs));
    }
    if contains(src, "gl_FragColor") {
        head.append("layout(location = 0) out vec4 fragColor_out;\n");
    }
    proof {
        assert(head@ == "#version 450\n"@ + block(vs) + output(src@));
    }
    let mut before: String = String::new();
    let mut after: String = String::new();
    let mut found: bool = false;
    let mut at: u64 = 0;
    let mut i: usize = 0;
    let ghost mut k: int = 0;
    proof {
        assert(lns.take(0).len() == 0);
    }
    while i < ls.len()
        invariant
            i <= ls.len(),
            lns == texts(ls@),
            at == inputs(lns.take(i as int)),
            at <= i,
            found ==> 0 <= k < i && is_version(lns[k]) && (forall|j: int|
                0 <= j < k ==> !is_version(#[trigger] lns[j])) && before@ == rewritten_lines(
                lns,
                0,
                k,
            ) && after@ == rewritten_lines(lns, k + 1, i as int),
            !found ==> (forall|j: int| 0 <= j < i ==> !is_version(#[trigger] lns[j])) && before@
                == rewritten_lines(lns, 0, i as int) && after@ == Seq::<char>::empty(),
        decreases ls.len() - i,
    {
        let (piece, input) = rewrite(ls[i].as_str(), at);
        let front: String = trimmed_front(ls[i].as_str());
        let version: bool = starts_with(front.as_str(), "#version");
        proof {
            assert(lns[i as int] == ls@[i as int]@);
            assert(lns.take(i + 1).drop_last() == lns.take(i as int));
            assert(lns.take(i + 1).last() == lns[i as int]);
        }
        if found {
            after.append(piece.as_str());
        } else if version {
            found = true;
            proof {
                k = i as int;
            }
        } else {
            before.append(piece.as_str());
        }
        if input {
            at = at + 1;
        }
        i = i + 1;
    }
    let mut out: String = String::new();
    if found {
        out.append(before.as_str());
        out.append(head.as_str());
        out.append(after.as_str());
        proof {
            lemma_no_version(lns, 0, k);
            assert(out@ == before@ + head@ + after@);
        }
    } else {
        out.append(head.as_str());
        out.append(before.as_str());
        proof {
            lemma_no_version(lns, 0, lns.len() as int);
            assert(out@ == head@ + before@);
        }
    }
    let uniform_count: usize = if vars.len() > 0 {
        1
    } else {
        0
    };
    Converted { source: out, uniform_count, layout }
}

/// Law: the uniforms of a block are each aligned as their type asks, and none overlaps one
/// before it.
pub proof fn law_std140_slots(vars: Seq<(Seq<char>, Seq<char>)>, i: int, j: int)
    requires
        0 <= i < j < vars.len(),
    ensures
        slot(vars, j).0 % std140_of(trimmed(vars[j].1)).0 as nat == 0,
        slot(vars, i).0 + slot(vars, i).1 <= slot(vars, j).0,
    decreases j - i,
{
    let (align, size) = std140_of(trimmed(vars[j].1));
    lemma_aligned(block_end(vars.take(j)), align as nat);
    let t = vars.take(j);
    assert(t.drop_last() == vars.take(j - 1));
    assert(t.last() == vars[j - 1]);
    let (align1, size1) = std140_of(trimmed(vars[j - 1].1));
    assert(block_end(t) == aligned(block_end(vars.take(j - 1)), align1 as nat) + size1 as nat);
    if i < j - 1 {
        law_std140_slots(vars, i, j - 1);
    }
}

/// A source with every character that glslang cannot read, which can only stand in a comment,
/// replaced by one that is no part of GLSL.
pub open spec fn readable(s: Seq<char>) -> Seq<char> {
    s.map_values(
        |c: char|
            if 0 < c as u32 && (c as u32) < 128 {
                c
            } else {
                '@'
            },
    )
}

/// Whether glslang can read every character of a source.
pub open spec fn is_readable(s: Seq<char>) -> bool {
    forall|i: int| 0 <= i < s.len() ==> 0 < #[trigger] s[i] as u32 && (s[i] as u32) < 128
}

fn make_readable(s: &str) -> (r: String)
    ensures
        r@ == readable(s@),
        is_readable(r@),
{
    let v: Vec<char> = chars_of(s);
    let mut out: String = String::new();
    let mut i: usize = 0;
    while i < v.len()
        invariant
            v@ == s@,
            i <= v.len(),
            out@ == readable(s@).take(i as int),
            is_readable(out@),
        decreases v.len() - i,
    {
        let c: char = v[i];
        let n: u32 = c as u32;
        if 0 < n && n < 128 {
            out.push(c);
        } else {
            out.push('@');
        }
        i = i + 1;
    }
    out
}

/// The SPIR-V that glslang makes of a source in a stage: the fragment stage or the vertex stage.
pub uninterp spec fn spirv(source: Seq<char>, fragment: bool) -> Option<Seq<u32>>;

/// The words of a compiled shader.
pub open spec fn words(w: Option<Vec<u32>>) -> Option<Seq<u32>> {
    match w {
        Some(v) => Some(v@),
        None => None,
    }
}

/// `glslang::Compiler::acquire`, `ShaderInput::new` with the default options,
/// `Compiler::create_shader` and `Shader::compile`: the SPIR-V words, or `None` inside where the
/// source is rejected; `None` outside where there is no compiler, of which nothing is stated.
/// That the words are a function of source and stage is all that is stated of them.
#[verifier::external_body]
fn glslang_compile(source: &str, fragment: bool) -> (r: Option<Option<Vec<u32>>>)
    requires
        is_readable(source@),
    ensures
        r matches Some(w) ==> words(w) == spirv(source@, fragment),
{
    let compiler = glslang::Compiler::acquire()?;
    let text = glslang::ShaderSource::from(source);
    let stage = if fragment { glslang::ShaderStage::Fragment } else { glslang::ShaderStage::Vertex };
    let options = glslang::CompilerOptions::default();
    let defines = None::<&[(&str, Option<&str>)]>;
    let compiled = glslang::ShaderInput::new(&text, stage, &options, defines, None)
        .and_then(|input| compiler.create_shader(input))
        .and_then(|shader| shader.compile());
    Some(compiled.ok())
}

/// A compiled GLSL effect.
pub struct GlslProgram {
    pub vertex: Vec<u32>,
    pub fragment: Vec<u32>,
    pub uniform_count: usize,
    pub layout: Vec<(u32, u32)>,
}

/// Why a GLSL effect was skipped.
#[derive(Clone, Copy, PartialEq, Eq, Structural, Debug)]
pub enum GlslError {
    /// The offsets of the uniforms do not fit in 32 bits.
    TooLong,
    /// There is no compiler.
    NoCompiler,
    /// The vertex shader does not compile.
    Vertex,
    /// The source does not compile.
    Fragment,
}

/// The shaders of an effect out of what the compiler made of its two stages.
pub open spec fn linked(vertex: Option<Seq<u32>>, fragment: Option<Seq<u32>>) -> Result<
    (Seq<u32>, Seq<u32>),
    GlslError,
> {
    match vertex {
        None => Err(GlslError::Vertex),
        Some(v) => if v.len() == 0 {
            Err(GlslError::Vertex)
        } else {
            match fragment {
                None => Err(GlslError::Fragment),
                Some(f) => Ok((v, f)),
            }
        },
    }
}

/// The words of both stages, or the error.
pub open spec fn linked_view(r: Result<(Vec<u32>, Vec<u32>), GlslError>) -> Result<
    (Seq<u32>, Seq<u32>),
    GlslError,
> {
    match r {
        Ok((v, f)) => Ok((v@, f@)),
        Err(e) => Err(e),
    }
}

/// Puts together what the compiler made of the two stages.
pub fn link_stages(vertex: Option<Vec<u32>>, fragment: Option<Vec<u32>>) -> (r: Result<
    (Vec<u32>, Vec<u32>),
    GlslError,
>)
    ensures
        linked_view(r) == linked(words(vertex), words(fragment)),
{
    match vertex {
        None => Err(GlslError::Vertex),
        Some(v) => {
            if v.len() == 0 {
                return Err(GlslError::Vertex);
            }
            match fragment {
                None => Err(GlslError::Fragment),
                Some(f) => Ok((v, f)),
            }
        },
    }
}

/// Rewrites and compiles a GLSL effect.
pub fn build_glsl(body: &str) -> (r: Result<GlslProgram, GlslError>)
    ensures
        !block_fits(body@) <==> r == Err::<GlslProgram, GlslError>(GlslError::TooLong),
        match r {
            Ok(p) => {
                let vars = declared(lines_of(body@));
                &&& linked(spirv(readable(GLSL_VERT@), false), spirv(readable(converted(body@)), true))
                    == Ok::<(Seq<u32>, Seq<u32>), GlslError>((p.vertex@, p.fragment@))
                &&& p.uniform_count == (if vars.len() > 0 {
                    1int
                } else {
                    0
                })
                &&& p.layout@.len() == vars.len()
                &&& forall|i: int|
                    0 <= i < vars.len() ==> (#[trigger] p.layout@[i]).0 as nat == slot(vars, i).0
                        && p.layout@[i].1 as nat == slot(vars, i).1
            },
            Err(GlslError::TooLong) => true,
            Err(GlslError::NoCompiler) => true,
            Err(e) => linked(
                spirv(readable(GLSL_VERT@), false),
                spirv(readable(converted(body@)), true),
            ) == Err::<(Seq<u32>, Seq<u32>), GlslError>(e),
        },
{
    if !uniforms_fit(body) {
        return Err(GlslError::TooLong);
    }
    let conv: Converted = glsl_for_glslang(body);
    let vert: String = make_readable(GLSL_VERT);
    let frag: String = make_readable(conv.source.as_str());
    let vs: Option<Vec<u32>> = match glslang_compile(vert.as_str(), false) {
        Some(w) => w,
        None => {
            return Err(GlslError::NoCompiler);
        },
    };
    let fs: Option<Vec<u32>> = match glslang_compile(frag.as_str(), true) {
        Some(w) => w,
        None => {
            return Err(GlslError::NoCompiler);
        },
    };
    match link_stages(vs, fs) {
        Ok((vertex, fragment)) => Ok(
            GlslProgram {
                vertex,
                fragment,
                uniform_count: conv.uniform_count,
                layout: conv.layout,
            },
        ),
        Err(e) => Err(e),
    }
}

/// Law: a source that has a word which only GLSL has is GLSL, wherever the word stands; so is one with a
/// version in front; one without all of them is not.
pub proof fn law_glsl_is_told(a: Seq<char>, b: Seq<char>)
    ensures
        glsl_source(a + "gl_FragColor"@ + b),
        glsl_source(a + "gl_Position"@ + b),
        glsl_source(a + "gl_FragCoord"@ + b),
        glsl_source(a + "attribute "@ + b),
        glsl_source(a + "varying "@ + b),
        begins(trim_start(a), "#version"@) ==> glsl_source(a),
        glsl_source(a) ==> begins(trim_start(a), "#version"@) || occurs(a, "gl_FragColor"@) || occurs(
            a,
            "gl_Position"@,
        ) || occurs(a, "gl_FragCoord"@) || occurs(a, "attribute "@) || occurs(a, "varying "@),
{
    crate::strings::law_beginnings_and_ends(a, "gl_FragColor"@, b);
    crate::strings::law_beginnings_and_ends(a, "gl_Position"@, b);
    crate::strings::law_beginnings_and_ends(a, "gl_FragCoord"@, b);
    crate::strings::law_beginnings_and_ends(a, "attribute "@, b);
    crate::strings::law_beginnings_and_ends(a, "varying "@, b);
}

/// Law: in a std140 block a number takes four bytes, a vector of two eight, one of three twelve aligned
/// as one of four, which takes sixteen, and a matrix sixteen for each column.
#[verifier::spinoff_prover]
#[verifier::rlimit(60)]
pub proof fn law_std140_types()
    ensures
        std140_of("float"@) == (4u32, 4u32) && std140_of("int"@) == (4u32, 4u32),
        std140_of("uint"@) == (4u32, 4u32) && std140_of("bool"@) == (4u32, 4u32),
        std140_of("vec2"@) == (8u32, 8u32) && std140_of("ivec2"@) == (8u32, 8u32),
        std140_of("uvec2"@) == (8u32, 8u32) && std140_of("bvec2"@) == (8u32, 8u32),
        std140_of("vec3"@) == (16u32, 12u32) && std140_of("ivec3"@) == (16u32, 12u32),
        std140_of("uvec3"@) == (16u32, 12u32) && std140_of("bvec3"@) == (16u32, 12u32),
        std140_of("vec4"@) == (16u32, 16u32) && std140_of("ivec4"@) == (16u32, 16u32),
        std140_of("uvec4"@) == (16u32, 16u32) && std140_of("bvec4"@) == (16u32, 16u32),
        std140_of("mat2"@) == (16u32, 32u32),
        std140_of("mat3"@) == (16u32, 48u32),
        std140_of("mat4"@) == (16u32, 64u32),
{
    reveal_strlit("float");
    reveal_strlit("int");
    reveal_strlit("uint");
    reveal_strlit("bool");
    reveal_strlit("vec2");
    reveal_strlit("ivec2");
    reveal_strlit("uvec2");
    reveal_strlit("bvec2");
    reveal_strlit("vec3");
    reveal_strlit("ivec3");
    reveal_strlit("uvec3");
    reveal_strlit("bvec3");
    reveal_strlit("vec4");
    reveal_strlit("ivec4");
    reveal_strlit("uvec4");
    reveal_strlit("bvec4");
    reveal_strlit("mat2");
    reveal_strlit("mat3");
    reveal_strlit("mat4");
    assert("float"@.last() == 't' && "int"@.last() == 't' && "uint"@.last() == 't' && "bool"@.last()
        == 'l');
    assert("vec2"@.last() == '2' && "ivec2"@.last() == '2' && "uvec2"@.last() == '2'
        && "bvec2"@.last() == '2' && "mat2"@.last() == '2');
    assert("vec3"@.last() == '3' && "ivec3"@.last() == '3' && "uvec3"@.last() == '3'
        && "bvec3"@.last() == '3' && "mat3"@.last() == '3');
    assert("vec4"@.last() == '4' && "ivec4"@.last() == '4' && "uvec4"@.last() == '4'
        && "bvec4"@.last() == '4' && "mat4"@.last() == '4');
    assert("mat2"@[0] == 'm' && "mat3"@[0] == 'm' && "mat4"@[0] == 'm');
    assert("vec2"@[0] == 'v' && "ivec2"@[0] == 'i' && "uvec2"@[0] == 'u' && "bvec2"@[0] == 'b');
    assert("vec3"@[0] == 'v' && "ivec3"@[0] == 'i' && "uvec3"@[0] == 'u' && "bvec3"@[0] == 'b');
    assert("vec4"@[0] == 'v' && "ivec4"@[0] == 'i' && "uvec4"@[0] == 'u' && "bvec4"@[0] == 'b');
}

/// Law: the first uniform of a block stands at its start, and between one and the next there is less space
/// than the alignment asks for; each takes the size of its type.
pub proof fn law_slots_are_tight(vars: Seq<(Seq<char>, Seq<char>)>, i: int)
    requires
        0 <= i < vars.len(),
    ensures
        slot(vars, 0).0 == 0,
        slot(vars, i).1 == std140_of(trimmed(vars[i].1)).1,
        i > 0 ==> slot(vars, i).0 < slot(vars, i - 1).0 + slot(vars, i - 1).1 + std140_of(
            trimmed(vars[i].1),
        ).0,
        i == vars.len() - 1 ==> block_end(vars) == slot(vars, i).0 + slot(vars, i).1,
{
    assert(vars.take(0).len() == 0);
    let a = std140_of(trimmed(vars[0].1)).0 as nat;
    lemma_aligned(0, a);
    lemma_aligned(block_end(vars.take(i)), std140_of(trimmed(vars[i].1)).0 as nat);
    assert(aligned(0, a) == 0) by {
        assert(0 <= aligned(0, a) < a && aligned(0, a) % a == 0);
        vstd::arithmetic::div_mod::lemma_small_mod(aligned(0, a), a);
    }
    if i > 0 {
        assert(vars.take(i).drop_last() =~= vars.take(i - 1));
        assert(vars.take(i).last() == vars[i - 1]);
    }
    if i == vars.len() - 1 {
        assert(vars.drop_last() =~= vars.take(i));
    }
}

/// Law: the first occurrence of a pattern is replaced and nothing else.
pub proof fn law_first_is_replaced(a: Seq<char>, p: Seq<char>, b: Seq<char>, q: Seq<char>)
    requires
        p.len() > 0,
        forall|i: int| 0 <= i < a.len() ==> !#[trigger] stands_at(a + p + b, p, i),
    ensures
        replaced_first(a + p + b, p, q) == a + q + b,
    decreases a.len(),
{
    let s = a + p + b;
    if a.len() == 0 {
        assert(s.subrange(0, p.len() as int) =~= p);
        assert(s.skip(p.len() as int) =~= b);
        assert(a + q + b =~= q + b);
    } else {
        assert(!stands_at(s, p, 0));
        let t = a.skip(1);
        assert(s.skip(1) =~= t + p + b);
        assert forall|i: int| 0 <= i < t.len() implies !#[trigger] stands_at(t + p + b, p, i) by {
            assert(!stands_at(s, p, i + 1));
            if stands_at(t + p + b, p, i) {
                assert(s.subrange(i + 1, i + 1 + p.len()) =~= (t + p + b).subrange(i, i + p.len()));
            }
        }
        law_first_is_replaced(t, p, b, q);
        assert(seq![s[0]] + (t + q + b) =~= a + q + b);
    }
}

/// Law: version directives, precisions and uniforms other than samplers vanish from the source; every
/// other line ends in a newline.
pub proof fn law_what_vanishes(line: Seq<char>, at: nat)
    ensures
        begins(trim_start(line), "#version"@) ==> rewritten(line, at).len() == 0,
        begins(trim_start(line), "precision "@) ==> rewritten(line, at).len() == 0,
        regex_groups(UNIFORM@, trim_start(line)) is Some ==> rewritten(line, at).len() == 0,
        begins(trim_start(line), "uniform "@) && regex_groups(SAMPLER@, trim_start(line)) is None
            ==> rewritten(line, at).len() == 0,
        rewritten(line, at).len() > 0 ==> rewritten(line, at).last() == '\n',
        !begins(trim_start(line), "#version"@) && !begins(trim_start(line), "precision "@)
            && !begins(trim_start(line), "uniform "@) && regex_groups(UNIFORM@, trim_start(line))
            is None ==> rewritten(line, at).len() > 0,
{
    reveal_strlit("\n");
    reveal_strlit("_smp;\n");
}

/// Law: a sampler becomes a texture at binding 0 and a sampler of its own at binding 1, under the same
/// name.
pub proof fn law_samplers_are_separated(ty: Seq<char>, name: Seq<char>)
    ensures
        begins(separate(ty, name), "layout(binding = 0) uniform "@),
        crate::strings::ends(
            separate(ty, name),
            ";\nlayout(binding = 1) uniform sampler "@ + name + "_smp;\n"@,
        ),
        separate("sampler2D"@, name) == "layout(binding = 0) uniform texture2D "@ + name
            + ";\nlayout(binding = 1) uniform sampler "@ + name + "_smp;\n"@,
{
    let a = "layout(binding = 0) uniform "@;
    let e = ";\nlayout(binding = 1) uniform sampler "@ + name + "_smp;\n"@;
    let m = replaced_first(ty, "sampler"@, "texture"@) + " "@ + name;
    let s = separate(ty, name);
    assert(s =~= a + (m + e));
    crate::strings::law_beginnings_and_ends(a, m + e, e);
    assert(s =~= (a + m) + e);
    crate::strings::law_beginnings_and_ends(a + m, e, e);
    reveal_strlit("sampler2D");
    reveal_strlit("sampler");
    reveal_strlit("texture");
    reveal_strlit("2D");
    reveal_strlit(" ");
    reveal_strlit("layout(binding = 0) uniform ");
    reveal_strlit("layout(binding = 0) uniform texture2D ");
    let none = Seq::<char>::empty();
    assert("sampler2D"@ =~= none + "sampler"@ + "2D"@);
    law_first_is_replaced(none, "sampler"@, "2D"@, "texture"@);
    assert("layout(binding = 0) uniform "@ + (none + "texture"@ + "2D"@) + " "@
        =~= "layout(binding = 0) uniform texture2D "@);
    assert(separate("sampler2D"@, name) =~= "layout(binding = 0) uniform texture2D "@ + name
        + ";\nlayout(binding = 1) uniform sampler "@ + name + "_smp;\n"@);
}

/// Law: every uniform variable is declared in the block, its type before its name, and the block stands
/// at binding 2; without variables there is none.
pub proof fn law_block_declares_all(vars: Seq<(Seq<char>, Seq<char>)>, i: int)
    requires
        0 <= i < vars.len(),
    ensures
        occurs(members(vars), "    "@ + vars[i].1 + " "@ + vars[i].0 + ";\n"@),
        begins(block(vars), "layout(binding = 2) uniform Params {\n"@),
        crate::strings::ends(block(vars), "};\n"@),
        block(Seq::empty()).len() == 0,
    decreases vars.len(),
{
    let a = "layout(binding = 2) uniform Params {\n"@;
    let e = "};\n"@;
    assert(block(vars) =~= a + (members(vars) + e));
    crate::strings::law_beginnings_and_ends(a, members(vars) + e, e);
    crate::strings::law_beginnings_and_ends(a + members(vars), e, e);
    let before = members(vars.drop_last());
    let last = "    "@ + vars.last().1 + " "@ + vars.last().0 + ";\n"@;
    let none = Seq::<char>::empty();
    if i == vars.len() - 1 {
        crate::strings::law_beginnings_and_ends(before, last, none);
        assert(members(vars) =~= before + last + none);
    } else {
        law_block_declares_all(vars.drop_last(), i);
        let x = "    "@ + vars[i].1 + " "@ + vars[i].0 + ";\n"@;
        let k = choose|k: int| #[trigger] stands_at(before, x, k);
        assert(members(vars).subrange(k, k + x.len()) =~= before.subrange(k, k + x.len()));
        assert(stands_at(members(vars), x, k));
    }
}

/// Law: a rewritten source says the version once for all, and in front where the source said none; it
/// declares the colour that it writes exactly where the source writes one.
pub proof fn law_version_comes_first(src: Seq<char>)
    ensures
        occurs(converted(src), "#version 450\n"@),
        version_line(lines_of(src), 0) >= lines_of(src).len() ==> begins(
            converted(src),
            "#version 450\n"@,
        ),
        occurs(src, "gl_FragColor"@) ==> occurs(
            converted(src),
            "layout(location = 0) out vec4 fragColor_out;\n"@,
        ),
        !occurs(src, "gl_FragColor"@) ==> output(src).len() == 0,
{
    let ls = lines_of(src);
    let k = version_line(ls, 0);
    let n = ls.len() as int;
    let v = "#version 450\n"@;
    let rest = block(declared(ls)) + output(src);
    let head = v + block(declared(ls)) + output(src);
    let none = Seq::<char>::empty();
    let (a, b) = if k < n {
        (rewritten_lines(ls, 0, k), rewritten_lines(ls, k + 1, n))
    } else {
        (none, rewritten_lines(ls, 0, n))
    };
    assert(converted(src) =~= a + head + b);
    assert(converted(src) =~= a + v + (rest + b));
    crate::strings::law_beginnings_and_ends(a, v, rest + b);
    if k >= n {
        assert(converted(src) =~= v + (rest + b));
        crate::strings::law_beginnings_and_ends(v, rest + b, none);
    }
    if occurs(src, "gl_FragColor"@) {
        let o = "layout(location = 0) out vec4 fragColor_out;\n"@;
        assert(converted(src) =~= (a + v + block(declared(ls))) + o + b);
        crate::strings::law_beginnings_and_ends(a + v + block(declared(ls)), o, b);
    }
}

/// Law: ASCII characters of a source stay as they are, and nothing else does.
pub proof fn law_readable(s: Seq<char>, i: int)
    requires
        0 <= i < s.len(),
    ensures
        readable(s).len() == s.len(),
        1 <= s[i] as u32 <= 127 ==> readable(s)[i] == s[i],
        s[i] as u32 == 0 || s[i] as u32 > 127 ==> readable(s)[i] == '@',
{
}

/// Law: an effect has shaders exactly where both stages compiled and the vertex stage is not empty; the
/// vertex stage is blamed first.
pub proof fn law_linking(v: Seq<u32>, f: Seq<u32>, fragment: Option<Seq<u32>>)
    ensures
        v.len() > 0 ==> linked(Some(v), Some(f)) == Ok::<(Seq<u32>, Seq<u32>), GlslError>((v, f)),
        v.len() > 0 ==> linked(Some(v), None) == Err::<(Seq<u32>, Seq<u32>), GlslError>(
            GlslError::Fragment,
        ),
        v.len() == 0 ==> linked(Some(v), fragment) == Err::<(Seq<u32>, Seq<u32>), GlslError>(
            GlslError::Vertex,
        ),
        linked(None, fragment) == Err::<(Seq<u32>, Seq<u32>), GlslError>(GlslError::Vertex),
{
}

/// Law: an input is numbered by the inputs before it, from zero on.
pub proof fn law_inputs_are_counted(ls: Seq<Seq<char>>, line: Seq<char>)
    ensures
        inputs(Seq::empty()) == 0,
        is_input(line) ==> inputs(ls.push(line)) == inputs(ls) + 1,
        !is_input(line) ==> inputs(ls.push(line)) == inputs(ls),
        is_input(line) ==> begins(trim_start(renamed(line)), "in "@) && !occurs(
            renamed(line),
            "layout("@,
        ),
{
    assert(ls.push(line).drop_last() =~= ls);
}

/// Law: the names of ES are turned into those of desktop GLSL wherever they stand; a line without them
/// stays as it is.
pub proof fn law_renamed(s: Seq<char>)
    ensures
        renamed("varying"@ + s) == replaced(
            replaced("in"@ + replaced(s, "varying"@, "in"@), "attribute"@, "in"@),
            "gl_FragColor"@,
            "fragColor_out"@,
        ),
        !occurs(s, "varying"@) && !occurs(s, "attribute"@) && !occurs(s, "gl_FragColor"@) ==> renamed(s)
            == s,
        !occurs(s, "varying"@) && !occurs(s, "attribute"@) ==> renamed(s) == replaced(
            s,
            "gl_FragColor"@,
            "fragColor_out"@,
        ),
        !occurs(s, "varying"@) && !occurs(s, "gl_FragColor"@) && !occurs(
            replaced(s, "attribute"@, "in"@),
            "gl_FragColor"@,
        ) ==> renamed(s) == replaced(s, "attribute"@, "in"@),
{
    reveal_strlit("varying");
    reveal_strlit("attribute");
    reveal_strlit("gl_FragColor");
    crate::strings::law_replacing("varying"@, "in"@, s);
    crate::strings::law_replacing("attribute"@, "in"@, s);
    crate::strings::law_replacing("gl_FragColor"@, "fragColor_out"@, s);
    crate::strings::law_replacing(
        "gl_FragColor"@,
        "fragColor_out"@,
        replaced(s, "attribute"@, "in"@),
    );
}

/// Law: the uniform variables of a source are those that its lines declare, name and type, one behind the
/// other.
pub proof fn law_declared(ls: Seq<Seq<char>>, line: Seq<char>)
    ensures
        declared(Seq::empty()).len() == 0,
        regex_groups(UNIFORM@, trim_start(line)) is None ==> declared(ls.push(line)) == declared(ls),
        regex_groups(UNIFORM@, trim_start(line)) matches Some((ty, name)) ==> declared(ls.push(line))
            == declared(ls).push((name, ty)),
{
    assert(ls.push(line).drop_last() =~= ls);
}

/// Law: lines are rewritten one behind the other, each by itself, and an input by how many inputs stand
/// before it in the whole source.
pub proof fn law_lines_are_rewritten_in_order(ls: Seq<Seq<char>>, a: int, b: int, c: int)
    requires
        0 <= a <= b <= c <= ls.len(),
    ensures
        rewritten_lines(ls, a, c) == rewritten_lines(ls, a, b) + rewritten_lines(ls, b, c),
        b < ls.len() ==> rewritten_lines(ls, b, b + 1) == rewritten(ls[b], inputs(ls.take(b))),
        rewritten_lines(ls, a, a).len() == 0,
    decreases c - b,
{
    if b < c {
        law_lines_are_rewritten_in_order(ls, a, b, c - 1);
        let x = rewritten_lines(ls, a, b);
        let y = rewritten_lines(ls, b, c - 1);
        let z = rewritten(ls[c - 1], inputs(ls.take(c - 1)));
        assert(x + y + z =~= x + (y + z));
    } else {
        assert(rewritten_lines(ls, a, b) + Seq::<char>::empty() =~= rewritten_lines(ls, a, b));
    }
    if b < ls.len() {
        reveal_with_fuel(rewritten_lines, 2);
        assert(rewritten_lines(ls, b, b) + rewritten(ls[b], inputs(ls.take(b))) =~= rewritten(
            ls[b],
            inputs(ls.take(b)),
        ));
    }
}

/// Law: an input gets its location in front of its first `in`, and every other line that stays has its
/// calls of textures separated.
pub proof fn law_what_lines_become(line: Seq<char>, at: nat)
    ensures
        is_input(line) ==> rewritten(line, at) == replaced_first(
            renamed(line),
            "in"@,
            "layout(location = "@ + decimal(at) + ") in"@,
        ) + "\n"@,
        !is_input(line) && !begins(trim_start(line), "#version"@) && !begins(
            trim_start(line),
            "precision "@,
        ) && !begins(trim_start(line), "uniform "@) && regex_groups(UNIFORM@, trim_start(line)) is None
            ==> rewritten(line, at) == regex_replaced(TEXTURE_CALL@, renamed(line), SEPARATE_CALL@)
            + "\n"@,
        begins(trim_start(line), "uniform "@) && !begins(trim_start(line), "#version"@) && !begins(
            trim_start(line),
            "precision "@,
        ) && regex_groups(UNIFORM@, trim_start(line)) is None ==> (regex_groups(
            SAMPLER@,
            trim_start(line),
        ) matches Some((ty, name)) ==> rewritten(line, at) == separate(ty, name)),
{
}

/// Law: the directive that says the version is the first of its kind, and without one all lines are
/// passed over in looking for it.
pub proof fn law_version_line(ls: Seq<Seq<char>>, from: int)
    requires
        0 <= from <= ls.len(),
    ensures
        from <= version_line(ls, from) <= ls.len(),
        version_line(ls, from) < ls.len() ==> begins(
            trim_start(ls[version_line(ls, from)]),
            "#version"@,
        ),
        forall|j: int|
            from <= j < version_line(ls, from) ==> !begins(trim_start(#[trigger] ls[j]), "#version"@),
    decreases ls.len() - from,
{
    if from < ls.len() && !is_version(ls[from]) {
        law_version_line(ls, from + 1);
    }
}

} // verus!
