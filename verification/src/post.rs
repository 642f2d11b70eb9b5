//! Post-processing: which pipelines are needed, and the passes of a frame between the targets.

use vstd::prelude::*;

use crate::effects::{
    effect_index, effect_is_half_res, effect_key, effect_name, half_res, index_of, is_effect_noop,
    key_of, name_of, pass_does_nothing, passes_view, ActiveEffect, PassView, EFFECT_COUNT,
};
use crate::strings::{
    chars_of, ends, ends_with, lemma_index_in, part, position, same, string_of, texts,
};

verus! {

/// An image that a pass reads or writes.
#[derive(Clone, Copy, PartialEq, Eq, Structural, Debug)]
pub enum SrcTag {
    /// The scene.
    Scene,
    /// One of the two targets at full resolution.
    Full(u8),
    /// One of the two targets at half resolution.
    Half(u8),
}

/// One pass: an effect, by its place among the active ones, or a copy.
#[derive(Clone, Copy, PartialEq, Eq, Structural, Debug)]
pub struct Pass {
    pub effect: Option<usize>,
    pub src: SrcTag,
    pub dst: SrcTag,
}

/// An active effect that is to run.
#[derive(Clone, Copy, PartialEq, Eq, Structural, Debug)]
pub struct Step {
    /// Its place among the active ones.
    pub effect: usize,
    /// Whether it runs at half resolution.
    pub half: bool,
    /// Whether it has a pipeline.
    pub ready: bool,
}

/// The other of two targets.
pub open spec fn other(k: u8) -> u8 {
    if k == 0 {
        1
    } else {
        0
    }
}

fn flip(k: u8) -> (r: u8)
    ensures
        r == other(k),
{
    if k == 0 {
        1
    } else {
        0
    }
}

/// Where the run of half-resolution steps that `i` stands in ends.
pub open spec fn half_end(d: Seq<Step>, i: int) -> int
    decreases d.len() - i,
{
    if i >= d.len() {
        d.len() as int
    } else if d[i].half {
        half_end(d, i + 1)
    } else {
        i
    }
}

/// The passes of steps `i` to `j` between the half targets, from `Half(read)` on.
pub open spec fn half_run(d: Seq<Step>, i: int, j: int, read: u8) -> Seq<Pass>
    decreases j - i,
{
    if i >= j {
        Seq::empty()
    } else if d[i].ready {
        seq![
            Pass {
                effect: Some(d[i].effect),
                src: SrcTag::Half(read),
                dst: SrcTag::Half(other(read)),
            },
        ] + half_run(d, i + 1, j, other(read))
    } else {
        half_run(d, i + 1, j, read)
    }
}

/// The half target that holds the result of steps `i` to `j`.
pub open spec fn half_result(d: Seq<Step>, i: int, j: int, read: u8) -> u8
    decreases j - i,
{
    if i >= j {
        read
    } else if d[i].ready {
        half_result(d, i + 1, j, other(read))
    } else {
        half_result(d, i + 1, j, read)
    }
}

proof fn lemma_half_end(d: Seq<Step>, i: int)
    requires
        0 <= i <= d.len(),
    ensures
        i <= half_end(d, i) <= d.len(),
        i < d.len() && d[i].half ==> i < half_end(d, i),
    decreases d.len() - i,
{
    if i < d.len() && d[i].half {
        lemma_half_end(d, i + 1);
    }
}

/// The passes from step `i` on, `src` holding the image so far and the full target `write` being
/// free. A step without a pipeline is passed over. A run of half-resolution steps is one copy
/// down, its passes between the half targets, and one copy up.
pub open spec fn passes_from(d: Seq<Step>, i: int, src: SrcTag, write: u8) -> Seq<Pass>
    decreases d.len() - i,
{
    if i < 0 || i >= d.len() {
        Seq::empty()
    } else if !d[i].half {
        if d[i].ready {
            seq![Pass { effect: Some(d[i].effect), src, dst: SrcTag::Full(write) }] + passes_from(
                d,
                i + 1,
                SrcTag::Full(write),
                other(write),
            )
        } else {
            passes_from(d, i + 1, src, write)
        }
    } else {
        let j = half_end(d, i);
        if i < j <= d.len() {
            seq![Pass { effect: None, src, dst: SrcTag::Half(0) }] + half_run(d, i, j, 0) + seq![
                Pass {
                    effect: None,
                    src: SrcTag::Half(half_result(d, i, j, 0)),
                    dst: SrcTag::Full(write),
                },
            ] + passes_from(d, j, SrcTag::Full(write), other(write))
        } else {
            Seq::empty()
        }
    }
}

/// The full target that is free after the steps from `i` on.
pub open spec fn free_after(d: Seq<Step>, i: int, write: u8) -> u8
    decreases d.len() - i,
{
    if i < 0 || i >= d.len() {
        write
    } else if !d[i].half {
        free_after(
            d,
            i + 1,
            if d[i].ready {
                other(write)
            } else {
                write
            },
        )
    } else {
        let j = half_end(d, i);
        if i < j <= d.len() {
            free_after(d, j, other(write))
        } else {
            write
        }
    }
}

/// Plans the passes of the steps of a frame, and names the full target with the result.
pub fn plan_passes(d: &Vec<Step>) -> (r: (Vec<Pass>, u8))
    ensures
        r.0@ == passes_from(d@, 0, SrcTag::Scene, 0),
        r.1 == other(free_after(d@, 0, 0)),
{
    let mut out: Vec<Pass> = Vec::new();
    let mut src: SrcTag = SrcTag::Scene;
    let mut write: u8 = 0;
    let mut i: usize = 0;
    let ghost all = passes_from(d@, 0, SrcTag::Scene, 0);
    proof {
        assert(out@ + all == all);
    }
    while i < d.len()
        invariant
            i <= d.len(),
            all == passes_from(d@, 0, SrcTag::Scene, 0),
            out@ + passes_from(d@, i as int, src, write) == all,
            free_after(d@, i as int, write) == free_after(d@, 0, 0),
        decreases d.len() - i,
    {
        let ghost before = out@;
        if !d[i].half {
            if d[i].ready {
                let p: Pass = Pass { effect: Some(d[i].effect), src, dst: SrcTag::Full(write) };
                out.push(p);
                proof {
                    let rest = passes_from(d@, i + 1, SrcTag::Full(write), other(write));
                    assert(before + (seq![p] + rest) == before.push(p) + rest);
                }
                src = SrcTag::Full(write);
                write = flip(write);
            }
            i = i + 1;
        } else {
            let down: Pass = Pass { effect: None, src, dst: SrcTag::Half(0) };
            out.push(down);
            let ghost start = i as int;
            let ghost j = half_end(d@, start);
            let ghost middle = half_run(d@, start, j, 0);
            let ghost rest = passes_from(d@, j, SrcTag::Full(write), other(write));
            let ghost up = Pass {
                effect: None,
                src: SrcTag::Half(half_result(d@, start, j, 0)),
                dst: SrcTag::Full(write),
            };
            proof {
                lemma_half_end(d@, start);
                assert(all == before + (seq![down] + middle + seq![up] + rest));
                assert(out@ + middle == before.push(down) + middle);
            }
            let mut read: u8 = 0;
            while i < d.len() && d[i].half
                invariant
                    start <= i <= j <= d@.len(),
                    j == half_end(d@, start),
                    half_end(d@, i as int) == j,
                    out@ + half_run(d@, i as int, j, read) == before.push(down) + middle,
                    half_result(d@, i as int, j, read) == half_result(d@, start, j, 0),
                decreases d.len() - i,
            {
                proof {
                    lemma_half_end(d@, i as int);
                }
                if d[i].ready {
                    let p: Pass = Pass {
                        effect: Some(d[i].effect),
                        src: SrcTag::Half(read),
                        dst: SrcTag::Half(flip(read)),
                    };
                    let ghost so_far = out@;
                    out.push(p);
                    proof {
                        let more = half_run(d@, i + 1, j, other(read));
                        assert(so_far + (seq![p] + more) == so_far.push(p) + more);
                    }
                    read = flip(read);
                }
                i = i + 1;
            }
            proof {
                assert(i == j);
                assert(out@ + Seq::<Pass>::empty() == out@);
            }
            let ghost so_far = out@;
            out.push(Pass { effect: None, src: SrcTag::Half(read), dst: SrcTag::Full(write) });
            proof {
                assert(so_far == before.push(down) + middle);
                assert(so_far.push(up) + rest == before + (seq![down] + middle + seq![up] + rest));
            }
            src = SrcTag::Full(write);
            write = flip(write);
        }
    }
    proof {
        assert(out@ + Seq::<Pass>::empty() == out@);
    }
    (out, flip(write))
}

/// Whether each pass reads what the one before it wrote, the first one reads `src`, and none
/// writes what it reads.
pub open spec fn is_chained(p: Seq<Pass>, src: SrcTag) -> bool {
    &&& forall|k: int|
        0 <= k < p.len() ==> (#[trigger] p[k]).src == (if k == 0 {
            src
        } else {
            p[k - 1].dst
        })
    &&& forall|k: int| 0 <= k < p.len() ==> (#[trigger] p[k]).src != p[k].dst
}

/// The image that holds the result of chained passes.
pub open spec fn result_of(p: Seq<Pass>, src: SrcTag) -> SrcTag {
    if p.len() == 0 {
        src
    } else {
        p.last().dst
    }
}

proof fn lemma_chain_concat(a: Seq<Pass>, b: Seq<Pass>, src: SrcTag)
    requires
        is_chained(a, src),
        is_chained(b, result_of(a, src)),
    ensures
        is_chained(a + b, src),
        result_of(a + b, src) == result_of(b, result_of(a, src)),
{
    let c = a + b;
    assert forall|k: int| 0 <= k < c.len() implies (#[trigger] c[k]).src == (if k == 0 {
        src
    } else {
        c[k - 1].dst
    }) && c[k].src != c[k].dst by {
        if k < a.len() {
            assert(c[k] == a[k]);
            if k > 0 {
                assert(c[k - 1] == a[k - 1]);
            }
        } else {
            assert(c[k] == b[k - a.len()]);
            if k > a.len() {
                assert(c[k - 1] == b[k - 1 - a.len()]);
            } else if k > 0 {
                assert(c[k - 1] == a[k - 1]);
            }
        }
    }
}

proof fn lemma_half_chain(d: Seq<Step>, i: int, j: int, read: u8)
    requires
        read <= 1,
    ensures
        is_chained(half_run(d, i, j, read), SrcTag::Half(read)),
        half_result(d, i, j, read) <= 1,
        result_of(half_run(d, i, j, read), SrcTag::Half(read)) == SrcTag::Half(
            half_result(d, i, j, read),
        ),
    decreases j - i,
{
    if i < j {
        if d[i].ready {
            lemma_half_chain(d, i + 1, j, other(read));
            let first = seq![
                Pass {
                    effect: Some(d[i].effect),
                    src: SrcTag::Half(read),
                    dst: SrcTag::Half(other(read)),
                },
            ];
            assert(is_chained(first, SrcTag::Half(read)));
            lemma_chain_concat(first, half_run(d, i + 1, j, other(read)), SrcTag::Half(read));
        } else {
            lemma_half_chain(d, i + 1, j, read);
        }
    }
}

proof fn lemma_chain(d: Seq<Step>, i: int, src: SrcTag, write: u8)
    requires
        0 <= i,
        write <= 1,
        src == SrcTag::Scene || src == SrcTag::Full(other(write)),
    ensures
        is_chained(passes_from(d, i, src, write), src),
        free_after(d, i, write) <= 1,
        passes_from(d, i, src, write).len() > 0 ==> result_of(passes_from(d, i, src, write), src)
            == SrcTag::Full(other(free_after(d, i, write))),
        passes_from(d, i, src, write).len() == 0 ==> free_after(d, i, write) == write,
    decreases d.len() - i,
{
    if i < d.len() {
        if !d[i].half {
            if d[i].ready {
                lemma_chain(d, i + 1, SrcTag::Full(write), other(write));
                let first = seq![
                    Pass { effect: Some(d[i].effect), src, dst: SrcTag::Full(write) },
                ];
                assert(is_chained(first, src));
                lemma_chain_concat(
                    first,
                    passes_from(d, i + 1, SrcTag::Full(write), other(write)),
                    src,
                );
            } else {
                lemma_chain(d, i + 1, src, write);
            }
        } else {
            let j = half_end(d, i);
            lemma_half_end(d, i);
            lemma_half_chain(d, i, j, 0);
            lemma_chain(d, j, SrcTag::Full(write), other(write));
            let down = seq![Pass { effect: None, src, dst: SrcTag::Half(0) }];
            let middle = half_run(d, i, j, 0);
            let up = seq![
                Pass {
                    effect: None,
                    src: SrcTag::Half(half_result(d, i, j, 0)),
                    dst: SrcTag::Full(write),
                },
            ];
            let rest = passes_from(d, j, SrcTag::Full(write), other(write));
            assert(is_chained(down, src));
            lemma_chain_concat(down, middle, src);
            assert(is_chained(up, SrcTag::Half(half_result(d, i, j, 0))));
            lemma_chain_concat(down + middle, up, src);
            lemma_chain_concat(down + middle + up, rest, src);
        }
    }
}

/// Law: in the passes of a frame each pass reads what the one before it wrote, the first one
/// reads the scene, and no pass writes the image that it reads: no pass samples a target that was
/// not written in the frame. If any pass runs, the target that is named holds its result.
pub proof fn law_passes_are_chained(d: Seq<Step>)
    ensures
        is_chained(passes_from(d, 0, SrcTag::Scene, 0), SrcTag::Scene),
        passes_from(d, 0, SrcTag::Scene, 0).len() > 0 ==> passes_from(
            d,
            0,
            SrcTag::Scene,
            0,
        ).last().dst == SrcTag::Full(other(free_after(d, 0, 0))),
{
    lemma_chain(d, 0, SrcTag::Scene, 0);
}

/// The effects that run in passes, in order.
pub open spec fn effects_run(p: Seq<Pass>) -> Seq<usize>
    decreases p.len(),
{
    if p.len() == 0 {
        Seq::empty()
    } else {
        match p.last().effect {
            Some(e) => effects_run(p.drop_last()).push(e),
            None => effects_run(p.drop_last()),
        }
    }
}

/// The effects of steps `i` to `j` that have a pipeline, in order.
pub open spec fn effects_ready(d: Seq<Step>, i: int, j: int) -> Seq<usize>
    decreases j - i,
{
    if i >= j {
        Seq::empty()
    } else if d[i].ready {
        seq![d[i].effect] + effects_ready(d, i + 1, j)
    } else {
        effects_ready(d, i + 1, j)
    }
}

proof fn lemma_run_concat(a: Seq<Pass>, b: Seq<Pass>)
    ensures
        effects_run(a + b) == effects_run(a) + effects_run(b),
    decreases b.len(),
{
    if b.len() == 0 {
        assert(a + b == a);
        assert(effects_run(a) + Seq::<usize>::empty() == effects_run(a));
    } else {
        lemma_run_concat(a, b.drop_last());
        assert((a + b).drop_last() == a + b.drop_last());
        assert((a + b).last() == b.last());
        if let Some(e) = b.last().effect {
            assert((effects_run(a) + effects_run(b.drop_last())).push(e) == effects_run(a)
                + effects_run(b.drop_last()).push(e));
        }
    }
}

proof fn lemma_ready_split(d: Seq<Step>, i: int, j: int, k: int)
    requires
        i <= j <= k,
    ensures
        effects_ready(d, i, k) == effects_ready(d, i, j) + effects_ready(d, j, k),
    decreases j - i,
{
    if i < j {
        lemma_ready_split(d, i + 1, j, k);
        if d[i].ready {
            assert(seq![d[i].effect] + (effects_ready(d, i + 1, j) + effects_ready(d, j, k)) == (
            seq![d[i].effect] + effects_ready(d, i + 1, j)) + effects_ready(d, j, k));
        }
    } else {
        assert(Seq::<usize>::empty() + effects_ready(d, j, k) == effects_ready(d, j, k));
    }
}

proof fn lemma_single_run(p: Pass)
    ensures
        effects_run(seq![p]) == (match p.effect {
            Some(e) => seq![e],
            None => Seq::<usize>::empty(),
        }),
{
    let s = seq![p];
    assert(s.drop_last() == Seq::<Pass>::empty());
    assert(effects_run(s.drop_last()) == Seq::<usize>::empty());
    if let Some(e) = p.effect {
        assert(Seq::<usize>::empty().push(e) == seq![e]);
    }
}

proof fn lemma_half_effects(d: Seq<Step>, i: int, j: int, read: u8)
    ensures
        effects_run(half_run(d, i, j, read)) == effects_ready(d, i, j),
    decreases j - i,
{
    if i < j {
        if d[i].ready {
            lemma_half_effects(d, i + 1, j, other(read));
            let p = Pass {
                effect: Some(d[i].effect),
                src: SrcTag::Half(read),
                dst: SrcTag::Half(other(read)),
            };
            lemma_single_run(p);
            lemma_run_concat(seq![p], half_run(d, i + 1, j, other(read)));
        } else {
            lemma_half_effects(d, i + 1, j, read);
        }
    }
}

proof fn lemma_effects(d: Seq<Step>, i: int, src: SrcTag, write: u8)
    requires
        0 <= i <= d.len(),
    ensures
        effects_run(passes_from(d, i, src, write)) == effects_ready(d, i, d.len() as int),
    decreases d.len() - i,
{
    if i < d.len() {
        if !d[i].half {
            if d[i].ready {
                lemma_effects(d, i + 1, SrcTag::Full(write), other(write));
                let p = Pass { effect: Some(d[i].effect), src, dst: SrcTag::Full(write) };
                lemma_single_run(p);
                lemma_run_concat(
                    seq![p],
                    passes_from(d, i + 1, SrcTag::Full(write), other(write)),
                );
            } else {
                lemma_effects(d, i + 1, src, write);
            }
        } else {
            let j = half_end(d, i);
            lemma_half_end(d, i);
            lemma_half_effects(d, i, j, 0);
            lemma_effects(d, j, SrcTag::Full(write), other(write));
            lemma_ready_split(d, i, j, d.len() as int);
            let down = Pass { effect: None, src, dst: SrcTag::Half(0) };
            let up = Pass {
                effect: None,
                src: SrcTag::Half(half_result(d, i, j, 0)),
                dst: SrcTag::Full(write),
            };
            let middle = half_run(d, i, j, 0);
            let rest = passes_from(d, j, SrcTag::Full(write), other(write));
            lemma_single_run(down);
            lemma_single_run(up);
            lemma_run_concat(seq![down], middle);
            lemma_run_concat(seq![down] + middle, seq![up]);
            lemma_run_concat(seq![down] + middle + seq![up], rest);
            assert(Seq::<usize>::empty() + effects_ready(d, i, j) + Seq::<usize>::empty()
                == effects_ready(d, i, j));
        }
    }
}

/// Law: the effects that run are those with a pipeline, each once, in their order.
pub proof fn law_every_ready_effect_runs(d: Seq<Step>)
    ensures
        effects_run(passes_from(d, 0, SrcTag::Scene, 0)) == effects_ready(d, 0, d.len() as int),
{
    lemma_effects(d, 0, SrcTag::Scene, 0);
}

/// What has to be built before a frame can run.
pub enum Want {
    /// The pipeline of a built-in effect.
    Builtin(usize),
    /// The pipeline of a shader of the chart, kept under `name`, from `file` in the chart's
    /// directory.
    Custom { name: String, file: String },
}

/// The state of post-processing.
pub struct PostPipe {
    /// The names of the pipelines that are there.
    pub pipelines: Vec<String>,
    /// The shaders of the chart that could not be loaded and are not tried again.
    pub failed_custom: Vec<String>,
    /// The built-in effects whose pipelines are still to be built in advance.
    pub warmup_pending: Vec<String>,
    /// Whether a chart directory is set.
    pub has_chart_dir: bool,
    /// The effects of the frame.
    pub active: Vec<ActiveEffect>,
    /// Whether effects may run at half resolution.
    pub half_res_enabled: bool,
    /// The full target with the last result.
    pub last_output: u8,
    pub width: u32,
    pub height: u32,
}

/// At least one.
pub open spec fn at_least_one(n: u32) -> u32 {
    if n == 0 {
        1
    } else {
        n
    }
}

/// Whether a list holds a text.
pub fn holds(list: &Vec<String>, name: &str) -> (r: bool)
    ensures
        r == texts(list@).contains(name@),
{
    let found: Option<usize> = position(list.as_slice(), name);
    proof {
        lemma_index_in(texts(list@), name@, 0);
        if let Some(i) = found {
            assert(texts(list@)[i as int] == name@);
        }
    }
    found.is_some()
}

/// A list with a text added where it is not there yet.
pub open spec fn with_text(list: Seq<Seq<char>>, t: Seq<char>) -> Seq<Seq<char>> {
    if list.contains(t) {
        list
    } else {
        list.push(t)
    }
}

pub(crate) fn insert_text(list: &mut Vec<String>, t: &str)
    ensures
        texts(final(list)@) == with_text(texts(old(list)@), t@),
{
    if !holds(list, t) {
        let ghost before = texts(list@);
        list.push(t.to_owned());
        proof {
            assert(texts(list@) == before.push(t@));
        }
    }
}

/// A list without a text.
pub open spec fn without_text(list: Seq<Seq<char>>, t: Seq<char>) -> Seq<Seq<char>>
    decreases list.len(),
{
    if list.len() == 0 {
        list
    } else if list.last() == t {
        without_text(list.drop_last(), t)
    } else {
        without_text(list.drop_last(), t).push(list.last())
    }
}

fn remove_text(list: &mut Vec<String>, t: &str)
    ensures
        texts(final(list)@) == without_text(texts(old(list)@), t@),
{
    let ghost all = texts(list@);
    let mut kept: Vec<String> = Vec::new();
    let mut i: usize = 0;
    proof {
        assert(all.take(0).len() == 0);
        assert(texts(kept@) == without_text(all.take(0), t@));
    }
    while i < list.len()
        invariant
            i <= list.len(),
            all == texts(list@),
            texts(kept@) == without_text(all.take(i as int), t@),
        decreases list.len() - i,
    {
        let ghost before = texts(kept@);
        proof {
            assert(all.take(i + 1).drop_last() == all.take(i as int));
            assert(all.take(i + 1).last() == list@[i as int]@);
        }
        if !same(list[i].as_str(), t) {
            let s: String = list[i].clone();
            kept.push(s);
            proof {
                assert(texts(kept@) == before.push(s@));
            }
        }
        i = i + 1;
    }
    proof {
        assert(all.take(all.len() as int) == all);
    }
    *list = kept;
}

/// A name without the separators in front, so that joining it to a directory stays inside.
pub open spec fn relative(name: Seq<char>) -> Seq<char>
    decreases name.len(),
{
    if name.len() > 0 && (name[0] == '/' || name[0] == '\\') {
        relative(name.skip(1))
    } else {
        name
    }
}

/// A name without the separators in front.
pub fn relative_name(name: &str) -> (r: String)
    ensures
        r@ == relative(name@),
{
    let v: Vec<char> = chars_of(name);
    let mut i: usize = 0;
    proof {
        assert(v@.skip(0) == v@);
    }
    while i < v.len() && (v[i] == '/' || v[i] == '\\')
        invariant
            i <= v.len(),
            v@ == name@,
            relative(v@.skip(i as int)) == relative(name@),
        decreases v.len() - i,
    {
        proof {
            assert(v@.skip(i as int).skip(1) == v@.skip(i + 1));
        }
        i = i + 1;
    }
    let rest: Vec<char> = part(&v, i, v.len());
    proof {
        assert(rest@ == v@.skip(i as int));
    }
    string_of(&rest)
}

/// The steps that the active effects make: those that do something, in order.
pub open spec fn steps_of(
    active: Seq<PassView>,
    half_enabled: bool,
    pipelines: Seq<Seq<char>>,
) -> Seq<Step>
    decreases active.len(),
{
    if active.len() == 0 {
        Seq::empty()
    } else {
        let before = steps_of(active.drop_last(), half_enabled, pipelines);
        let p = active.last();
        if pass_does_nothing(p) {
            before
        } else {
            before.push(
                Step {
                    effect: (active.len() - 1) as usize,
                    half: half_enabled && half_res(key_of(p)),
                    ready: pipelines.contains(key_of(p)),
                },
            )
        }
    }
}

/// The names of the first `n` built-in effects.
pub open spec fn builtin_effects(n: nat) -> Seq<Seq<char>> {
    Seq::new(n, |i: int| name_of(i))
}

/// Whether a file name is that of a shader: it ends in `.wgsl`, and something stands before that.
pub open spec fn is_shader_name(name: Seq<char>) -> bool {
    name.len() > 5 && ends(name, ".wgsl"@)
}

fn is_shader_file(name: &str) -> (r: bool)
    ensures
        r == is_shader_name(name@),
{
    ends_with(name, ".wgsl") && chars_of(name).len() > 5
}

/// The shaders among files that have no pipeline, by their numbers.
pub open spec fn shader_files(files: Seq<Seq<char>>, pipelines: Seq<Seq<char>>) -> Seq<usize>
    decreases files.len(),
{
    if files.len() == 0 {
        Seq::empty()
    } else {
        let rest = shader_files(files.drop_last(), pipelines);
        if is_shader_name(files.last()) && !pipelines.contains(files.last()) {
            rest.push((files.len() - 1) as usize)
        } else {
            rest
        }
    }
}

/// Whether effects are as at first, for a size: none is built, waits or is shown.
pub open spec fn is_new_post(r: PostPipe, width: u32, height: u32) -> bool {
    &&& r.pipelines@.len() == 0
    &&& r.failed_custom@.len() == 0
    &&& r.warmup_pending@.len() == 0
    &&& !r.has_chart_dir
    &&& r.active@.len() == 0
    &&& r.half_res_enabled
    &&& r.last_output == 0
    &&& r.width == at_least_one(width)
    &&& r.height == at_least_one(height)
}

impl PostPipe {
    /// Starts with no pipelines, on a screen of the given size.
    pub fn new(width: u32, height: u32) -> (r: PostPipe)
        ensures
            is_new_post(r, width, height),
    {
        PostPipe {
            pipelines: Vec::new(),
            failed_custom: Vec::new(),
            warmup_pending: Vec::new(),
            has_chart_dir: false,
            active: Vec::new(),
            half_res_enabled: true,
            last_output: 0,
            width: if width == 0 {
                1
            } else {
                width
            },
            height: if height == 0 {
                1
            } else {
                height
            },
        }
    }

    /// Takes a new size of the screen, never less than one pixel.
    pub fn resize(&mut self, width: u32, height: u32)
        ensures
            *final(self) == (PostPipe {
                width: at_least_one(width),
                height: at_least_one(height),
                ..*old(self)
            }),
    {
        self.width = if width == 0 {
            1
        } else {
            width
        };
        self.height = if height == 0 {
            1
        } else {
            height
        };
    }

    /// The size of the half-resolution targets.
    pub fn half_size(&self) -> (r: (u32, u32))
        ensures
            r == (at_least_one(self.width / 2), at_least_one(self.height / 2)),
    {
        let w: u32 = self.width / 2;
        let h: u32 = self.height / 2;
        (
            if w == 0 {
                1
            } else {
                w
            },
            if h == 0 {
                1
            } else {
                h
            },
        )
    }

    /// Queues every built-in effect to be built in advance, unless a queue is still at work.
    pub fn start_warmup(&mut self)
        ensures
            texts(final(self).warmup_pending@) == (if old(self).warmup_pending@.len() == 0 {
                builtin_effects(EFFECT_COUNT as nat)
            } else {
                texts(old(self).warmup_pending@)
            }),
            *final(self) == (PostPipe {
                warmup_pending: final(self).warmup_pending,
                ..*old(self)
            }),
    {
        if self.warmup_pending.len() == 0 {
            let mut names: Vec<String> = Vec::new();
            let mut i: usize = 0;
            while i < EFFECT_COUNT
                invariant
                    i <= EFFECT_COUNT,
                    texts(names@) == builtin_effects(i as nat),
                decreases EFFECT_COUNT - i,
            {
                let ghost before = texts(names@);
                let n: String = effect_name(i).to_owned();
                names.push(n);
                proof {
                    assert(texts(names@) == before.push(n@));
                }
                i = i + 1;
            }
            self.warmup_pending = names;
        }
    }

    /// Takes up to `budget` names off the queue. Returns the built-in effects among them that
    /// have no pipeline yet, in the order in which they are to be built, and whether the queue is
    /// done.
    pub fn tick_warmup(&mut self, budget: usize) -> (r: (Vec<usize>, bool))
        ensures
            ({
                let pending = texts(old(self).warmup_pending@);
                let n = if budget < pending.len() {
                    budget as int
                } else {
                    pending.len() as int
                };
                &&& texts(final(self).warmup_pending@) == pending.take(pending.len() - n)
                &&& r.0@ == to_build(pending, texts(old(self).pipelines@), n)
                &&& r.1 == (pending.len() <= budget)
            }),
            *final(self) == (PostPipe {
                warmup_pending: final(self).warmup_pending,
                ..*old(self)
            }),
    {
        let ghost pending = texts(self.warmup_pending@);
        let ghost start = self.warmup_pending@;
        let mut out: Vec<usize> = Vec::new();
        let mut i: usize = 0;
        proof {
            assert(pending.take(pending.len() as int) == pending);
        }
        while i < budget && self.warmup_pending.len() > 0
            invariant
                i <= budget,
                i <= pending.len(),
                pending == texts(start),
                self.warmup_pending@ == start.take(start.len() - i),
                out@ == to_build(pending, texts(self.pipelines@), i as int),
                *self == (PostPipe { warmup_pending: self.warmup_pending, ..*old(self) }),
            decreases budget - i,
        {
            let ghost queue = self.warmup_pending@;
            let popped: Option<String> = self.warmup_pending.pop();
            if let Some(name) = popped {
                proof {
                    assert(name == start[start.len() - 1 - i]);
                    assert(pending[pending.len() - 1 - i] == name@);
                    assert(self.warmup_pending@ == start.take(start.len() - (i + 1)));
                }
                if let Some(k) = effect_index(name.as_str()) {
                    if !holds(&self.pipelines, name.as_str()) {
                        out.push(k);
                    }
                }
            }
            i = i + 1;
        }
        proof {
            assert(texts(start.take(start.len() - i)) == pending.take(pending.len() - i));
        }
        let done: bool = self.warmup_pending.len() == 0;
        (out, done)
    }

    /// Whether the pipeline of a built-in effect is to be built.
    pub fn ensure_effect(&self, name: &str) -> (r: bool)
        ensures
            r == !texts(self.pipelines@).contains(name@),
    {
        !holds(&self.pipelines, name)
    }

    /// The file from which a shader of the chart is to be loaded; `None` where its pipeline is
    /// there, where it failed before, and where no chart directory is set.
    pub fn ensure_custom_effect(&self, name: &str) -> (r: Option<String>)
        ensures
            match r {
                Some(f) => self.wants_custom(name@) && f@ == relative(name@),
                None => !self.wants_custom(name@),
            },
    {
        if holds(&self.pipelines, name) || holds(&self.failed_custom, name) || !self.has_chart_dir {
            None
        } else {
            Some(relative_name(name))
        }
    }

    /// Whether a shader of the chart is to be loaded.
    pub open spec fn wants_custom(&self, name: Seq<char>) -> bool {
        !texts(self.pipelines@).contains(name) && !texts(self.failed_custom@).contains(name)
            && self.has_chart_dir
    }

    /// Which files of the chart's directory are shaders that are to be built before they are first used:
    /// those that end in `.wgsl` and have no pipeline yet.
    pub fn warmup_custom(&self, files: &[String]) -> (r: Vec<usize>)
        ensures
            r@ == (if self.has_chart_dir {
                shader_files(texts(files@), texts(self.pipelines@))
            } else {
                Seq::empty()
            }),
    {
        let mut r: Vec<usize> = Vec::new();
        if !self.has_chart_dir {
            return r;
        }
        let ghost all = texts(files@);
        let ghost done = texts(self.pipelines@);
        let mut i: usize = 0;
        while i < files.len()
            invariant
                i <= files.len(),
                all == texts(files@),
                done == texts(self.pipelines@),
                r@ == shader_files(all.take(i as int), done),
            decreases files.len() - i,
        {
            proof {
                assert(all.take(i + 1).drop_last() == all.take(i as int));
                assert(all.take(i + 1).last() == files@[i as int]@);
            }
            if is_shader_file(files[i].as_str()) && !holds(&self.pipelines, files[i].as_str()) {
                r.push(i);
            }
            i = i + 1;
        }
        assert(all.take(all.len() as int) == all);
        r
    }

    /// Takes note that the pipeline of a built-in effect was built, or was not; one that was not
    /// is tried again.
    pub fn builtin_built(&mut self, name: &str, ok: bool)
        ensures
            texts(final(self).pipelines@) == (if ok {
                with_text(texts(old(self).pipelines@), name@)
            } else {
                texts(old(self).pipelines@)
            }),
            *final(self) == (PostPipe { pipelines: final(self).pipelines, ..*old(self) }),
    {
        if ok {
            insert_text(&mut self.pipelines, name);
        }
    }

    /// Takes note that a shader of the chart was built, or could not be read or built.
    pub fn custom_built(&mut self, name: &str, ok: bool)
        ensures
            texts(final(self).pipelines@) == (if ok {
                with_text(texts(old(self).pipelines@), name@)
            } else {
                texts(old(self).pipelines@)
            }),
            texts(final(self).failed_custom@) == (if ok {
                without_text(texts(old(self).failed_custom@), name@)
            } else {
                with_text(texts(old(self).failed_custom@), name@)
            }),
            *final(self) == (PostPipe {
                pipelines: final(self).pipelines,
                failed_custom: final(self).failed_custom,
                ..*old(self)
            }),
    {
        if ok {
            insert_text(&mut self.pipelines, name);
            remove_text(&mut self.failed_custom, name);
        } else {
            insert_text(&mut self.failed_custom, name);
        }
    }

    /// What has to be built for an active effect: its built-in pipeline, or its shader.
    pub fn want(&self, effect: &ActiveEffect) -> (r: Option<Want>)
        ensures
            match r {
                Some(Want::Builtin(i)) => index_of(key_of(effect@), 0) == Some(i as int) && !texts(
                    self.pipelines@,
                ).contains(key_of(effect@)),
                Some(Want::Custom { name, file }) => index_of(key_of(effect@), 0) is None && key_of(
                    effect@,
                ).len() > 0 && self.wants_custom(key_of(effect@)) && name@ == key_of(effect@)
                    && file@ == relative(key_of(effect@)),
                None => if index_of(key_of(effect@), 0) is Some {
                    texts(self.pipelines@).contains(key_of(effect@))
                } else {
                    key_of(effect@).len() == 0 || !self.wants_custom(key_of(effect@))
                },
            },
    {
        let key: String = effect_key(effect);
        match effect_index(key.as_str()) {
            Some(i) => {
                if self.ensure_effect(key.as_str()) {
                    Some(Want::Builtin(i))
                } else {
                    None
                }
            },
            None => {
                if key.as_str().is_empty() {
                    return None;
                }
                match self.ensure_custom_effect(key.as_str()) {
                    Some(file) => Some(Want::Custom { name: key, file }),
                    None => None,
                }
            },
        }
    }

    /// The steps of the frame.
    pub open spec fn steps(&self) -> Seq<Step> {
        steps_of(passes_view(self.active@), self.half_res_enabled, texts(self.pipelines@))
    }

    /// Plans the passes of the frame. With no active effect there is nothing to do; where none of
    /// them does anything, the scene is copied.
    pub fn apply(&mut self) -> (r: Vec<Pass>)
        ensures
            r@ == (if old(self).active@.len() == 0 {
                Seq::empty()
            } else if old(self).steps().len() == 0 {
                seq![Pass { effect: None, src: SrcTag::Scene, dst: SrcTag::Full(0) }]
            } else {
                passes_from(old(self).steps(), 0, SrcTag::Scene, 0)
            }),
            final(self).last_output == (if old(self).active@.len() == 0 {
                old(self).last_output
            } else if old(self).steps().len() == 0 {
                0
            } else {
                other(free_after(old(self).steps(), 0, 0))
            }),
            *final(self) == (PostPipe { last_output: final(self).last_output, ..*old(self) }),
    {
        if self.active.len() == 0 {
            return Vec::new();
        }
        let ghost views = passes_view(self.active@);
        let mut d: Vec<Step> = Vec::new();
        let mut i: usize = 0;
        proof {
            assert(views.take(0).len() == 0);
        }
        while i < self.active.len()
            invariant
                i <= self.active.len(),
                views == passes_view(self.active@),
                *self == *old(self),
                d@ == steps_of(
                    views.take(i as int),
                    self.half_res_enabled,
                    texts(self.pipelines@),
                ),
            decreases self.active.len() - i,
        {
            let ae: &ActiveEffect = &self.active[i];
            proof {
                assert(views.take(i + 1).drop_last() == views.take(i as int));
                assert(views.take(i + 1).last() == ae@);
            }
            if !is_effect_noop(ae) {
                let key: String = effect_key(ae);
                let half: bool = self.half_res_enabled && effect_is_half_res(key.as_str());
                let ready: bool = holds(&self.pipelines, key.as_str());
                d.push(Step { effect: i, half, ready });
            }
            i = i + 1;
        }
        proof {
            assert(views.take(views.len() as int) == views);
        }
        if d.len() == 0 {
            self.last_output = 0;
            return vec![Pass { effect: None, src: SrcTag::Scene, dst: SrcTag::Full(0) }];
        }
        let (passes, out) = plan_passes(&d);
        self.last_output = out;
        passes
    }
}

/// The built-in effects without a pipeline among the last `n` of a queue, from its end on.
pub open spec fn to_build(
    pending: Seq<Seq<char>>,
    pipelines: Seq<Seq<char>>,
    n: int,
) -> Seq<usize>
    decreases n,
{
    if n <= 0 {
        Seq::empty()
    } else {
        let before = to_build(pending, pipelines, n - 1);
        let name = pending[pending.len() - n];
        match index_of(name, 0) {
            Some(i) => if pipelines.contains(name) {
                before
            } else {
                before.push(i as usize)
            },
            None => before,
        }
    }
}

proof fn lemma_without_text(list: Seq<Seq<char>>, t: Seq<char>, x: Seq<char>)
    ensures
        without_text(list, t).contains(x) <==> x != t && list.contains(x),
    decreases list.len(),
{
    if list.len() > 0 {
        let less = list.drop_last();
        lemma_without_text(less, t, x);
        let w = without_text(less, t);
        if list.contains(x) {
            let k = choose|k: int| 0 <= k < list.len() && list[k] == x;
            if k < less.len() {
                assert(less[k] == x);
            }
        }
        if less.contains(x) {
            let k = choose|k: int| 0 <= k < less.len() && less[k] == x;
            assert(list[k] == x);
        }
        if list.last() != t {
            let r = w.push(list.last());
            if w.contains(x) {
                let k = choose|k: int| 0 <= k < w.len() && w[k] == x;
                assert(r[k] == x);
            }
            if r.contains(x) {
                let k = choose|k: int| 0 <= k < r.len() && r[k] == x;
                if k < w.len() {
                    assert(w[k] == x);
                }
            }
            if x == list.last() {
                assert(r[r.len() - 1] == x);
                assert(list[list.len() - 1] == x);
            }
        }
    }
}

/// Law: a shader of the chart that failed is not asked for again until it has been built.
pub proof fn law_failed_is_not_retried(before: PostPipe, after: PostPipe, name: Seq<char>)
    requires
        texts(after.failed_custom@) == with_text(texts(before.failed_custom@), name),
    ensures
        !after.wants_custom(name),
{
    let l = texts(before.failed_custom@);
    let r = texts(after.failed_custom@);
    if !l.contains(name) {
        assert(r[l.len() as int] == name);
    }
}

/// Law: a list without a text holds all that it held but that text.
pub proof fn law_removed_text(list: Seq<Seq<char>>, t: Seq<char>)
    ensures
        forall|x: Seq<char>| #[trigger] without_text(list, t).contains(x) <==> x != t && list.contains(x),
{
    assert forall|x: Seq<char>| #[trigger] without_text(list, t).contains(x) <==> x != t && list.contains(x) by {
        lemma_without_text(list, t, x);
    }
}

/// The size of the uniform buffer of an effect, in bytes.
pub const UNIFORM_SIZE: usize = 256;

/// Byte `k` of the little-endian bytes of a 32-bit number.
pub open spec fn le_byte(n: u32, k: int) -> u8 {
    if k == 0 {
        (n % 0x100) as u8
    } else if k == 1 {
        (n / 0x100 % 0x100) as u8
    } else if k == 2 {
        (n / 0x1_0000 % 0x100) as u8
    } else {
        (n / 0x100_0000) as u8
    }
}

/// The contents of the uniform buffer: the values as little-endian words from the start on, as
/// far as they fit, then zeros.
pub open spec fn uniform_bytes(values: Seq<u32>) -> Seq<u8> {
    Seq::new(
        UNIFORM_SIZE as nat,
        |b: int|
            if b / 4 < values.len() {
                le_byte(values[b / 4], b % 4)
            } else {
                0u8
            },
    )
}

/// Fills the uniform buffer of an effect.
pub fn uniform_data(values: &Vec<u32>) -> (r: Vec<u8>)
    ensures
        r@ == uniform_bytes(values@),
{
    let mut out: Vec<u8> = Vec::new();
    let mut b: usize = 0;
    while b < UNIFORM_SIZE
        invariant
            b <= UNIFORM_SIZE,
            out@ == uniform_bytes(values@).take(b as int),
        decreases UNIFORM_SIZE - b,
    {
        let w: usize = b / 4;
        let k: usize = b % 4;
        let byte: u8 = if w < values.len() {
            let n: u32 = values[w];
            if k == 0 {
                (n % 0x100) as u8
            } else if k == 1 {
                (n / 0x100 % 0x100) as u8
            } else if k == 2 {
                (n / 0x1_0000 % 0x100) as u8
            } else {
                (n / 0x100_0000) as u8
            }
        } else {
            0
        };
        out.push(byte);
        b = b + 1;
    }
    out
}

/// How many bytes are written for a GLSL uniform of `size` bytes: one component at most.
pub open spec fn write_len(size: u32) -> nat {
    if size == 0 {
        1
    } else if size < 4 {
        size as nat
    } else {
        4
    }
}

/// The bytes written for GLSL uniform `i`: those of value `i`, or zeros behind the buffer.
pub open spec fn write_bytes(values: Seq<u32>, i: int, size: u32) -> Seq<u8> {
    Seq::new(
        write_len(size),
        |k: int|
            if 4 * i + write_len(size) <= UNIFORM_SIZE {
                uniform_bytes(values)[4 * i + k]
            } else {
                0u8
            },
    )
}

/// A write into the uniform block of a GLSL effect.
pub struct BlockWrite {
    pub offset: u32,
    pub bytes: Vec<u8>,
}

/// The writes into the uniform block of a GLSL effect: each value at the offset of its variable.
pub fn glsl_writes(values: &Vec<u32>, layout: &Vec<(u32, u32)>) -> (r: Vec<BlockWrite>)
    ensures
        r@.len() == layout@.len(),
        forall|i: int|
            0 <= i < layout@.len() ==> (#[trigger] r@[i]).offset == layout@[i].0 && r@[i].bytes@
                == write_bytes(values@, i, layout@[i].1),
{
    let data: Vec<u8> = uniform_data(values);
    let mut out: Vec<BlockWrite> = Vec::new();
    let mut i: usize = 0;
    while i < layout.len()
        invariant
            i <= layout.len(),
            data@ == uniform_bytes(values@),
            out@.len() == i,
            forall|j: int|
                0 <= j < i ==> (#[trigger] out@[j]).offset == layout@[j].0 && out@[j].bytes@
                    == write_bytes(values@, j, layout@[j].1),
        decreases layout.len() - i,
    {
        let (offset, size) = layout[i];
        let n: usize = if size == 0 {
            1
        } else if size < 4 {
            size as usize
        } else {
            4
        };
        let fits: bool = i <= 64 && 4 * i + n <= UNIFORM_SIZE;
        let mut bytes: Vec<u8> = Vec::new();
        let mut k: usize = 0;
        while k < n
            invariant
                k <= n <= 4,
                n == write_len(size),
                fits == (4 * i + n <= UNIFORM_SIZE),
                data@ == uniform_bytes(values@),
                bytes@ == write_bytes(values@, i as int, size).take(k as int),
            decreases n - k,
        {
            if fits {
                bytes.push(data[4 * i + k]);
            } else {
                bytes.push(0);
            }
            k = k + 1;
        }
        proof {
            assert(bytes@ == write_bytes(values@, i as int, size));
        }
        out.push(BlockWrite { offset, bytes });
        i = i + 1;
    }
    out
}

/// Whether a pass is that of a step with a pipeline, and runs at half resolution exactly where the step
/// does.
pub open spec fn is_pass_of(p: Pass, s: Step) -> bool {
    p.effect == Some(s.effect) && s.ready && (p.dst is Half <==> s.half)
}

proof fn lemma_half_steps(d: Seq<Step>, i: int, j: int, read: u8, k: int) -> (s: int)
    requires
        0 <= i,
        j <= d.len(),
        forall|m: int| i <= m < j ==> (#[trigger] d[m]).half,
        0 <= k < half_run(d, i, j, read).len(),
    ensures
        i <= s < j,
        is_pass_of(half_run(d, i, j, read)[k], d[s]),
    decreases j - i,
{
    assert(d[i].half);
    if d[i].ready {
        let rest = half_run(d, i + 1, j, other(read));
        if k == 0 {
            i
        } else {
            assert(half_run(d, i, j, read)[k] == rest[k - 1]);
            lemma_half_steps(d, i + 1, j, other(read), k - 1)
        }
    } else {
        lemma_half_steps(d, i + 1, j, read, k)
    }
}

proof fn lemma_half_before(d: Seq<Step>, i: int, m: int)
    requires
        0 <= i <= m < half_end(d, i),
        i <= d.len(),
    ensures
        m < d.len(),
        d[m].half,
    decreases d.len() - i,
{
    lemma_half_end(d, i);
    if i < d.len() && d[i].half && m > i {
        lemma_half_before(d, i + 1, m);
    }
}

proof fn lemma_pass_of_step(d: Seq<Step>, i: int, src: SrcTag, write: u8, k: int) -> (s: int)
    requires
        0 <= i,
        0 <= k < passes_from(d, i, src, write).len(),
        passes_from(d, i, src, write)[k].effect is Some,
    ensures
        i <= s < d.len(),
        is_pass_of(passes_from(d, i, src, write)[k], d[s]),
    decreases d.len() - i,
{
    let all = passes_from(d, i, src, write);
    if !d[i].half {
        if d[i].ready {
            let rest = passes_from(d, i + 1, SrcTag::Full(write), other(write));
            if k == 0 {
                i
            } else {
                assert(all[k] == rest[k - 1]);
                lemma_pass_of_step(d, i + 1, SrcTag::Full(write), other(write), k - 1)
            }
        } else {
            lemma_pass_of_step(d, i + 1, src, write, k)
        }
    } else {
        let j = half_end(d, i);
        lemma_half_end(d, i);
        let run = half_run(d, i, j, 0);
        let rest = passes_from(d, j, SrcTag::Full(write), other(write));
        assert forall|m: int| i <= m < j implies (#[trigger] d[m]).half by {
            lemma_half_before(d, i, m);
        }
        assert(all.len() == 1 + run.len() + 1 + rest.len());
        if k <= run.len() {
            assert(k >= 1);
            assert(all[k] == run[k - 1]);
            lemma_half_steps(d, i, j, 0, k - 1)
        } else {
            assert(k >= run.len() + 2);
            assert(all[k] == rest[k - run.len() - 2]);
            lemma_pass_of_step(d, j, SrcTag::Full(write), other(write), k - run.len() - 2)
        }
    }
}

/// Law: every pass of an effect stands for a step of it that has a pipeline, and it is drawn at half
/// resolution exactly where the step is.
pub proof fn law_resolution_of_passes(d: Seq<Step>, k: int)
    requires
        0 <= k < passes_from(d, 0, SrcTag::Scene, 0).len(),
        passes_from(d, 0, SrcTag::Scene, 0)[k].effect is Some,
    ensures
        exists|s: int|
            0 <= s < d.len() && is_pass_of(passes_from(d, 0, SrcTag::Scene, 0)[k], #[trigger] d[s]),
{
    let s = lemma_pass_of_step(d, 0, SrcTag::Scene, 0, k);
    assert(is_pass_of(passes_from(d, 0, SrcTag::Scene, 0)[k], d[s]));
}

/// Law: the two targets take turns.
pub proof fn law_targets_take_turns(k: u8)
    requires
        k < 2,
    ensures
        other(k) < 2,
        other(k) != k,
        other(other(k)) == k,
        other(k) + k == 1,
{
}

/// Law: with steps at full resolution only, the passes go from the scene to the first target and then
/// between the two; a run at half resolution goes down once and up once.
pub proof fn law_one_step(s: Step)
    ensures
        s.ready && !s.half ==> passes_from(seq![s], 0, SrcTag::Scene, 0) == seq![
            Pass { effect: Some(s.effect), src: SrcTag::Scene, dst: SrcTag::Full(0) },
        ],
        s.ready && s.half ==> passes_from(seq![s], 0, SrcTag::Scene, 0) == seq![
            Pass { effect: None, src: SrcTag::Scene, dst: SrcTag::Half(0) },
            Pass { effect: Some(s.effect), src: SrcTag::Half(0), dst: SrcTag::Half(1) },
            Pass { effect: None, src: SrcTag::Half(1), dst: SrcTag::Full(0) },
        ],
        !s.ready && !s.half ==> passes_from(seq![s], 0, SrcTag::Scene, 0).len() == 0,
{
    let d = seq![s];
    reveal_with_fuel(passes_from, 3);
    reveal_with_fuel(half_run, 3);
    reveal_with_fuel(half_result, 3);
    reveal_with_fuel(half_end, 3);
    if s.ready && !s.half {
        assert(passes_from(d, 0, SrcTag::Scene, 0) =~= seq![
            Pass { effect: Some(s.effect), src: SrcTag::Scene, dst: SrcTag::Full(0) },
        ]);
    }
    if s.ready && s.half {
        assert(half_end(d, 0) == 1);
        assert(half_run(d, 0, 1, 0) =~= seq![
            Pass { effect: Some(s.effect), src: SrcTag::Half(0), dst: SrcTag::Half(1) },
        ]);
        assert(half_result(d, 0, 1, 0) == 1);
        assert(passes_from(d, 0, SrcTag::Scene, 0) =~= seq![
            Pass { effect: None, src: SrcTag::Scene, dst: SrcTag::Half(0) },
            Pass { effect: Some(s.effect), src: SrcTag::Half(0), dst: SrcTag::Half(1) },
            Pass { effect: None, src: SrcTag::Half(1), dst: SrcTag::Full(0) },
        ]);
    }
}

/// Law: the steps of a frame are the active effects that do something, in their order; one has a pipeline
/// where there is one of its name, and runs at half resolution where that is allowed and meant for it.
pub proof fn law_steps_of_a_frame(
    active: Seq<PassView>,
    half_enabled: bool,
    pipelines: Seq<Seq<char>>,
    k: int,
)
    requires
        active.len() <= usize::MAX,
        0 <= k < steps_of(active, half_enabled, pipelines).len(),
    ensures
        ({
            let s = steps_of(active, half_enabled, pipelines)[k];
            &&& s.effect < active.len()
            &&& !pass_does_nothing(active[s.effect as int])
            &&& s.ready <==> pipelines.contains(key_of(active[s.effect as int]))
            &&& s.half ==> half_enabled
            &&& s.half <==> half_enabled && half_res(key_of(active[s.effect as int]))
            &&& k > 0 ==> steps_of(active, half_enabled, pipelines)[k - 1].effect < s.effect
        }),
    decreases active.len(),
{
    let before = steps_of(active.drop_last(), half_enabled, pipelines);
    let all = steps_of(active, half_enabled, pipelines);
    if k < before.len() {
        law_steps_of_a_frame(active.drop_last(), half_enabled, pipelines, k);
        assert(all[k] == before[k]);
        if k > 0 {
            assert(all[k - 1] == before[k - 1]);
        }
    } else if k > 0 {
        law_steps_of_a_frame(active.drop_last(), half_enabled, pipelines, k - 1);
        assert(all[k - 1] == before[k - 1]);
    }
}

/// Law: no active effect that does something is left out of the steps.
pub proof fn law_no_effect_is_left_out(
    active: Seq<PassView>,
    half_enabled: bool,
    pipelines: Seq<Seq<char>>,
    i: int,
)
    requires
        active.len() <= usize::MAX,
        0 <= i < active.len(),
        !pass_does_nothing(active[i]),
    ensures
        exists|k: int|
            0 <= k < steps_of(active, half_enabled, pipelines).len() && (#[trigger] steps_of(
                active,
                half_enabled,
                pipelines,
            )[k]).effect == i,
    decreases active.len(),
{
    let before = steps_of(active.drop_last(), half_enabled, pipelines);
    let all = steps_of(active, half_enabled, pipelines);
    if i < active.len() - 1 {
        assert(active.drop_last()[i] == active[i]);
        law_no_effect_is_left_out(active.drop_last(), half_enabled, pipelines, i);
        let k = choose|k: int| 0 <= k < before.len() && (#[trigger] before[k]).effect == i;
        assert(all[k] == before[k]);
    } else {
        assert(all[before.len() as int].effect == i);
    }
}

/// Law: separators in front of a name fall away, however many; a name without them is kept.
pub proof fn law_relative_names(name: Seq<char>)
    ensures
        relative(seq!['/'] + name) == relative(name),
        relative(seq!['\\'] + name) == relative(name),
        name.len() > 0 && name[0] != '/' && name[0] != '\\' ==> relative(name) == name,
        relative(name).len() > 0 ==> relative(name)[0] != '/' && relative(name)[0] != '\\',
    decreases name.len(),
{
    assert((seq!['/'] + name).skip(1) =~= name);
    assert((seq!['\\'] + name).skip(1) =~= name);
    if name.len() > 0 && (name[0] == '/' || name[0] == '\\') {
        law_relative_names(name.skip(1));
    }
}

/// Law: a file is a shader by the end of its name, before which something stands.
pub proof fn law_shader_names(s: Seq<char>)
    ensures
        s.len() > 0 ==> is_shader_name(s + ".wgsl"@),
        !is_shader_name(".wgsl"@),
        is_shader_name(s) ==> ends(s, ".wgsl"@) && s.len() > ".wgsl"@.len(),
{
    reveal_strlit(".wgsl");
    crate::strings::law_beginnings_and_ends(s, ".wgsl"@, s);
}

/// Law: the shaders to be built in advance are the shader files without a pipeline, and no others.
pub proof fn law_shaders_to_build(files: Seq<Seq<char>>, pipelines: Seq<Seq<char>>, i: int)
    requires
        0 <= i < files.len() <= usize::MAX,
    ensures
        shader_files(files, pipelines).contains(i as usize) <==> is_shader_name(files[i])
            && !pipelines.contains(files[i]),
        forall|k: int|
            0 <= k < shader_files(files, pipelines).len() ==> #[trigger] shader_files(
                files,
                pipelines,
            )[k] < files.len(),
    decreases files.len(),
{
    let rest = files.drop_last();
    let before = shader_files(rest, pipelines);
    let all = shader_files(files, pipelines);
    if rest.len() > 0 {
        law_shaders_to_build(rest, pipelines, if i < rest.len() {
            i
        } else {
            0
        });
    }
    assert forall|k: int| 0 <= k < all.len() implies #[trigger] all[k] < files.len() by {
        if k < before.len() {
            assert(all[k] == before[k]);
        }
    }
    if i < rest.len() {
        assert(rest[i] == files[i]);
        if before.contains(i as usize) {
            let k = choose|k: int| 0 <= k < before.len() && before[k] == i as usize;
            assert(all[k] == i as usize);
        }
        if all.contains(i as usize) {
            let k = choose|k: int| 0 <= k < all.len() && all[k] == i as usize;
            if k < before.len() {
                assert(before[k] == i as usize);
            }
        }
    } else {
        if all.len() > before.len() {
            assert(all[before.len() as int] == i as usize);
        }
        if all.contains(i as usize) {
            let k = choose|k: int| 0 <= k < all.len() && all[k] == i as usize;
            if k < before.len() {
                assert(before[k] < rest.len());
            }
        }
    }
}

/// Law: of the names taken off the queue those are built that a built-in effect bears and that have no
/// pipeline yet; the last of the queue comes first.
pub proof fn law_built_in_advance(pending: Seq<Seq<char>>, pipelines: Seq<Seq<char>>, n: int)
    requires
        1 <= n <= pending.len(),
    ensures
        ({
            let name = pending[pending.len() - n];
            let before = to_build(pending, pipelines, n - 1);
            let all = to_build(pending, pipelines, n);
            &&& index_of(name, 0) is None || pipelines.contains(name) ==> all == before
            &&& index_of(name, 0) is Some && !pipelines.contains(name) ==> all.len() == before.len()
                + 1 && all.last() == index_of(name, 0)->0 as usize
            &&& all.take(before.len() as int) == before
        }),
        to_build(pending, pipelines, 0).len() == 0,
{
    let before = to_build(pending, pipelines, n - 1);
    let all = to_build(pending, pipelines, n);
    assert(all.take(before.len() as int) =~= before);
}

/// Law: a text that is added to a list is there, once, and nothing else is lost or added.
pub proof fn law_added_text(list: Seq<Seq<char>>, t: Seq<char>, x: Seq<char>)
    ensures
        with_text(list, t).contains(x) <==> x == t || list.contains(x),
        list.contains(t) ==> with_text(list, t) == list,
        list.no_duplicates() ==> with_text(list, t).no_duplicates(),
{
    let all = with_text(list, t);
    if !list.contains(t) {
        assert(all[list.len() as int] == t);
        if list.contains(x) {
            let k = choose|k: int| 0 <= k < list.len() && list[k] == x;
            assert(all[k] == x);
        }
        if all.contains(x) {
            let k = choose|k: int| 0 <= k < all.len() && all[k] == x;
            if k < list.len() {
                assert(list[k] == x);
            }
        }
        if list.no_duplicates() {
            assert forall|i: int, j: int| 0 <= i < all.len() && 0 <= j < all.len() && i != j implies all[i]
                != all[j] by {
                if i < list.len() {
                    assert(list.contains(list[i]));
                }
                if j < list.len() {
                    assert(list.contains(list[j]));
                }
            }
        }
    }
}

/// Law: a value stands in the uniform buffer at four times its number, lowest byte first; behind the values
/// come zeros, up to 256 bytes.
pub proof fn law_values_in_the_buffer(values: Seq<u32>, i: int)
    requires
        0 <= i < 64,
    ensures
        uniform_bytes(values).len() == 256,
        i < values.len() ==> uniform_bytes(values)[4 * i] + 256 * uniform_bytes(values)[4 * i + 1]
            + 65536 * uniform_bytes(values)[4 * i + 2] + 16777216 * uniform_bytes(values)[4 * i + 3]
            == values[i],
        i >= values.len() ==> uniform_bytes(values)[4 * i] == 0 && uniform_bytes(values)[4 * i + 1]
            == 0 && uniform_bytes(values)[4 * i + 2] == 0 && uniform_bytes(values)[4 * i + 3] == 0,
{
    let b = uniform_bytes(values);
    assert((4 * i) / 4 == i && (4 * i + 1) / 4 == i && (4 * i + 2) / 4 == i && (4 * i + 3) / 4 == i);
    assert((4 * i) % 4 == 0 && (4 * i + 1) % 4 == 1 && (4 * i + 2) % 4 == 2 && (4 * i + 3) % 4 == 3);
}

/// Law: at most four bytes are written for a uniform and at least one: those of its value in the buffer,
/// or zeros where the value is behind the buffer.
pub proof fn law_uniform_writes(values: Seq<u32>, i: int, size: u32, k: int)
    requires
        0 <= i,
        0 <= k < write_bytes(values, i, size).len(),
    ensures
        write_bytes(values, i, size).len() == (if size >= 4 {
            4
        } else if size >= 1 {
            size as int
        } else {
            1
        }),
        i < 64 && size >= 4 ==> write_bytes(values, i, size)[k] == uniform_bytes(values)[4 * i + k],
        i >= 64 ==> write_bytes(values, i, size)[k] == 0,
{
}

/// Law: a new pipe has nothing built, queued or shown, may run effects at half resolution, and has at least
/// one pixel each way.
pub proof fn law_new_post(r: PostPipe, width: u32, height: u32)
    requires
        is_new_post(r, width, height),
    ensures
        r.pipelines@.len() == 0 && r.failed_custom@.len() == 0 && r.warmup_pending@.len() == 0
            && r.active@.len() == 0,
        r.half_res_enabled && !r.has_chart_dir && r.last_output == 0,
        width > 0 ==> r.width == width,
        height > 0 ==> r.height == height,
        r.width > 0 && r.height > 0,
        width == 0 ==> r.width == 1,
        height == 0 ==> r.height == 1,
{
}

/// Law: a queue to build in advance holds the built-in effects by their names, each once.
pub proof fn law_queue_of_effects(i: int, j: int)
    requires
        0 <= i < j < 13,
    ensures
        builtin_effects(EFFECT_COUNT as nat).len() == 13,
        builtin_effects(EFFECT_COUNT as nat)[i] == name_of(i),
        builtin_effects(EFFECT_COUNT as nat)[i] != builtin_effects(EFFECT_COUNT as nat)[j],
{
    crate::effects::law_effect_names_differ(i, j);
}

} // verus!
