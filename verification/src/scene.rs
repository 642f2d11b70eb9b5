//! What a frame draws, in which order, and how it is cut into chunks and runs.
//!
//! Geometry is worked out by the caller, which hands in what the drawing order depends on:
//! whether a quad is inside the playfield, and whether the body of a hold is long enough to see.
//! Alphas are single-precision bits.

use vstd::prelude::*;

use crate::floats::{gt_zero32, is_gt_zero32, is_le_zero32, le_zero32};
use crate::order::{stable_order, stably_ordered};
use crate::post::holds;
use crate::strings::{decimal, push_decimal, same, starts_with, texts};
use crate::text::TextAnchor;

verus! {

/// The number of quads a frame must have before it is built by several threads.
pub const PARALLEL_QUADS: usize = 256;

/// The number of instances there is room for at first.
pub const INITIAL_DRAW_CAPACITY: usize = 4096;

/// A note of a line, as far as the drawing order depends on it.
pub struct NoteInfo {
    /// 1 tap, 2 hold, 3 flick, 4 drag.
    pub kind: u8,
    pub above: bool,
    pub multiple_hint: bool,
    pub alpha: u32,
    /// Whether the note is a hold with an end.
    pub has_end: bool,
    /// Whether the note itself, or the head of a hold, is inside the playfield.
    pub head_inside: bool,
    /// Whether the tail of a hold is inside the playfield.
    pub tail_inside: bool,
    /// Whether the body of a hold is to be drawn.
    pub body_shown: bool,
}

/// A judge line, as far as the drawing order depends on it.
pub struct LineInfo {
    /// The index of the line in its chart.
    pub index: usize,
    pub z_order: i32,
    pub pe_hide: bool,
    pub alpha: u32,
    /// The alpha with the line's own control over it applied.
    pub drawn_alpha: u32,
    pub attach_ui: Option<String>,
    pub texture: Option<String>,
    pub notes: Vec<NoteInfo>,
}

/// What a quad shows.
#[derive(Clone, Copy, PartialEq, Eq, Structural, Debug)]
pub enum Part {
    /// A line as a plain bar.
    Bar,
    /// A line with its texture.
    LineTexture,
    /// A tap, flick or drag with its sprite.
    Sprite,
    HoldBody,
    HoldHead,
    HoldTail,
    /// The body of a hold without sprite.
    PlainBody,
    /// A note without sprite.
    PlainNote,
}

/// A colour with its opacity, as single-precision bits.
#[derive(Clone, Copy, PartialEq, Eq, Structural, Debug)]
pub struct Tint {
    pub red: u32,
    pub green: u32,
    pub blue: u32,
    pub alpha: u32,
}

/// The colour of a note without sprite, by its kind.
pub open spec fn plain_tint(kind: u8, alpha: u32) -> Tint {
    if kind == 1 {
        // 0.2, 0.6, 1.0
        Tint { red: 0x3E4C_CCCD, green: 0x3F19_999A, blue: 0x3F80_0000, alpha }
    } else if kind == 2 {
        // 0.3, 0.7, 1.0
        Tint { red: 0x3E99_999A, green: 0x3F33_3333, blue: 0x3F80_0000, alpha }
    } else if kind == 3 {
        // 1.0, 0.3, 0.5
        Tint { red: 0x3F80_0000, green: 0x3E99_999A, blue: 0x3F00_0000, alpha }
    } else {
        // 1.0, 0.85, 0.2
        Tint { red: 0x3F80_0000, green: 0x3F59_999A, blue: 0x3E4C_CCCD, alpha }
    }
}

/// The colour of a part of a note: sprites keep theirs, without a sprite it goes by the kind.
pub open spec fn tint_of(part: Part, kind: u8, alpha: u32) -> Tint {
    if part is PlainBody || part is PlainNote {
        plain_tint(kind, alpha)
    } else {
        Tint { red: 0x3F80_0000, green: 0x3F80_0000, blue: 0x3F80_0000, alpha }
    }
}

/// The colour of a part of a note of a kind.
pub fn note_color(part: Part, kind: u8, alpha: u32) -> (r: Tint)
    ensures
        r == tint_of(part, kind, alpha),
{
    let plain: bool = match part {
        Part::PlainBody | Part::PlainNote => true,
        _ => false,
    };
    if !plain {
        Tint { red: 0x3F80_0000, green: 0x3F80_0000, blue: 0x3F80_0000, alpha }
    } else if kind == 1 {
        Tint { red: 0x3E4C_CCCD, green: 0x3F19_999A, blue: 0x3F80_0000, alpha }
    } else if kind == 2 {
        Tint { red: 0x3E99_999A, green: 0x3F33_3333, blue: 0x3F80_0000, alpha }
    } else if kind == 3 {
        Tint { red: 0x3F80_0000, green: 0x3E99_999A, blue: 0x3F00_0000, alpha }
    } else {
        Tint { red: 0x3F80_0000, green: 0x3F59_999A, blue: 0x3E4C_CCCD, alpha }
    }
}

/// The colour of the line that tells how long frames take, given in milliseconds as single-precision
/// bits: red above 50, yellow above 25, else green.
pub open spec fn frame_tint_of(frame_ms: u32) -> Tint {
    if 0x4248_0000 < frame_ms <= 0x7F80_0000 {
        // 1.0, 0.35, 0.35
        Tint { red: 0x3F80_0000, green: 0x3EB3_3333, blue: 0x3EB3_3333, alpha: 0x3F80_0000 }
    } else if 0x41C8_0000 < frame_ms <= 0x7F80_0000 {
        // 1.0, 0.82, 0.35
        Tint { red: 0x3F80_0000, green: 0x3F51_EB85, blue: 0x3EB3_3333, alpha: 0x3F80_0000 }
    } else {
        // 0.63, 0.9, 0.78
        Tint { red: 0x3F21_47AE, green: 0x3F66_6666, blue: 0x3F47_AE14, alpha: 0x3F80_0000 }
    }
}

/// The colour of the line that tells how long frames take.
pub fn frame_tint(frame_ms: u32) -> (r: Tint)
    ensures
        r == frame_tint_of(frame_ms),
{
    if 0x4248_0000 < frame_ms && frame_ms <= 0x7F80_0000 {
        Tint { red: 0x3F80_0000, green: 0x3EB3_3333, blue: 0x3EB3_3333, alpha: 0x3F80_0000 }
    } else if 0x41C8_0000 < frame_ms && frame_ms <= 0x7F80_0000 {
        Tint { red: 0x3F80_0000, green: 0x3F51_EB85, blue: 0x3EB3_3333, alpha: 0x3F80_0000 }
    } else {
        Tint { red: 0x3F21_47AE, green: 0x3F66_6666, blue: 0x3F47_AE14, alpha: 0x3F80_0000 }
    }
}

/// A quad to draw: the line by its index, the note by its index in the line, the texture, `None` for
/// plain white, and the colour, `None` for that of the line.
pub struct DrawItem {
    pub line: usize,
    pub note: Option<usize>,
    pub part: Part,
    pub tex: Option<String>,
    pub tint: Option<Tint>,
}

/// [`DrawItem`] with the texture as a sequence of characters.
pub ghost struct Quad {
    pub line: usize,
    pub note: Option<usize>,
    pub part: Part,
    pub tex: Option<Seq<char>>,
    pub tint: Option<Tint>,
}

impl View for DrawItem {
    type V = Quad;

    open spec fn view(&self) -> Quad {
        Quad {
            line: self.line,
            note: self.note,
            part: self.part,
            tex: match self.tex {
                Some(s) => Some(s@),
                None => None,
            },
            tint: self.tint,
        }
    }
}

/// The contents of a drawing list.
pub open spec fn quads_view(v: Seq<DrawItem>) -> Seq<Quad> {
    v.map_values(|d: DrawItem| d@)
}

/// The sprite of a kind of note.
pub open spec fn base_sprite(kind: u8) -> Seq<char> {
    if kind == 1 {
        "note:click"@
    } else if kind == 2 {
        "note:hold"@
    } else if kind == 3 {
        "note:flick"@
    } else {
        "note:drag"@
    }
}

/// The sprite of a kind of note that is hit together with others.
pub open spec fn hint_sprite(kind: u8) -> Seq<char> {
    if kind == 1 {
        "note:click_mh"@
    } else if kind == 2 {
        "note:hold_mh"@
    } else if kind == 3 {
        "note:flick_mh"@
    } else {
        "note:drag_mh"@
    }
}

/// The sprite of a note among the loaded textures, and whether it is drawn as a wider hint
/// sprite, which takes both sprites. A flagged note takes the hint sprite, or else the plain one.
pub open spec fn sprite_of(kind: u8, hint: bool, loaded: Seq<Seq<char>>) -> (
    Option<Seq<char>>,
    bool,
) {
    let base = base_sprite(kind);
    let mh = hint_sprite(kind);
    if hint && loaded.contains(mh) {
        (Some(mh), loaded.contains(base))
    } else if loaded.contains(base) {
        (Some(base), false)
    } else {
        (None, false)
    }
}

/// Chooses the sprite of a note.
pub fn choose_sprite(kind: u8, hint: bool, loaded: &Vec<String>) -> (r: (Option<String>, bool))
    ensures
        ({
            let (name, wide) = sprite_of(kind, hint, texts(loaded@));
            r.1 == wide && match r.0 {
                Some(s) => name == Some(s@),
                None => name is None,
            }
        }),
{
    let base: &str = if kind == 1 {
        "note:click"
    } else if kind == 2 {
        "note:hold"
    } else if kind == 3 {
        "note:flick"
    } else {
        "note:drag"
    };
    let mh: &str = if kind == 1 {
        "note:click_mh"
    } else if kind == 2 {
        "note:hold_mh"
    } else if kind == 3 {
        "note:flick_mh"
    } else {
        "note:drag_mh"
    };
    if hint && holds(loaded, mh) {
        (Some(mh.to_owned()), holds(loaded, base))
    } else if holds(loaded, base) {
        (Some(base.to_owned()), false)
    } else {
        (None, false)
    }
}

/// The parts of a note that are drawn, in order.
pub open spec fn parts_of(n: NoteInfo, sprite: bool) -> Seq<Part> {
    let empty = Seq::<Part>::empty();
    if le_zero32(n.alpha) {
        empty
    } else if sprite {
        if n.kind != 2 {
            if n.head_inside {
                seq![Part::Sprite]
            } else {
                empty
            }
        } else if n.has_end {
            (if n.body_shown {
                seq![Part::HoldBody]
            } else {
                empty
            }) + (if n.head_inside {
                seq![Part::HoldHead]
            } else {
                empty
            }) + (if n.tail_inside {
                seq![Part::HoldTail]
            } else {
                empty
            })
        } else if n.head_inside {
            seq![Part::HoldHead]
        } else {
            empty
        }
    } else {
        (if n.kind == 2 && n.has_end && n.body_shown {
            seq![Part::PlainBody]
        } else {
            empty
        }) + (if n.head_inside {
            seq![Part::PlainNote]
        } else {
            empty
        })
    }
}

/// The parts of a note that are drawn.
pub fn note_parts(n: &NoteInfo, sprite: bool) -> (r: Vec<Part>)
    ensures
        r@ == parts_of(*n, sprite),
{
    let mut out: Vec<Part> = Vec::new();
    if is_le_zero32(n.alpha) {
        return out;
    }
    if sprite {
        if n.kind != 2 {
            if n.head_inside {
                out.push(Part::Sprite);
            }
        } else if n.has_end {
            if n.body_shown {
                out.push(Part::HoldBody);
            }
            if n.head_inside {
                out.push(Part::HoldHead);
            }
            if n.tail_inside {
                out.push(Part::HoldTail);
            }
        } else if n.head_inside {
            out.push(Part::HoldHead);
        }
    } else {
        if n.kind == 2 && n.has_end && n.body_shown {
            out.push(Part::PlainBody);
        }
        if n.head_inside {
            out.push(Part::PlainNote);
        }
    }
    proof {
        assert(out@ == parts_of(*n, sprite));
    }
    out
}

/// Where a note comes in the drawing order of its line: notes below the line before those above
/// it; among these holds, then drags, taps and flicks. Of other kinds nothing is drawn.
pub open spec fn rank(above: bool, kind: u8) -> int {
    (if above {
        4int
    } else {
        0
    }) + (if kind == 2 {
        0int
    } else if kind == 4 {
        1
    } else if kind == 1 {
        2
    } else {
        3
    })
}

/// Whether a kind of note is drawn.
pub open spec fn is_drawn(kind: u8) -> bool {
    1 <= kind <= 4
}

/// The notes of one rank among the first `n`, by their index.
pub open spec fn of_rank(notes: Seq<NoteInfo>, g: int, n: int) -> Seq<usize>
    decreases n,
{
    if n <= 0 {
        Seq::empty()
    } else {
        let before = of_rank(notes, g, n - 1);
        let m = notes[n - 1];
        if is_drawn(m.kind) && rank(m.above, m.kind) == g {
            before.push((n - 1) as usize)
        } else {
            before
        }
    }
}

/// The notes of the first `g` ranks, in drawing order.
pub open spec fn drawing_order(notes: Seq<NoteInfo>, g: int) -> Seq<usize>
    decreases g,
{
    if g <= 0 {
        Seq::empty()
    } else {
        drawing_order(notes, g - 1) + of_rank(notes, g - 1, notes.len() as int)
    }
}

fn rank_of(above: bool, kind: u8) -> (r: u8)
    ensures
        r == rank(above, kind),
{
    let a: u8 = if above {
        4
    } else {
        0
    };
    let k: u8 = if kind == 2 {
        0
    } else if kind == 4 {
        1
    } else if kind == 1 {
        2
    } else {
        3
    };
    a + k
}

/// The notes of a line in drawing order.
pub fn note_order(notes: &Vec<NoteInfo>) -> (r: Vec<usize>)
    ensures
        r@ == drawing_order(notes@, 8),
{
    let mut out: Vec<usize> = Vec::new();
    let mut g: u8 = 0;
    while g < 8
        invariant
            g <= 8,
            out@ == drawing_order(notes@, g as int),
        decreases 8 - g,
    {
        let ghost before = out@;
        let mut i: usize = 0;
        proof {
            assert(before + Seq::<usize>::empty() == before);
        }
        while i < notes.len()
            invariant
                i <= notes.len(),
                out@ == before + of_rank(notes@, g as int, i as int),
            decreases notes.len() - i,
        {
            let kind: u8 = notes[i].kind;
            if 1 <= kind && kind <= 4 && rank_of(notes[i].above, kind) == g {
                out.push(i);
                proof {
                    assert(out@ == before + of_rank(notes@, g as int, i as int).push(i));
                }
            }
            i = i + 1;
        }
        g = g + 1;
    }
    out
}

proof fn lemma_of_rank(notes: Seq<NoteInfo>, g: int, n: int)
    requires
        0 <= n <= notes.len() <= usize::MAX,
    ensures
        ({
            let s = of_rank(notes, g, n);
            &&& forall|i: int|
                0 <= i < s.len() ==> (#[trigger] s[i]) < n && is_drawn(notes[s[i] as int].kind)
                    && rank(notes[s[i] as int].above, notes[s[i] as int].kind) == g
            &&& forall|i: int, j: int| 0 <= i < j < s.len() ==> #[trigger] s[i] < #[trigger] s[j]
            &&& forall|k: int|
                0 <= k < n && is_drawn(#[trigger] notes[k].kind) && rank(
                    notes[k].above,
                    notes[k].kind,
                ) == g ==> s.contains(k as usize)
        }),
    decreases n,
{
    if n > 0 {
        lemma_of_rank(notes, g, n - 1);
        let b = of_rank(notes, g, n - 1);
        let s = of_rank(notes, g, n);
        assert forall|k: int|
            0 <= k < n && is_drawn(#[trigger] notes[k].kind) && rank(notes[k].above, notes[k].kind)
                == g implies s.contains(k as usize) by {
            if k < n - 1 {
                assert(b.contains(k as usize));
                let i = choose|i: int| 0 <= i < b.len() && b[i] == k as usize;
                assert(s[i] == k as usize);
            } else {
                assert(s[s.len() - 1] == k as usize);
            }
        }
    }
}

proof fn lemma_drawing_order(notes: Seq<NoteInfo>, g: int)
    requires
        0 <= g,
        notes.len() <= usize::MAX,
    ensures
        ({
            let s = drawing_order(notes, g);
            &&& forall|i: int|
                0 <= i < s.len() ==> (#[trigger] s[i]) < notes.len() && is_drawn(
                    notes[s[i] as int].kind,
                ) && rank(notes[s[i] as int].above, notes[s[i] as int].kind) < g
            &&& forall|i: int, j: int|
                0 <= i < j < s.len() ==> {
                    let a = notes[(#[trigger] s[i]) as int];
                    let b = notes[(#[trigger] s[j]) as int];
                    rank(a.above, a.kind) < rank(b.above, b.kind) || (rank(a.above, a.kind) == rank(
                        b.above,
                        b.kind,
                    ) && s[i] < s[j])
                }
            &&& forall|k: int|
                0 <= k < notes.len() && is_drawn(#[trigger] notes[k].kind) && rank(
                    notes[k].above,
                    notes[k].kind,
                ) < g ==> s.contains(k as usize)
        }),
    decreases g,
{
    if g > 0 {
        lemma_drawing_order(notes, g - 1);
        lemma_of_rank(notes, g - 1, notes.len() as int);
        let a = drawing_order(notes, g - 1);
        let b = of_rank(notes, g - 1, notes.len() as int);
        let s = drawing_order(notes, g);
        assert(s == a + b);
        assert forall|i: int| 0 <= i < s.len() implies (#[trigger] s[i]) < notes.len() && is_drawn(
            notes[s[i] as int].kind,
        ) && rank(notes[s[i] as int].above, notes[s[i] as int].kind) < g by {
            if i < a.len() {
                assert(s[i] == a[i]);
            } else {
                assert(s[i] == b[i - a.len()]);
            }
        }
        assert forall|i: int, j: int| 0 <= i < j < s.len() implies ({
            let x = notes[(#[trigger] s[i]) as int];
            let y = notes[(#[trigger] s[j]) as int];
            rank(x.above, x.kind) < rank(y.above, y.kind) || (rank(x.above, x.kind) == rank(
                y.above,
                y.kind,
            ) && s[i] < s[j])
        }) by {
            if i < a.len() {
                assert(s[i] == a[i]);
            } else {
                assert(s[i] == b[i - a.len()]);
            }
            if j < a.len() {
                assert(s[j] == a[j]);
            } else {
                assert(s[j] == b[j - a.len()]);
            }
        }
        assert forall|k: int|
            0 <= k < notes.len() && is_drawn(#[trigger] notes[k].kind) && rank(
                notes[k].above,
                notes[k].kind,
            ) < g implies s.contains(k as usize) by {
            if rank(notes[k].above, notes[k].kind) < g - 1 {
                assert(a.contains(k as usize));
                let i = choose|i: int| 0 <= i < a.len() && a[i] == k as usize;
                assert(s[i] == k as usize);
            } else {
                assert(b.contains(k as usize));
                let i = choose|i: int| 0 <= i < b.len() && b[i] == k as usize;
                assert(s[i + a.len()] == k as usize);
            }
        }
    }
}

/// Law: the drawing order of a line lists every note of a known kind exactly once: notes below
/// the line before those above it, in each half holds before drags before taps before flicks, and
/// notes of the same place in their order on the line.
pub proof fn law_note_order(notes: Seq<NoteInfo>)
    requires
        notes.len() <= usize::MAX,
    ensures
        ({
            let s = drawing_order(notes, 8);
            &&& s.no_duplicates()
            &&& forall|k: int|
                0 <= k < notes.len() ==> (is_drawn(#[trigger] notes[k].kind) <==> s.contains(
                    k as usize,
                ))
            &&& forall|i: int, j: int|
                0 <= i < j < s.len() ==> {
                    let a = notes[(#[trigger] s[i]) as int];
                    let b = notes[(#[trigger] s[j]) as int];
                    rank(a.above, a.kind) < rank(b.above, b.kind) || (rank(a.above, a.kind) == rank(
                        b.above,
                        b.kind,
                    ) && s[i] < s[j])
                }
        }),
{
    lemma_drawing_order(notes, 8);
    let s = drawing_order(notes, 8);
    assert forall|k: int| 0 <= k < notes.len() implies (is_drawn(#[trigger] notes[k].kind)
        <==> s.contains(k as usize)) by {
        if s.contains(k as usize) {
            let i = choose|i: int| 0 <= i < s.len() && s[i] == k as usize;
            assert(is_drawn(notes[s[i] as int].kind));
        }
    }
}

/// The quads of the parts of a note.
pub open spec fn part_quads(
    line: usize,
    note: usize,
    n: NoteInfo,
    parts: Seq<Part>,
    tex: Option<Seq<char>>,
) -> Seq<Quad> {
    parts.map_values(
        |p: Part|
            Quad {
                line,
                note: Some(note),
                part: p,
                tex,
                tint: Some(tint_of(p, n.kind, n.alpha)),
            },
    )
}

/// The quads of the first `n` notes in the drawing order of a line.
pub open spec fn note_quads(l: LineInfo, order: Seq<usize>, n: int, loaded: Seq<Seq<char>>) -> Seq<
    Quad,
>
    decreases n,
{
    if n <= 0 {
        Seq::empty()
    } else {
        let at = order[n - 1];
        let m = l.notes@[at as int];
        let sprite = sprite_of(m.kind, m.multiple_hint, loaded).0;
        note_quads(l, order, n - 1, loaded) + part_quads(
            l.index,
            at,
            m,
            parts_of(m, sprite is Some),
            sprite,
        )
    }
}

/// The quad of a line itself: its texture where that is loaded, else a plain bar.
pub open spec fn bar_quad(l: LineInfo, loaded: Seq<Seq<char>>) -> Quad {
    match l.texture {
        Some(t) => if loaded.contains(t@) {
            Quad { line: l.index, note: None, part: Part::LineTexture, tex: Some(t@), tint: None }
        } else {
            Quad { line: l.index, note: None, part: Part::Bar, tex: None, tint: None }
        },
        None => Quad { line: l.index, note: None, part: Part::Bar, tex: None, tint: None },
    }
}

/// The quads of a line: its bar, then its notes. A hidden line, and one that carries a part of
/// the heads-up display, draws nothing.
pub open spec fn line_quads(l: LineInfo, loaded: Seq<Seq<char>>) -> Seq<Quad> {
    if l.pe_hide || l.attach_ui is Some {
        Seq::empty()
    } else {
        let order = drawing_order(l.notes@, 8);
        seq![bar_quad(l, loaded)] + note_quads(l, order, order.len() as int, loaded)
    }
}

/// The quads of lines, one line after the other.
pub open spec fn all_quads(ls: Seq<LineInfo>, loaded: Seq<Seq<char>>) -> Seq<Quad>
    decreases ls.len(),
{
    if ls.len() == 0 {
        Seq::empty()
    } else {
        all_quads(ls.drop_last(), loaded) + line_quads(ls.last(), loaded)
    }
}

fn clone_name(s: &Option<String>) -> (r: Option<String>)
    ensures
        match (*s, r) {
            (Some(a), Some(b)) => a@ == b@,
            (None, None) => true,
            _ => false,
        },
{
    match s {
        Some(t) => Some(t.clone()),
        None => None,
    }
}

fn push_line(out: &mut Vec<DrawItem>, l: &LineInfo, loaded: &Vec<String>)
    ensures
        quads_view(final(out)@) == quads_view(old(out)@) + line_quads(*l, texts(loaded@)),
{
    let ghost start = quads_view(out@);
    let ghost names = texts(loaded@);
    if l.pe_hide || l.attach_ui.is_some() {
        proof {
            assert(start + Seq::<Quad>::empty() == start);
        }
        return;
    }
    let textured: bool = match &l.texture {
        Some(t) => holds(loaded, t.as_str()),
        None => false,
    };
    let bar: DrawItem = if textured {
        DrawItem {
            line: l.index,
            note: None,
            part: Part::LineTexture,
            tex: clone_name(&l.texture),
            tint: None,
        }
    } else {
        DrawItem { line: l.index, note: None, part: Part::Bar, tex: None, tint: None }
    };
    let ghost b = bar@;
    out.push(bar);
    let order: Vec<usize> = note_order(&l.notes);
    let ghost head = start.push(b);
    let count: usize = l.notes.len();
    proof {
        assert(b == bar_quad(*l, names));
        assert(quads_view(out@) == head);
        assert(head + Seq::<Quad>::empty() == head);
        lemma_drawing_order(l.notes@, 8);
    }
    let mut k: usize = 0;
    while k < order.len()
        invariant
            k <= order.len(),
            order@ == drawing_order(l.notes@, 8),
            forall|i: int| 0 <= i < order@.len() ==> #[trigger] order@[i] < l.notes@.len(),
            names == texts(loaded@),
            quads_view(out@) == head + note_quads(*l, order@, k as int, names),
        decreases order.len() - k,
    {
        let at: usize = order[k];
        let n: &NoteInfo = &l.notes[at];
        let (sprite, _wide) = choose_sprite(n.kind, n.multiple_hint, loaded);
        let parts: Vec<Part> = note_parts(n, sprite.is_some());
        let ghost tex = sprite_of(n.kind, n.multiple_hint, names).0;
        let ghost before = quads_view(out@);
        let ghost more = part_quads(l.index, at, *n, parts@, tex);
        let mut i: usize = 0;
        proof {
            assert(before + more.take(0) == before);
        }
        while i < parts.len()
            invariant
                i <= parts.len(),
                more == part_quads(l.index, at, *n, parts@, tex),
                tex == (match sprite {
                    Some(s) => Some(s@),
                    None => None,
                }),
                quads_view(out@) == before + more.take(i as int),
            decreases parts.len() - i,
        {
            let d: DrawItem = DrawItem {
                line: l.index,
                note: Some(at),
                part: parts[i],
                tex: clone_name(&sprite),
                tint: Some(note_color(parts[i], n.kind, n.alpha)),
            };
            let ghost so_far = quads_view(out@);
            let ghost dv = d@;
            out.push(d);
            proof {
                assert(dv == more[i as int]);
                assert(quads_view(out@) == so_far.push(dv));
                assert(more.take(i + 1) == more.take(i as int).push(more[i as int]));
                assert(so_far.push(dv) == before + more.take(i + 1));
            }
            i = i + 1;
        }
        proof {
            assert(more.take(parts@.len() as int) == more);
            assert(before + more == head + (note_quads(*l, order@, k as int, names) + more));
        }
        k = k + 1;
    }
    proof {
        let notes = note_quads(*l, order@, order@.len() as int, names);
        assert(head + notes == start + (seq![b] + notes));
    }
}

/// The quads of lines.
pub fn build_line_cmds(lines: &[LineInfo], loaded: &Vec<String>) -> (r: Vec<DrawItem>)
    ensures
        quads_view(r@) == all_quads(lines@, texts(loaded@)),
{
    let mut out: Vec<DrawItem> = Vec::new();
    let mut i: usize = 0;
    proof {
        assert(lines@.take(0).len() == 0);
        assert(quads_view(out@) == Seq::<Quad>::empty());
    }
    while i < lines.len()
        invariant
            i <= lines.len(),
            quads_view(out@) == all_quads(lines@.take(i as int), texts(loaded@)),
        decreases lines.len() - i,
    {
        proof {
            assert(lines@.take(i + 1).drop_last() == lines@.take(i as int));
            assert(lines@.take(i + 1).last() == lines@[i as int]);
        }
        push_line(&mut out, &lines[i], loaded);
        i = i + 1;
    }
    proof {
        assert(lines@.take(lines@.len() as int) == lines@);
    }
    out
}

/// Law: a tap, flick or drag that can be seen inside the playfield and has no sprite is drawn as one
/// white quad in the colour of its kind.
pub proof fn law_note_without_sprite(n: NoteInfo, loaded: Seq<Seq<char>>, line: usize, at: usize)
    requires
        n.kind == 1 || n.kind == 3 || n.kind == 4,
        !loaded.contains(base_sprite(n.kind)),
        !loaded.contains(hint_sprite(n.kind)),
        !le_zero32(n.alpha),
        n.head_inside,
    ensures
        ({
            let sprite = sprite_of(n.kind, n.multiple_hint, loaded).0;
            part_quads(line, at, n, parts_of(n, sprite is Some), sprite) == seq![
                Quad {
                    line,
                    note: Some(at),
                    part: Part::PlainNote,
                    tex: None,
                    tint: Some(plain_tint(n.kind, n.alpha)),
                },
            ]
        }),
{
}

/// Law: the quads of two runs of lines, one after the other, are those of all the lines: cutting
/// the lines into chunks changes nothing of what is drawn.
pub proof fn law_chunks_draw_the_same(a: Seq<LineInfo>, b: Seq<LineInfo>, loaded: Seq<Seq<char>>)
    ensures
        all_quads(a + b, loaded) == all_quads(a, loaded) + all_quads(b, loaded),
    decreases b.len(),
{
    if b.len() == 0 {
        assert(a + b == a);
        assert(all_quads(a, loaded) + Seq::<Quad>::empty() == all_quads(a, loaded));
    } else {
        law_chunks_draw_the_same(a, b.drop_last(), loaded);
        assert((a + b).drop_last() == a + b.drop_last());
        assert((a + b).last() == b.last());
        assert(all_quads(a, loaded) + (all_quads(b.drop_last(), loaded) + line_quads(
            b.last(),
            loaded,
        )) == (all_quads(a, loaded) + all_quads(b.drop_last(), loaded)) + line_quads(
            b.last(),
            loaded,
        ));
    }
}

/// The z-orders of lines, as keys of an order.
pub open spec fn depths(ls: Seq<LineInfo>) -> Seq<i64> {
    ls.map_values(|l: LineInfo| l.z_order as i64)
}

/// The lines of a frame from back to front; lines of one z-order in the order of the chart.
pub fn depth_order(lines: &Vec<LineInfo>) -> (r: Vec<usize>)
    ensures
        stably_ordered(depths(lines@), r@),
{
    let mut keys: Vec<i64> = Vec::new();
    let mut i: usize = 0;
    while i < lines.len()
        invariant
            i <= lines.len(),
            keys@ == depths(lines@).take(i as int),
        decreases lines.len() - i,
    {
        keys.push(lines[i].z_order as i64);
        i = i + 1;
    }
    proof {
        assert(depths(lines@).take(lines@.len() as int) == depths(lines@));
    }
    stable_order(keys.as_slice())
}

/// An estimate of the number of quads of a frame.
pub open spec fn estimate(ls: Seq<LineInfo>) -> nat
    decreases ls.len(),
{
    if ls.len() == 0 {
        2
    } else {
        estimate(ls.drop_last()) + 1 + 3 * ls.last().notes@.len()
    }
}

/// Whether the estimate reaches [`PARALLEL_QUADS`].
pub fn is_large(lines: &Vec<LineInfo>) -> (r: bool)
    ensures
        r == (estimate(lines@) >= PARALLEL_QUADS),
        r == (estimate(lines@) >= 256),
{
    let mut n: usize = 2;
    let mut i: usize = 0;
    proof {
        assert(lines@.take(0).len() == 0);
        assert(lines@.take(lines@.len() as int) == lines@);
    }
    while i < lines.len()
        invariant
            i <= lines.len(),
            n < PARALLEL_QUADS,
            n == estimate(lines@.take(i as int)),
            lines@.take(lines@.len() as int) == lines@,
        decreases lines.len() - i,
    {
        proof {
            assert(lines@.take(i + 1).drop_last() == lines@.take(i as int));
            assert(lines@.take(i + 1).last() == lines@[i as int]);
            lemma_estimate_grows(lines@, i + 1);
        }
        let m: usize = lines[i].notes.len();
        if m >= PARALLEL_QUADS || n + 1 + 3 * m >= PARALLEL_QUADS {
            return true;
        }
        n = n + 1 + 3 * m;
        i = i + 1;
    }
    false
}

proof fn lemma_estimate_grows(ls: Seq<LineInfo>, k: int)
    requires
        0 <= k <= ls.len(),
    ensures
        estimate(ls.take(k)) <= estimate(ls),
    decreases ls.len() - k,
{
    if k < ls.len() {
        lemma_estimate_grows(ls, k + 1);
        assert(ls.take(k + 1).drop_last() == ls.take(k));
    } else {
        assert(ls.take(k) == ls);
    }
}

/// The number of threads that build a frame: those of the machine, at most one for each line.
pub open spec fn worker_count(cores: nat, lines: nat) -> nat {
    let most = if lines == 0 {
        1
    } else {
        lines
    };
    if cores < 1 {
        1
    } else if cores > most {
        most
    } else {
        cores
    }
}

/// Whether `c` cuts `0..n` into consecutive chunks of `per` lines, the last one perhaps shorter.
pub open spec fn is_cut(c: Seq<(usize, usize)>, n: int, per: int) -> bool {
    &&& forall|i: int|
        0 <= i < c.len() ==> {
            let (a, b) = #[trigger] c[i];
            &&& a == i * per
            &&& a < b <= n
            &&& b == (if i + 1 < c.len() {
                a + per
            } else {
                n
            })
            &&& b <= a + per
        }
    &&& c.len() == 0 <==> n == 0
}

/// Cuts the lines of a frame into the chunks that several threads build, or decides that one
/// thread builds it: where it is not allowed, where there is one worker, or where the frame is
/// small.
pub fn scene_chunks(allowed: bool, cores: usize, lines: usize, large: bool) -> (r: Option<
    Vec<(usize, usize)>,
>)
    ensures
        ({
            let workers = worker_count(cores as nat, lines as nat);
            match r {
                Some(c) => allowed && workers > 1 && large && is_cut(
                    c@,
                    lines as int,
                    (lines + workers - 1) / (workers as int),
                ),
                None => !(allowed && workers > 1 && large),
            }
        }),
{
    let most: usize = if lines == 0 {
        1
    } else {
        lines
    };
    let workers: usize = if cores < 1 {
        1
    } else if cores > most {
        most
    } else {
        cores
    };
    if !(allowed && workers > 1 && large) {
        return None;
    }
    let per: usize = (lines - 1) / workers + 1;
    proof {
        assert((lines + workers - 1) / (workers as int) == (lines - 1) / (workers as int) + 1)
            by (nonlinear_arith)
            requires
                workers > 0,
                lines >= 1,
        ;
    }
    let mut out: Vec<(usize, usize)> = Vec::new();
    let mut at: usize = 0;
    proof {
        assert(0 * per == 0) by (nonlinear_arith);
    }
    while at < lines
        invariant
            at <= lines,
            per >= 1,
            at < lines ==> at == out@.len() * per,
            at == lines ==> lines >= 1 ==> out@.len() > 0,
            forall|i: int|
                0 <= i < out@.len() ==> {
                    let (a, b) = #[trigger] out@[i];
                    &&& a == i * per
                    &&& a < b <= lines
                    &&& b == (if i + 1 < out@.len() {
                        a + per
                    } else {
                        at as int
                    })
                    &&& b <= a + per
                },
        decreases lines - at,
    {
        let end: usize = if lines - at <= per {
            lines
        } else {
            at + per
        };
        let ghost before = out@;
        out.push((at, end));
        proof {
            assert(before.len() * per + per == (before.len() + 1) * per) by (nonlinear_arith);
            assert forall|i: int| 0 <= i < out@.len() implies ({
                let (a, b) = #[trigger] out@[i];
                &&& a == i * per
                &&& a < b <= lines
                &&& b == (if i + 1 < out@.len() {
                    a + per
                } else {
                    end as int
                })
                &&& b <= a + per
            }) by {
                if i < before.len() {
                    assert(out@[i] == before[i]);
                    if i + 1 == before.len() {
                        assert(before[i].1 == at);
                        assert(at == before.len() * per);
                        assert(i * per + per == (i + 1) * per) by (nonlinear_arith);
                    }
                }
            }
        }
        at = end;
    }
    Some(out)
}

/// A run of instances that are drawn with one texture.
#[derive(Clone, Copy, PartialEq, Eq, Structural, Debug)]
pub struct Run {
    pub tex: u64,
    pub start: usize,
    pub end: usize,
}

/// Whether `runs` covers the first `n` textures: consecutive runs of one texture each, as long as
/// can be.
pub open spec fn are_runs(texs: Seq<u64>, runs: Seq<Run>, n: int) -> bool {
    &&& n == 0 <==> runs.len() == 0
    &&& forall|i: int|
        0 <= i < runs.len() ==> {
            let r = #[trigger] runs[i];
            &&& r.start < r.end <= n
            &&& r.start == (if i == 0 {
                0
            } else {
                runs[i - 1].end as int
            })
            &&& i + 1 == runs.len() ==> r.end == n
            &&& i > 0 ==> runs[i - 1].tex != r.tex
        }
    &&& forall|i: int, k: int|
        0 <= i < runs.len() && (#[trigger] runs[i]).start <= k < runs[i].end ==> #[trigger] texs[k]
            == runs[i].tex
}

/// Groups the quads of a drawing list, by their textures, into runs that are drawn at once.
pub fn draw_runs(texs: &Vec<u64>) -> (r: Vec<Run>)
    ensures
        are_runs(texs@, r@, texs@.len() as int),
{
    let mut out: Vec<Run> = Vec::new();
    let n: usize = texs.len();
    if n == 0 {
        return out;
    }
    let mut start: usize = 0;
    let mut i: usize = 1;
    while i <= n
        invariant
            n == texs@.len(),
            n >= 1,
            1 <= i <= n + 1,
            i <= n ==> start < i && are_runs(texs@, out@, start as int) && (out@.len() > 0
                ==> out@.last().tex != texs@[start as int]) && (forall|k: int|
                start <= k < i ==> #[trigger] texs@[k] == texs@[start as int]),
            i == n + 1 ==> are_runs(texs@, out@, n as int),
        decreases n + 1 - i,
    {
        if i == n || texs[i] != texs[start] {
            let ghost before = out@;
            out.push(Run { tex: texs[start], start, end: i });
            proof {
                assert forall|j: int| 0 <= j < out@.len() implies ({
                    let r = #[trigger] out@[j];
                    &&& r.start < r.end <= i
                    &&& r.start == (if j == 0 {
                        0
                    } else {
                        out@[j - 1].end as int
                    })
                    &&& j + 1 == out@.len() ==> r.end == i
                    &&& j > 0 ==> out@[j - 1].tex != r.tex
                }) by {
                    if j < before.len() {
                        assert(out@[j] == before[j]);
                        if j > 0 {
                            assert(out@[j - 1] == before[j - 1]);
                        }
                    } else if j > 0 {
                        assert(out@[j - 1] == before[j - 1]);
                        assert(before[j - 1].end == start);
                    }
                }
                assert forall|j: int, k: int| 0 <= j < out@.len() && (#[trigger] out@[j]).start <= k
                    < out@[j].end implies #[trigger] texs@[k] == out@[j].tex by {
                    if j < before.len() {
                        assert(out@[j] == before[j]);
                    }
                }
                assert(are_runs(texs@, out@, i as int));
            }
            start = i;
        }
        if i == n {
            return out;
        }
        i = i + 1;
    }
    out
}

/// The capacity of the instance buffers for `total` instances: half as many again and 512 more
/// where they do not fit, else what it was.
pub fn grown_capacity(total: usize, capacity: usize) -> (r: usize)
    requires
        total <= 0x8_0000_0000_0000,
        total * 3 / 2 + 512 <= usize::MAX,
    ensures
        r == (if total > capacity {
            total * 3 / 2 + 512
        } else {
            capacity as int
        }),
        total <= r,
        capacity <= r,
{
    if total > capacity {
        total + total / 2 + 512
    } else {
        capacity
    }
}

/// Law: after growing, the instances fit.
pub proof fn law_instances_fit(total: nat, capacity: nat)
    ensures
        total <= (if total > capacity {
            total * 3 / 2 + 512
        } else {
            capacity
        }),
{
}

/// What the heads-up display shows.
pub struct HudData {
    pub chart_name: String,
    pub difficulty: String,
    pub score: u32,
    pub combo: u32,
    pub paused: bool,
    pub visible: bool,
    /// Frame time in milliseconds and frames per second, as single-precision bits.
    pub frame_ms: u32,
    pub fps: u32,
}

/// How an element of the heads-up display is bound to a line.
#[derive(Clone, Copy, PartialEq, Eq, Structural, Debug)]
pub enum HudBind {
    /// The line that carries it is faded out or hidden: it is not drawn.
    Hidden,
    /// No line carries it: it is drawn at its own place.
    Default,
    /// It follows the line at this place of the frame.
    Bound(usize),
}

/// The first line, from `from` on, that carries an element.
pub open spec fn carrier(ls: Seq<LineInfo>, name: Seq<char>, from: int) -> Option<int>
    decreases ls.len() - from,
{
    if from >= ls.len() {
        None
    } else if ls[from].attach_ui is Some && ls[from].attach_ui->0@ == name {
        Some(from)
    } else {
        carrier(ls, name, from + 1)
    }
}

/// How an element is bound: by the first line that carries it.
pub open spec fn binding(ls: Seq<LineInfo>, name: Seq<char>) -> HudBind {
    match carrier(ls, name, 0) {
        None => HudBind::Default,
        Some(i) => if ls[i].pe_hide || le_zero32(ls[i].alpha) {
            HudBind::Hidden
        } else {
            HudBind::Bound(i as usize)
        },
    }
}

/// How an element is bound.
pub fn hud_bind(lines: &Vec<LineInfo>, name: &str) -> (r: HudBind)
    ensures
        r == binding(lines@, name@),
        r matches HudBind::Bound(i) ==> i < lines@.len(),
{
    let mut i: usize = 0;
    while i < lines.len()
        invariant
            i <= lines.len(),
            carrier(lines@, name@, i as int) == carrier(lines@, name@, 0),
        decreases lines.len() - i,
    {
        let hit: bool = match &lines[i].attach_ui {
            Some(s) => same(s.as_str(), name),
            None => false,
        };
        if hit {
            return if lines[i].pe_hide || is_le_zero32(lines[i].alpha) {
                HudBind::Hidden
            } else {
                HudBind::Bound(i)
            };
        }
        i = i + 1;
    }
    HudBind::Default
}

/// A text of the heads-up display.
pub struct HudText {
    pub text: String,
    pub anchor: TextAnchor,
    /// The line that it follows, by its place in the frame.
    pub line: Option<usize>,
}

/// A text of the heads-up display, with the text as a sequence of characters.
pub open spec fn hud_view(v: Seq<HudText>) -> Seq<(Seq<char>, TextAnchor, Option<usize>)> {
    v.map_values(|t: HudText| (t.text@, t.anchor, t.line))
}

/// A number in at least seven digits.
pub open spec fn seven_digits(n: nat) -> Seq<char> {
    let d = decimal(n);
    if d.len() < 7 {
        Seq::new((7 - d.len()) as nat, |i: int| '0') + d
    } else {
        d
    }
}

/// A score in at least seven digits.
pub fn score_text(score: u32) -> (r: String)
    ensures
        r@ == seven_digits(score as nat),
{
    let mut d: String = String::new();
    push_decimal(&mut d, score as u64);
    proof {
        assert(Seq::<char>::empty() + decimal(score as nat) == decimal(score as nat));
    }
    let n: usize = crate::strings::chars_of(d.as_str()).len();
    let mut out: String = String::new();
    let mut i: usize = n;
    while i < 7
        invariant
            n <= i,
            n >= 7 ==> i == n && out@.len() == 0,
            n < 7 ==> i <= 7 && out@ == Seq::new((i - n) as nat, |k: int| '0'),
        decreases 7 - i,
    {
        out.push('0');
        proof {
            assert(out@ == Seq::new((i + 1 - n) as nat, |k: int| '0'));
        }
        i = i + 1;
    }
    out.append(d.as_str());
    proof {
        if n >= 7 {
            assert(out@ == d@);
        }
    }
    out
}

/// An element as it is drawn: nothing where it is hidden.
pub open spec fn element(
    ls: Seq<LineInfo>,
    name: Seq<char>,
    text: Seq<char>,
    anchor: TextAnchor,
) -> Seq<(Seq<char>, TextAnchor, Option<usize>)> {
    match binding(ls, name) {
        HudBind::Hidden => Seq::empty(),
        HudBind::Default => seq![(text, anchor, None)],
        HudBind::Bound(i) => seq![(text, anchor, Some(i))],
    }
}

/// The texts of the heads-up display, in the order in which they are drawn: the score in seven
/// digits, from the third note of a combo on its number and caption, the names of chart and
/// difficulty where they are not empty.
pub open spec fn hud_texts_of(h: HudData, ls: Seq<LineInfo>) -> Seq<
    (Seq<char>, TextAnchor, Option<usize>),
> {
    let none = Seq::<(Seq<char>, TextAnchor, Option<usize>)>::empty();
    if !h.visible {
        none
    } else {
        element(ls, "score"@, seven_digits(h.score as nat), TextAnchor::TopLeft) + (if h.combo >= 3 {
            element(ls, "combonumber"@, decimal(h.combo as nat), TextAnchor::TopCenter) + element(
                ls,
                "combo"@,
                "COMBO"@,
                TextAnchor::ComboLabel,
            )
        } else {
            none
        }) + (if h.chart_name@.len() > 0 {
            element(ls, "name"@, h.chart_name@, TextAnchor::BottomLeft)
        } else {
            none
        }) + (if h.difficulty@.len() > 0 {
            element(ls, "level"@, h.difficulty@, TextAnchor::BottomRight)
        } else {
            none
        })
    }
}

fn push_element(
    out: &mut Vec<HudText>,
    lines: &Vec<LineInfo>,
    name: &str,
    text: &str,
    anchor: TextAnchor,
)
    ensures
        hud_view(final(out)@) == hud_view(old(out)@) + element(lines@, name@, text@, anchor),
{
    let ghost before = hud_view(out@);
    match hud_bind(lines, name) {
        HudBind::Hidden => {
            proof {
                assert(before + Seq::<(Seq<char>, TextAnchor, Option<usize>)>::empty() == before);
            }
        },
        HudBind::Default => {
            out.push(HudText { text: text.to_owned(), anchor, line: None });
            proof {
                assert(hud_view(out@) == before + seq![(text@, anchor, None::<usize>)]);
            }
        },
        HudBind::Bound(i) => {
            out.push(HudText { text: text.to_owned(), anchor, line: Some(i) });
            proof {
                assert(hud_view(out@) == before + seq![(text@, anchor, Some(i))]);
            }
        },
    }
}

/// The texts of the heads-up display.
pub fn hud_texts(hud: &HudData, lines: &Vec<LineInfo>) -> (r: Vec<HudText>)
    ensures
        hud_view(r@) == hud_texts_of(*hud, lines@),
{
    let mut out: Vec<HudText> = Vec::new();
    let ghost none = Seq::<(Seq<char>, TextAnchor, Option<usize>)>::empty();
    proof {
        assert(hud_view(out@) == none);
    }
    if !hud.visible {
        return out;
    }
    let score: String = score_text(hud.score);
    push_element(&mut out, lines, "score", score.as_str(), TextAnchor::TopLeft);
    let ghost a = element(
        lines@,
        "score"@,
        seven_digits(hud.score as nat),
        TextAnchor::TopLeft,
    );
    let ghost mut b = none;
    if hud.combo >= 3 {
        let mut combo: String = String::new();
        push_decimal(&mut combo, hud.combo as u64);
        proof {
            assert(combo@ == decimal(hud.combo as nat));
        }
        push_element(&mut out, lines, "combonumber", combo.as_str(), TextAnchor::TopCenter);
        push_element(&mut out, lines, "combo", "COMBO", TextAnchor::ComboLabel);
        proof {
            b = element(lines@, "combonumber"@, decimal(hud.combo as nat), TextAnchor::TopCenter)
                + element(lines@, "combo"@, "COMBO"@, TextAnchor::ComboLabel);
        }
    }
    proof {
        assert(hud_view(out@) == a + b);
    }
    let ghost mut c = none;
    if !hud.chart_name.as_str().is_empty() {
        push_element(&mut out, lines, "name", hud.chart_name.as_str(), TextAnchor::BottomLeft);
        proof {
            c = element(lines@, "name"@, hud.chart_name@, TextAnchor::BottomLeft);
        }
    }
    proof {
        assert(hud_view(out@) == a + b + c);
    }
    if !hud.difficulty.as_str().is_empty() {
        push_element(&mut out, lines, "level", hud.difficulty.as_str(), TextAnchor::BottomRight);
    } else {
        proof {
            assert(a + b + c + none == a + b + c);
        }
    }
    out
}

/// What the pause button shows.
#[derive(Clone, Copy, PartialEq, Eq, Structural, Debug)]
pub enum PauseButton {
    /// Nothing; it cannot be clicked either.
    Hidden,
    /// Two bars, on the line that it follows.
    Bars(Option<usize>),
    /// A triangle, on the line that it follows.
    Triangle(Option<usize>),
}

/// What the pause button shows.
pub fn pause_button(hud: &HudData, lines: &Vec<LineInfo>) -> (r: PauseButton)
    ensures
        r == (if !hud.visible {
            PauseButton::Hidden
        } else {
            match binding(lines@, "pause"@) {
                HudBind::Hidden => PauseButton::Hidden,
                HudBind::Default => if hud.paused {
                    PauseButton::Triangle(None)
                } else {
                    PauseButton::Bars(None)
                },
                HudBind::Bound(i) => if !gt_zero32(lines@[i as int].drawn_alpha) {
                    PauseButton::Hidden
                } else if hud.paused {
                    PauseButton::Triangle(Some(i))
                } else {
                    PauseButton::Bars(Some(i))
                },
            }
        }),
        !hud.visible ==> r is Hidden,
        r is Triangle ==> hud.paused,
        r is Bars ==> !hud.paused,
        hud.visible && (forall|k: int|
            0 <= k < lines@.len() ==> (#[trigger] lines@[k]).attach_ui is None) ==> !(r is Hidden),
{
    proof {
        lemma_carrier(lines@, "pause"@, 0);
    }
    if !hud.visible {
        return PauseButton::Hidden;
    }
    let line: Option<usize> = match hud_bind(lines, "pause") {
        HudBind::Hidden => {
            return PauseButton::Hidden;
        },
        HudBind::Default => None,
        HudBind::Bound(i) => {
            if !is_gt_zero32(lines[i].drawn_alpha) {
                return PauseButton::Hidden;
            }
            Some(i)
        },
    };
    if hud.paused {
        PauseButton::Triangle(line)
    } else {
        PauseButton::Bars(line)
    }
}

/// How the progress bar is drawn, for a progress in single-precision bits: not at all before the
/// start; else as its line has it. A line hides it where it is not more than fully transparent.
pub fn progress_bar(progress: u32, lines: &Vec<LineInfo>) -> (r: HudBind)
    ensures
        r == (if !gt_zero32(progress) {
            HudBind::Hidden
        } else {
            match carrier(lines@, "bar"@, 0) {
                None => HudBind::Default,
                Some(i) => if !lines@[i].pe_hide && gt_zero32(lines@[i].alpha) {
                    HudBind::Bound(i as usize)
                } else {
                    HudBind::Hidden
                },
            }
        }),
        !is_seen(progress) ==> r == HudBind::Hidden,
        is_seen(progress) && (forall|k: int|
            0 <= k < lines@.len() ==> (#[trigger] lines@[k]).attach_ui is None) ==> r == HudBind::Default,
        r matches HudBind::Bound(i) ==> i < lines@.len() && (lines@[i as int].attach_ui matches Some(s)
            && s@ == "bar"@) && !lines@[i as int].pe_hide && is_seen(lines@[i as int].alpha),
{
    proof {
        lemma_carrier(lines@, "bar"@, 0);
    }
    if !is_gt_zero32(progress) {
        return HudBind::Hidden;
    }
    let mut i: usize = 0;
    while i < lines.len()
        invariant
            i <= lines.len(),
            gt_zero32(progress),
            carrier(lines@, "bar"@, i as int) == carrier(lines@, "bar"@, 0),
        decreases lines.len() - i,
    {
        let hit: bool = match &lines[i].attach_ui {
            Some(s) => same(s.as_str(), "bar"),
            None => false,
        };
        if hit {
            return if !lines[i].pe_hide && is_gt_zero32(lines[i].alpha) {
                HudBind::Bound(i)
            } else {
                HudBind::Hidden
            };
        }
        i = i + 1;
    }
    HudBind::Default
}

/// A text kept for the number that it shows.
pub struct HudCache {
    pub value: u32,
    pub text: String,
}

/// The text of a number, made anew only where the number has changed.
pub fn hud_fmt<F: FnOnce(u32) -> String>(cache: &mut HudCache, v: u32, f: F) -> (r: String)
    requires
        f.requires((v,)),
    ensures
        final(cache).value == v,
        r@ == final(cache).text@,
        if old(cache).value == v {
            final(cache).text@ == old(cache).text@
        } else {
            f.ensures((v,), final(cache).text)
        },
{
    if cache.value != v {
        cache.text = f(v);
        cache.value = v;
    }
    cache.text.clone()
}

/// Whether a texture belongs to the program rather than to a chart, and stays when another chart
/// is opened.
pub fn is_builtin_texture(name: &str) -> (r: bool)
    ensures
        r == crate::strings::begins(name@, "note:"@),
{
    starts_with(name, "note:")
}

/// How frames are handed to the display.
#[derive(Clone, Copy, PartialEq, Eq, Structural, Debug)]
pub enum PresentMode {
    AutoVsync,
    Mailbox,
    AutoNoVsync,
}

/// How frames are handed to the display: without vertical synchronisation the newest frame, where
/// that is supported.
pub fn present_mode(vsync: bool, mailbox: bool) -> (r: PresentMode)
    ensures
        r == (if vsync {
            PresentMode::AutoVsync
        } else if mailbox {
            PresentMode::Mailbox
        } else {
            PresentMode::AutoNoVsync
        }),
        r is AutoVsync <==> vsync,
        r is Mailbox <==> !vsync && mailbox,
{
    if vsync {
        PresentMode::AutoVsync
    } else if mailbox {
        PresentMode::Mailbox
    } else {
        PresentMode::AutoNoVsync
    }
}

/// The device features that are asked for.
#[derive(Clone, Copy, PartialEq, Eq, Structural, Debug)]
pub struct Features {
    pub timestamps: bool,
    pub texture_compression: bool,
    pub pipeline_cache: bool,
}

/// The device features that are asked for: timestamps where timing is wanted, and what the
/// adapter has of the others.
pub fn required_features(
    timing: bool,
    has_compression: bool,
    cache_enabled: bool,
    has_cache: bool,
) -> (r: Features)
    ensures
        r == (Features {
            timestamps: timing,
            texture_compression: has_compression,
            pipeline_cache: cache_enabled && has_cache,
        }),
{
    Features {
        timestamps: timing,
        texture_compression: has_compression,
        pipeline_cache: cache_enabled && has_cache,
    }
}

/// The surface format that is chosen, by its place: the first that is not sRGB, or else the first.
pub fn choose_format(srgb: &Vec<bool>) -> (r: usize)
    requires
        srgb@.len() > 0,
    ensures
        r < srgb@.len(),
        !srgb@[r as int] ==> forall|j: int| 0 <= j < r ==> #[trigger] srgb@[j],
        srgb@[r as int] ==> r == 0 && forall|j: int| 0 <= j < srgb@.len() ==> #[trigger] srgb@[j],
{
    let mut i: usize = 0;
    while i < srgb.len()
        invariant
            i <= srgb@.len(),
            forall|j: int| 0 <= j < i ==> #[trigger] srgb@[j],
        decreases srgb.len() - i,
    {
        if !srgb[i] {
            return i;
        }
        i = i + 1;
    }
    0
}

/// The notes of a line that a mask shows, among the first `n`.
pub open spec fn masked_notes(line: usize, notes: Seq<NoteInfo>, n: int) -> Seq<
    (usize, Option<usize>),
>
    decreases n,
{
    if n <= 0 {
        Seq::empty()
    } else {
        let before = masked_notes(line, notes, n - 1);
        if le_zero32(notes[n - 1].alpha) {
            before
        } else {
            before.push((line, Some((n - 1) as usize)))
        }
    }
}

/// What a mask shows of the first `n` lines: of each line in the range that is drawn the line
/// itself, then its notes that can be seen, in their order.
pub open spec fn masked(lines: Seq<LineInfo>, within: Seq<bool>, n: int) -> Seq<
    (usize, Option<usize>),
>
    decreases n,
{
    if n <= 0 {
        Seq::empty()
    } else {
        let before = masked(lines, within, n - 1);
        let l = lines[n - 1];
        if !within[n - 1] || l.pe_hide || l.attach_ui is Some {
            before
        } else {
            before.push(((n - 1) as usize, None)) + masked_notes(
                (n - 1) as usize,
                l.notes@,
                l.notes@.len() as int,
            )
        }
    }
}

/// What a mask shows: lines by their place and notes by their line and their index. `within` says
/// of each line whether its depth is in the range of the mask.
pub fn mask_items(lines: &[LineInfo], within: &[bool]) -> (r: Vec<(usize, Option<usize>)>)
    requires
        lines@.len() == within@.len(),
    ensures
        r@ == masked(lines@, within@, lines@.len() as int),
{
    let mut out: Vec<(usize, Option<usize>)> = Vec::new();
    let mut i: usize = 0;
    while i < lines.len()
        invariant
            i <= lines.len(),
            lines@.len() == within@.len(),
            out@ == masked(lines@, within@, i as int),
        decreases lines.len() - i,
    {
        let l: &LineInfo = &lines[i];
        if within[i] && !l.pe_hide && l.attach_ui.is_none() {
            out.push((i, None));
            let ghost before = out@;
            let mut k: usize = 0;
            assert(before + masked_notes(i, l.notes@, 0) == before);
            while k < l.notes.len()
                invariant
                    k <= l.notes.len(),
                    out@ == before + masked_notes(i, l.notes@, k as int),
                decreases l.notes.len() - k,
            {
                if !is_le_zero32(l.notes[k].alpha) {
                    out.push((i, Some(k)));
                    assert(out@ == before + masked_notes(i, l.notes@, k as int).push((i, Some(k))));
                }
                k = k + 1;
            }
        }
        i = i + 1;
    }
    out
}

/// A pass of a frame.
#[derive(Clone, Copy, PartialEq, Eq, Structural, Debug)]
pub enum FramePass {
    /// The lines `from..to`, from back to front. The first such pass clears the target and draws the
    /// background; `extras` says that what lies on top of the lines is drawn in the same pass.
    Lines { from: usize, to: usize, first: bool, extras: bool },
    /// What lies on top of the lines.
    Extras,
    /// The effects, on the finished scene.
    Effects,
    /// The output of the effects is copied to the window.
    Present,
    /// The panels, which no effect changes.
    Overlay,
}

/// The passes of the lines: one for each chunk, or one with everything.
pub open spec fn line_passes(chunks: Option<Seq<(usize, usize)>>, lines: usize) -> Seq<FramePass> {
    match chunks {
        Some(c) => Seq::new(
            c.len(),
            |i: int|
                FramePass::Lines { from: c[i].0, to: c[i].1, first: i == 0, extras: false },
        ),
        None => seq![FramePass::Lines { from: 0, to: lines, first: true, extras: true }],
    }
}

/// The passes of a frame: the lines, on top of them the extras, on both the effects where there are
/// any, and at last the panels.
pub open spec fn frame_passes(
    chunks: Option<Seq<(usize, usize)>>,
    lines: usize,
    extras: bool,
    effects: bool,
) -> Seq<FramePass> {
    line_passes(chunks, lines) + (if chunks is Some && extras {
        seq![FramePass::Extras]
    } else {
        Seq::empty()
    }) + (if effects {
        seq![FramePass::Effects, FramePass::Present]
    } else {
        Seq::empty()
    }) + seq![FramePass::Overlay]
}

/// Plans the passes of a frame of `lines` lines, which may be cut into chunks. `extras` says that
/// something lies on top of the lines, `effects` that an effect is active.
pub fn draw_to_view(
    chunks: &Option<Vec<(usize, usize)>>,
    lines: usize,
    extras: bool,
    effects: bool,
) -> (r: Vec<FramePass>)
    ensures
        r@ == frame_passes(
            match *chunks {
                Some(c) => Some(c@),
                None => None,
            },
            lines,
            extras,
            effects,
        ),
{
    let mut out: Vec<FramePass> = Vec::new();
    match chunks {
        Some(c) => {
            let ghost all = line_passes(Some(c@), lines);
            let mut i: usize = 0;
            while i < c.len()
                invariant
                    i <= c.len(),
                    all == line_passes(Some(c@), lines),
                    out@ == all.take(i as int),
                decreases c.len() - i,
            {
                out.push(
                    FramePass::Lines { from: c[i].0, to: c[i].1, first: i == 0, extras: false },
                );
                i = i + 1;
            }
            assert(all.take(all.len() as int) == all);
            if extras {
                out.push(FramePass::Extras);
            }
        },
        None => {
            out.push(FramePass::Lines { from: 0, to: lines, first: true, extras: true });
        },
    }
    if effects {
        out.push(FramePass::Effects);
        out.push(FramePass::Present);
    }
    out.push(FramePass::Overlay);
    out
}

/// Law: however a frame is cut, its first pass clears the target and no other does, the passes of the
/// lines follow each other without a gap from the first line to the last, and the panels come last.
pub proof fn law_every_frame_is_cleared_once(
    chunks: Option<Seq<(usize, usize)>>,
    lines: usize,
    per: int,
    extras: bool,
    effects: bool,
)
    requires
        chunks matches Some(c) ==> lines > 0 && is_cut(c, lines as int, per),
    ensures
        ({
            let p = frame_passes(chunks, lines, extras, effects);
            let n = line_passes(chunks, lines).len() as int;
            &&& 0 < n < p.len()
            &&& forall|i: int| 0 <= i < p.len() ==> ((#[trigger] p[i]) is Lines <==> i < n)
            &&& forall|i: int| 0 <= i < n ==> ((#[trigger] p[i])->first <==> i == 0)
            &&& p[0]->from == 0
            &&& p[n - 1]->to == lines
            &&& forall|i: int| 0 < i < n ==> (#[trigger] p[i])->from == p[i - 1]->to
            &&& p.last() == FramePass::Overlay
            &&& forall|i: int| 0 <= i < p.len() - 1 ==> #[trigger] p[i] != FramePass::Overlay
        }),
{
    let p = frame_passes(chunks, lines, extras, effects);
    let head = line_passes(chunks, lines);
    assert forall|i: int| 0 <= i < head.len() implies #[trigger] p[i] == head[i] by {
    }
    match chunks {
        Some(c) => {
            assert forall|i: int| 0 < i < head.len() implies (#[trigger] p[i])->from == p[i
                - 1]->to by {
                let (a, b) = c[i];
                let (d, e) = c[i - 1];
                assert(i * per == (i - 1) * per + per) by (nonlinear_arith);
            }
            let (a, b) = c[0];
            assert(0 * per == 0);
            let (d, e) = c[c.len() - 1];
        },
        None => {},
    }
}

/// Whether single-precision bits are a number above zero.
pub open spec fn is_seen(alpha: u32) -> bool {
    0 < alpha <= 0x7F80_0000
}

/// Whether single-precision bits are zero or a number below it.
pub open spec fn is_unseen(alpha: u32) -> bool {
    alpha == 0 || 0x8000_0000 <= alpha <= 0xFF80_0000
}

/// Law: which parts of a note are drawn does not depend on the side of the line that it is on, nor on
/// whether it is hit together with others.
pub proof fn law_side_hides_nothing(a: NoteInfo, b: NoteInfo, sprite: bool)
    requires
        a.kind == b.kind,
        a.alpha == b.alpha,
        a.has_end == b.has_end,
        a.head_inside == b.head_inside,
        a.tail_inside == b.tail_inside,
        a.body_shown == b.body_shown,
    ensures
        parts_of(a, sprite) == parts_of(b, sprite),
{
}

/// Law: of a note that can be seen at all, the head is drawn exactly where it is inside the playfield,
/// the body and the tail exactly where the note is a hold with an end and they can be seen; with a sprite
/// it is drawn with it, without one plainly, where tails have no part of their own. Each part is drawn
/// once, the body below the head and the head below the tail. Of a note that cannot be seen there is
/// nothing.
#[verifier::rlimit(40)]
pub proof fn law_parts_of_a_note(n: NoteInfo, sprite: bool)
    ensures
        is_unseen(n.alpha) ==> parts_of(n, sprite).len() == 0,
        is_seen(n.alpha) ==> {
            let p = parts_of(n, sprite);
            let hold = n.kind == 2;
            let head = if !sprite {
                Part::PlainNote
            } else if hold {
                Part::HoldHead
            } else {
                Part::Sprite
            };
            let body = if sprite {
                Part::HoldBody
            } else {
                Part::PlainBody
            };
            let shown_body = hold && n.has_end && n.body_shown;
            let shown_tail = hold && n.has_end && n.tail_inside && sprite;
            &&& p.contains(head) <==> n.head_inside
            &&& p.contains(body) <==> shown_body
            &&& p.contains(Part::HoldTail) <==> shown_tail
            &&& shown_body ==> p.first() == body
            &&& shown_tail ==> p.last() == Part::HoldTail
            &&& p.len() == (if n.head_inside {
                1int
            } else {
                0
            }) + (if shown_body {
                1int
            } else {
                0
            }) + (if shown_tail {
                1int
            } else {
                0
            })
        },
{
    let p = parts_of(n, sprite);
    if is_seen(n.alpha) {
        let hold = n.kind == 2;
        let b: int = if hold && n.has_end && n.body_shown {
            1
        } else {
            0
        };
        let h: int = if n.head_inside {
            1
        } else {
            0
        };
        let t: int = if hold && n.has_end && n.tail_inside && sprite {
            1
        } else {
            0
        };
        assert(p.len() == b + h + t);
        if b == 1 {
            assert(p[0] == if sprite {
                Part::HoldBody
            } else {
                Part::PlainBody
            });
        }
        if h == 1 {
            assert(p[b] == if !sprite {
                Part::PlainNote
            } else if hold {
                Part::HoldHead
            } else {
                Part::Sprite
            });
        }
        if t == 1 {
            assert(p[b + h] == Part::HoldTail);
        }
    }
}

#[verifier::rlimit(40)]
proof fn lemma_note_quads(l: LineInfo, order: Seq<usize>, n: int, loaded: Seq<Seq<char>>)
    requires
        0 <= n <= order.len(),
    ensures
        ({
            let q = note_quads(l, order, n, loaded);
            &&& forall|p: int|
                0 <= p < q.len() ==> (#[trigger] q[p]).line == l.index && q[p].note is Some && exists|k: int|
                    0 <= k < n && q[p].note == Some(#[trigger] order[k])
            &&& forall|k: int|
                0 <= k < n && is_seen(l.notes@[(#[trigger] order[k]) as int].alpha)
                    && l.notes@[order[k] as int].head_inside ==> exists|p: int|
                    0 <= p < q.len() && (#[trigger] q[p]).note == Some(order[k])
        }),
    decreases n,
{
    if n > 0 {
        lemma_note_quads(l, order, n - 1, loaded);
        let before = note_quads(l, order, n - 1, loaded);
        let q = note_quads(l, order, n, loaded);
        let at = order[n - 1];
        let m = l.notes@[at as int];
        let sprite = sprite_of(m.kind, m.multiple_hint, loaded).0;
        let more = part_quads(l.index, at, m, parts_of(m, sprite is Some), sprite);
        assert(q == before + more);
        assert forall|p: int| 0 <= p < q.len() implies (#[trigger] q[p]).line == l.index && q[p].note is Some
            && exists|k: int| 0 <= k < n && q[p].note == Some(#[trigger] order[k]) by {
            if p < before.len() {
                assert(q[p] == before[p]);
                let k = choose|k: int| 0 <= k < n - 1 && before[p].note == Some(#[trigger] order[k]);
                assert(q[p].note == Some(order[k]));
            } else {
                assert(q[p] == more[p - before.len()]);
                assert(q[p].note == Some(order[n - 1]));
            }
        }
        assert forall|k: int|
            0 <= k < n && is_seen(l.notes@[(#[trigger] order[k]) as int].alpha)
                && l.notes@[order[k] as int].head_inside implies exists|p: int|
            0 <= p < q.len() && (#[trigger] q[p]).note == Some(order[k]) by {
            if k < n - 1 {
                let p = choose|p: int|
                    0 <= p < before.len() && (#[trigger] before[p]).note == Some(order[k]);
                assert(q[p].note == Some(order[k]));
            } else {
                law_parts_of_a_note(m, sprite is Some);
                assert(more.len() >= 1);
                assert(q[before.len() as int] == more[0]);
                assert(q[before.len() as int].note == Some(order[k]));
            }
        }
    }
}

/// Law: in the quads of a line that is drawn the line itself comes first and once; behind it every note
/// of a drawn kind that can be seen, with its head inside the playfield, has at least one quad, and no
/// quad stands for anything but a note of the line. A line that is hidden or carries a part of the
/// heads-up display has no quad at all.
#[verifier::spinoff_prover]
#[verifier::rlimit(80)]
pub proof fn law_quads_of_a_line(l: LineInfo, loaded: Seq<Seq<char>>)
    requires
        l.notes@.len() <= usize::MAX,
    ensures
        l.pe_hide || l.attach_ui is Some ==> line_quads(l, loaded).len() == 0,
        !l.pe_hide && l.attach_ui is None ==> {
            let q = line_quads(l, loaded);
            &&& q.len() > 0
            &&& q[0].note is None
            &&& forall|p: int| 0 <= p < q.len() ==> (#[trigger] q[p]).line == l.index
            &&& forall|p: int|
                0 < p < q.len() ==> ((#[trigger] q[p]).note matches Some(k) && k < l.notes@.len() && 1
                    <= l.notes@[k as int].kind <= 4)
            &&& forall|k: int|
                0 <= k < l.notes@.len() && 1 <= (#[trigger] l.notes@[k]).kind <= 4 && is_seen(
                    l.notes@[k].alpha,
                ) && l.notes@[k].head_inside ==> exists|p: int|
                    0 < p < q.len() && (#[trigger] q[p]).note == Some(k as usize)
        },
{
    if !l.pe_hide && l.attach_ui is None {
        let order = drawing_order(l.notes@, 8);
        let n = order.len() as int;
        let notes = note_quads(l, order, n, loaded);
        let q = line_quads(l, loaded);
        assert(q == seq![bar_quad(l, loaded)] + notes);
        lemma_note_quads(l, order, n, loaded);
        lemma_drawing_order(l.notes@, 8);
        assert forall|p: int| 0 < p < q.len() implies ((#[trigger] q[p]).note matches Some(k) && k
            < l.notes@.len() && 1 <= l.notes@[k as int].kind <= 4) by {
            assert(q[p] == notes[p - 1]);
            let k = choose|k: int| 0 <= k < n && notes[p - 1].note == Some(#[trigger] order[k]);
            assert(order[k] < l.notes@.len());
        }
        assert forall|p: int| 0 <= p < q.len() implies (#[trigger] q[p]).line == l.index by {
            if p > 0 {
                assert(q[p] == notes[p - 1]);
            }
        }
        assert forall|k: int|
            0 <= k < l.notes@.len() && 1 <= (#[trigger] l.notes@[k]).kind <= 4 && is_seen(
                l.notes@[k].alpha,
            ) && l.notes@[k].head_inside implies exists|p: int|
            0 < p < q.len() && (#[trigger] q[p]).note == Some(k as usize) by {
            assert(is_drawn(l.notes@[k].kind));
            assert(order.contains(k as usize));
            let i = choose|i: int| 0 <= i < order.len() && order[i] == k as usize;
            assert(is_seen(l.notes@[order[i] as int].alpha));
            let p = choose|p: int| 0 <= p < notes.len() && (#[trigger] notes[p]).note == Some(order[i]);
            assert(q[p + 1].note == Some(k as usize));
        }
    }
}

/// Law: in a frame every line that is drawn has a quad of its own, and so has each of its notes of a
/// drawn kind that can be seen with its head inside the playfield.
#[verifier::spinoff_prover]
#[verifier::rlimit(80)]
pub proof fn law_frame_shows_every_note(ls: Seq<LineInfo>, loaded: Seq<Seq<char>>, i: int, k: int)
    requires
        0 <= i < ls.len(),
        0 <= k < ls[i].notes@.len() <= usize::MAX,
        !ls[i].pe_hide,
        ls[i].attach_ui is None,
        1 <= ls[i].notes@[k].kind <= 4,
        is_seen(ls[i].notes@[k].alpha),
        ls[i].notes@[k].head_inside,
    ensures
        exists|p: int|
            0 <= p < all_quads(ls, loaded).len() && (#[trigger] all_quads(ls, loaded)[p]).line
                == ls[i].index && all_quads(ls, loaded)[p].note == Some(k as usize),
        exists|p: int|
            0 <= p < all_quads(ls, loaded).len() && (#[trigger] all_quads(ls, loaded)[p]).line
                == ls[i].index && all_quads(ls, loaded)[p].note is None,
    decreases ls.len(),
{
    let q = all_quads(ls, loaded);
    let before = all_quads(ls.drop_last(), loaded);
    if i < ls.len() - 1 {
        law_frame_shows_every_note(ls.drop_last(), loaded, i, k);
        let p = choose|p: int|
            0 <= p < before.len() && (#[trigger] before[p]).line == ls[i].index && before[p].note == Some(
                k as usize,
            );
        assert(q[p] == before[p]);
        let r = choose|p: int|
            0 <= p < before.len() && (#[trigger] before[p]).line == ls[i].index && before[p].note is None;
        assert(q[r] == before[r]);
    } else {
        let own = line_quads(ls[i], loaded);
        law_quads_of_a_line(ls[i], loaded);
        let p = choose|p: int| 0 < p < own.len() && (#[trigger] own[p]).note == Some(k as usize);
        assert(q[before.len() + p] == own[p]);
        assert(q[before.len() as int] == own[0]);
    }
}

/// Law: notes below the line are drawn before those above it; on one side holds before drags, drags
/// before taps and taps before flicks; notes of one kind on one side as they stand on the line.
pub proof fn law_notes_from_back_to_front(notes: Seq<NoteInfo>, i: int, j: int)
    requires
        notes.len() <= usize::MAX,
        0 <= i < j < drawing_order(notes, 8).len(),
    ensures
        ({
            let s = drawing_order(notes, 8);
            let a = notes[s[i] as int];
            let b = notes[s[j] as int];
            &&& !(a.above && !b.above)
            &&& a.above == b.above ==> {
                &&& b.kind == 2 ==> a.kind == 2
                &&& b.kind == 4 ==> a.kind == 2 || a.kind == 4
                &&& b.kind == 1 ==> a.kind != 3
                &&& a.kind == b.kind ==> s[i] < s[j]
            }
        }),
{
    lemma_drawing_order(notes, 8);
    let s = drawing_order(notes, 8);
    assert(s[i] < notes.len() && s[j] < notes.len());
}

/// Law: the quads of a line stand in the order in which its notes are drawn.
pub proof fn law_quads_follow_the_notes(l: LineInfo, loaded: Seq<Seq<char>>, p: int, q: int)
    requires
        l.notes@.len() <= usize::MAX,
        0 < p < q < line_quads(l, loaded).len(),
    ensures
        ({
            let x = line_quads(l, loaded)[p].note->0;
            let y = line_quads(l, loaded)[q].note->0;
            let a = l.notes@[x as int];
            let b = l.notes@[y as int];
            &&& !(a.above && !b.above)
            &&& a.above == b.above && a.kind == b.kind ==> x <= y
            &&& a.above == b.above && b.kind == 2 ==> a.kind == 2
            &&& a.above == b.above && a.kind == 3 ==> b.kind == 3
        }),
{
    let order = drawing_order(l.notes@, 8);
    let n = order.len() as int;
    let notes = note_quads(l, order, n, loaded);
    let all = line_quads(l, loaded);
    assert(all == seq![bar_quad(l, loaded)] + notes);
    assert(all[p] == notes[p - 1] && all[q] == notes[q - 1]);
    lemma_drawing_order(l.notes@, 8);
    lemma_quads_in_order(l, order, n, loaded, p - 1, q - 1);
    let (i, j): (int, int) = choose|i: int, j: int|
        0 <= i <= j < n && notes[p - 1].note == Some(#[trigger] order[i]) && notes[q - 1].note == Some(
            #[trigger] order[j],
        );
    assert(is_drawn(l.notes@[order[i] as int].kind) && is_drawn(l.notes@[order[j] as int].kind));
    if i < j {
        law_notes_from_back_to_front(l.notes@, i, j);
    }
}

proof fn lemma_quads_in_order(
    l: LineInfo,
    order: Seq<usize>,
    n: int,
    loaded: Seq<Seq<char>>,
    p: int,
    q: int,
)
    requires
        0 <= n <= order.len(),
        0 <= p < q < note_quads(l, order, n, loaded).len(),
    ensures
        exists|i: int, j: int|
            0 <= i <= j < n && note_quads(l, order, n, loaded)[p].note == Some(#[trigger] order[i])
                && note_quads(l, order, n, loaded)[q].note == Some(#[trigger] order[j]),
    decreases n,
{
    if n > 0 {
        let before = note_quads(l, order, n - 1, loaded);
        let all = note_quads(l, order, n, loaded);
        let at = order[n - 1];
        let m = l.notes@[at as int];
        let sprite = sprite_of(m.kind, m.multiple_hint, loaded).0;
        let more = part_quads(l.index, at, m, parts_of(m, sprite is Some), sprite);
        assert(all == before + more);
        if q < before.len() {
            lemma_quads_in_order(l, order, n - 1, loaded, p, q);
            assert(all[p] == before[p] && all[q] == before[q]);
            let (i, j): (int, int) = choose|i: int, j: int|
                0 <= i <= j < n - 1 && before[p].note == Some(#[trigger] order[i]) && before[q].note == Some(
                    #[trigger] order[j],
                );
            assert(all[p].note == Some(order[i]) && all[q].note == Some(order[j]));
        } else {
            assert(all[q] == more[q - before.len()]);
            assert(all[q].note == Some(order[n - 1]));
            if p < before.len() {
                lemma_note_quads(l, order, n - 1, loaded);
                assert(all[p] == before[p]);
                let i = choose|i: int| 0 <= i < n - 1 && before[p].note == Some(#[trigger] order[i]);
                assert(all[p].note == Some(order[i]));
            } else {
                assert(all[p] == more[p - before.len()]);
                assert(all[p].note == Some(order[n - 1]));
            }
        }
    }
}

/// Law: a note has a sprite exactly where the one of its kind is loaded, or it is hit together with others
/// and that of its kind for these is; the sprite that it has is loaded; a note that is hit together
/// with others prefers the one for these, and no other note has it. The sprites are named for taps,
/// holds, flicks and drags, those for notes that are hit together with others by the same and `_mh`.
pub proof fn law_sprites(kind: u8, hint: bool, loaded: Seq<Seq<char>>)
    ensures
        kind == 1 ==> base_sprite(kind) == "note:click"@,
        kind == 2 ==> base_sprite(kind) == "note:hold"@,
        kind == 3 ==> base_sprite(kind) == "note:flick"@,
        kind == 4 ==> base_sprite(kind) == "note:drag"@,
        hint_sprite(kind) == base_sprite(kind) + "_mh"@,
        ({
            let r = sprite_of(kind, hint, loaded);
            let base = base_sprite(kind);
            let both = base + "_mh"@;
            &&& r.0 is Some <==> loaded.contains(base) || (hint && loaded.contains(both))
            &&& r.0 matches Some(t) ==> loaded.contains(t)
            &&& hint && loaded.contains(both) ==> r.0 == Some(both)
            &&& !(hint && loaded.contains(both)) && loaded.contains(base) ==> r.0 == Some(base)
            &&& r.1 <==> hint && loaded.contains(both) && loaded.contains(base)
        }),
{
    reveal_strlit("_mh");
    reveal_strlit("note:click");
    reveal_strlit("note:hold");
    reveal_strlit("note:flick");
    reveal_strlit("note:drag");
    reveal_strlit("note:click_mh");
    reveal_strlit("note:hold_mh");
    reveal_strlit("note:flick_mh");
    reveal_strlit("note:drag_mh");
    assert("note:click_mh"@ =~= "note:click"@ + "_mh"@);
    assert("note:hold_mh"@ =~= "note:hold"@ + "_mh"@);
    assert("note:flick_mh"@ =~= "note:flick"@ + "_mh"@);
    assert("note:drag_mh"@ =~= "note:drag"@ + "_mh"@);
}

/// Law: a quad of a note is as opaque as the note, and has the texture of the note's sprite, or none;
/// what is drawn with a sprite keeps its colours, what is drawn plainly has those of its kind: taps
/// 0.2, 0.6, 1, holds 0.3, 0.7, 1, flicks 1, 0.3, 0.5, drags 1, 0.85, 0.2.
pub proof fn law_colours_of_a_note(
    line: usize,
    at: usize,
    n: NoteInfo,
    parts: Seq<Part>,
    tex: Option<Seq<char>>,
    i: int,
)
    requires
        0 <= i < parts.len(),
    ensures
        ({
            let q = part_quads(line, at, n, parts, tex)[i];
            let t = q.tint->0;
            let plain = parts[i] == Part::PlainBody || parts[i] == Part::PlainNote;
            &&& part_quads(line, at, n, parts, tex).len() == parts.len()
            &&& q.line == line
            &&& q.note == Some(at)
            &&& q.part == parts[i]
            &&& q.tex == tex
            &&& q.tint is Some
            &&& t.alpha == n.alpha
            &&& !plain ==> t.red == 0x3F80_0000 && t.green == 0x3F80_0000 && t.blue == 0x3F80_0000
            &&& plain && n.kind == 1 ==> (t.red, t.green, t.blue) == (
                0x3E4C_CCCDu32,
                0x3F19_999Au32,
                0x3F80_0000u32,
            )
            &&& plain && n.kind == 2 ==> (t.red, t.green, t.blue) == (
                0x3E99_999Au32,
                0x3F33_3333u32,
                0x3F80_0000u32,
            )
            &&& plain && n.kind == 3 ==> (t.red, t.green, t.blue) == (
                0x3F80_0000u32,
                0x3E99_999Au32,
                0x3F00_0000u32,
            )
            &&& plain && n.kind == 4 ==> (t.red, t.green, t.blue) == (
                0x3F80_0000u32,
                0x3F59_999Au32,
                0x3E4C_CCCDu32,
            )
        }),
{
}

/// Law: a line is drawn with its texture exactly where that is loaded, else as a bar without a texture.
pub proof fn law_texture_of_a_line(l: LineInfo, loaded: Seq<Seq<char>>)
    ensures
        ({
            let q = bar_quad(l, loaded);
            let textured = l.texture matches Some(t) && loaded.contains(t@);
            &&& q.line == l.index
            &&& q.note is None
            &&& q.tint is None
            &&& textured ==> q.part == Part::LineTexture && q.tex == Some(l.texture->0@)
            &&& !textured ==> q.part == Part::Bar && q.tex is None
        }),
{
}

/// Law: the line that tells how long frames take is red above fifty milliseconds, yellow above twenty-five
/// up to fifty, and green up to twenty-five; it is opaque.
pub proof fn law_frame_times_have_colours(ms: u32)
    ensures
        ({
            let t = frame_tint_of(ms);
            let red = (0x3F80_0000u32, 0x3EB3_3333u32, 0x3EB3_3333u32);
            let yellow = (0x3F80_0000u32, 0x3F51_EB85u32, 0x3EB3_3333u32);
            let green = (0x3F21_47AEu32, 0x3F66_6666u32, 0x3F47_AE14u32);
            &&& t.alpha == 0x3F80_0000
            &&& 0x4248_0000 < ms <= 0x7F80_0000 ==> (t.red, t.green, t.blue) == red
            &&& 0x41C8_0000 < ms <= 0x4248_0000 ==> (t.red, t.green, t.blue) == yellow
            &&& ms <= 0x41C8_0000 ==> (t.red, t.green, t.blue) == green
        }),
{
}

/// Law: the estimate grows by one for a line and three for each of its notes, from two, and is never less
/// than the number of quads that there are.
pub proof fn law_estimate_is_enough(ls: Seq<LineInfo>, loaded: Seq<Seq<char>>)
    requires
        forall|i: int| 0 <= i < ls.len() ==> (#[trigger] ls[i]).notes@.len() <= usize::MAX,
    ensures
        all_quads(ls, loaded).len() <= estimate(ls),
        ls.len() == 0 ==> estimate(ls) == 2,
        forall|l: LineInfo| #[trigger]
            estimate(ls.push(l)) == estimate(ls) + 1 + 3 * l.notes@.len(),
    decreases ls.len(),
{
    assert forall|l: LineInfo| #[trigger] estimate(ls.push(l)) == estimate(ls) + 1 + 3 * l.notes@.len() by {
        assert(ls.push(l).drop_last() == ls);
    }
    if ls.len() > 0 {
        law_estimate_is_enough(ls.drop_last(), loaded);
        let l = ls.last();
        assert(l == ls[ls.len() - 1]);
        let order = drawing_order(l.notes@, 8);
        lemma_quad_count(l, order, order.len() as int, loaded);
        law_note_order(l.notes@);
        lemma_drawing_order(l.notes@, 8);
        lemma_few_indices(order, l.notes@.len());
    }
}

proof fn lemma_quad_count(l: LineInfo, order: Seq<usize>, n: int, loaded: Seq<Seq<char>>)
    requires
        0 <= n,
    ensures
        note_quads(l, order, n, loaded).len() <= 3 * n,
    decreases n,
{
    if n > 0 {
        lemma_quad_count(l, order, n - 1, loaded);
    }
}

proof fn lemma_few_indices(r: Seq<usize>, n: nat)
    requires
        forall|i: int| 0 <= i < r.len() ==> (#[trigger] r[i]) < n,
        r.no_duplicates(),
    ensures
        r.len() <= n,
{
    let s = r.map_values(|u: usize| u as int);
    assert(s.no_duplicates()) by {
        assert forall|i: int, j: int| 0 <= i < s.len() && 0 <= j < s.len() && i != j implies s[i] != s[j] by {
            assert(r[i] != r[j]);
        }
    }
    s.unique_seq_to_set();
    vstd::set_lib::lemma_int_range(0, n as int);
    assert(s.to_set().subset_of(vstd::set_lib::set_int_range(0, n as int))) by {
        assert forall|e: int| s.to_set().contains(e) implies vstd::set_lib::set_int_range(0, n as int).contains(
            e,
        ) by {
            let i = choose|i: int| 0 <= i < s.len() && s[i] == e;
            assert(r[i] < n);
        }
    }
    vstd::set_lib::lemma_len_subset(s.to_set(), vstd::set_lib::set_int_range(0, n as int));
}

/// Law: a frame is built by at least one thread, by no more than the machine has or there are lines, and
/// by as many as these allow.
pub proof fn law_workers(cores: nat, lines: nat)
    ensures
        worker_count(cores, lines) >= 1,
        cores >= 1 ==> worker_count(cores, lines) <= cores,
        lines >= 1 ==> worker_count(cores, lines) <= lines,
        cores >= 1 && lines >= 1 ==> worker_count(cores, lines) == cores || worker_count(cores, lines)
            == lines,
        lines == 0 || cores == 0 ==> worker_count(cores, lines) == 1,
{
}

proof fn lemma_carrier(ls: Seq<LineInfo>, name: Seq<char>, from: int)
    requires
        0 <= from <= ls.len(),
    ensures
        match carrier(ls, name, from) {
            None => forall|k: int|
                from <= k < ls.len() ==> !((#[trigger] ls[k]).attach_ui matches Some(s) && s@ == name),
            Some(i) => from <= i < ls.len() && (ls[i].attach_ui matches Some(s) && s@ == name) && forall|
                k: int,
            |
                from <= k < i ==> !((#[trigger] ls[k]).attach_ui matches Some(s) && s@ == name),
        },
    decreases ls.len() - from,
{
    if from < ls.len() && !(ls[from].attach_ui is Some && ls[from].attach_ui->0@ == name) {
        lemma_carrier(ls, name, from + 1);
    }
}

/// Law: an element of the heads-up display that no line carries stands at its own place; else the first
/// line that carries it decides: it follows that line where the line is neither hidden nor unseen, and
/// is hidden otherwise.
pub proof fn law_element_follows_its_line(ls: Seq<LineInfo>, name: Seq<char>, i: int)
    requires
        0 <= i < ls.len() <= usize::MAX,
        ls[i].attach_ui matches Some(s) && s@ == name,
        forall|k: int|
            0 <= k < i ==> !((#[trigger] ls[k]).attach_ui matches Some(s) && s@ == name),
    ensures
        !ls[i].pe_hide && is_seen(ls[i].alpha) ==> binding(ls, name) == HudBind::Bound(i as usize),
        ls[i].pe_hide || is_unseen(ls[i].alpha) ==> binding(ls, name) == HudBind::Hidden,
{
    lemma_carrier(ls, name, 0);
}

/// Law: an element that no line carries stands at its own place.
pub proof fn law_element_without_line(ls: Seq<LineInfo>, name: Seq<char>)
    requires
        forall|k: int|
            0 <= k < ls.len() ==> !((#[trigger] ls[k]).attach_ui matches Some(s) && s@ == name),
    ensures
        binding(ls, name) == HudBind::Default,
{
    lemma_carrier(ls, name, 0);
}

/// Law: a heads-up display that no line carries a part of shows the score at the top left; from a combo of
/// three on, and not before, its number at the top and the word below it; the name of the chart at the
/// bottom left and the difficulty at the bottom right where there are such. One that is not visible shows
/// nothing.
#[verifier::rlimit(60)]
pub proof fn law_heads_up_display(h: HudData, ls: Seq<LineInfo>)
    requires
        forall|k: int| 0 <= k < ls.len() ==> (#[trigger] ls[k]).attach_ui is None,
    ensures
        ({
            let t = hud_texts_of(h, ls);
            &&& !h.visible ==> t.len() == 0
            &&& h.visible ==> {
                let combo: int = if h.combo >= 3 {
                    2
                } else {
                    0
                };
                let name: int = if h.chart_name@.len() > 0 {
                    1
                } else {
                    0
                };
                let level: int = if h.difficulty@.len() > 0 {
                    1
                } else {
                    0
                };
                &&& t.len() == 1 + combo + name + level
                &&& t[0] == (seven_digits(h.score as nat), TextAnchor::TopLeft, None::<usize>)
                &&& combo > 0 ==> t[1] == (decimal(h.combo as nat), TextAnchor::TopCenter, None::<usize>)
                    && t[2] == ("COMBO"@, TextAnchor::ComboLabel, None::<usize>)
                &&& name > 0 ==> t[1 + combo] == (h.chart_name@, TextAnchor::BottomLeft, None::<usize>)
                &&& level > 0 ==> t.last() == (h.difficulty@, TextAnchor::BottomRight, None::<usize>)
            }
        }),
{
    law_element_without_line(ls, "score"@);
    law_element_without_line(ls, "combonumber"@);
    law_element_without_line(ls, "combo"@);
    law_element_without_line(ls, "name"@);
    law_element_without_line(ls, "level"@);
}

/// Law: a score is its decimal digits, with zeros in front up to seven digits.
pub proof fn law_score_digits(n: nat)
    ensures
        ({
            let t = seven_digits(n);
            let d = decimal(n);
            &&& t.len() >= 7
            &&& t.len() == 7 || t == d
            &&& d.len() <= t.len()
            &&& t.skip(t.len() - d.len()) == d
            &&& forall|i: int| 0 <= i < t.len() - d.len() ==> #[trigger] t[i] == '0'
        }),
{
    let t = seven_digits(n);
    let d = decimal(n);
    assert(t.skip(t.len() - d.len()) =~= d);
}

#[verifier::rlimit(40)]
proof fn lemma_masked_notes(line: usize, notes: Seq<NoteInfo>, n: int)
    requires
        0 <= n <= notes.len() <= usize::MAX,
    ensures
        ({
            let m = masked_notes(line, notes, n);
            &&& forall|p: int|
                0 <= p < m.len() ==> (#[trigger] m[p]).0 == line && (m[p].1 matches Some(k) && k < n
                    && !is_unseen(notes[k as int].alpha))
            &&& forall|k: int|
                0 <= k < n && !is_unseen((#[trigger] notes[k]).alpha) ==> m.contains(
                    (line, Some(k as usize)),
                )
            &&& forall|p: int, q: int|
                0 <= p < q < m.len() ==> (#[trigger] m[p]).1->0 < (#[trigger] m[q]).1->0
        }),
    decreases n,
{
    if n > 0 {
        lemma_masked_notes(line, notes, n - 1);
        let b = masked_notes(line, notes, n - 1);
        let m = masked_notes(line, notes, n);
        assert forall|k: int| 0 <= k < n && !is_unseen((#[trigger] notes[k]).alpha) implies m.contains(
            (line, Some(k as usize)),
        ) by {
            if k < n - 1 {
                let p = choose|p: int| 0 <= p < b.len() && b[p] == (line, Some(k as usize));
                assert(m[p] == (line, Some(k as usize)));
            } else {
                assert(m[m.len() - 1] == (line, Some(k as usize)));
            }
        }
    }
}

/// Law: a mask shows exactly the lines whose depth is in its range and that are drawn, and of these exactly
/// the notes that can be seen.
#[verifier::spinoff_prover]
#[verifier::rlimit(80)]
pub proof fn law_mask_shows(lines: Seq<LineInfo>, within: Seq<bool>, n: int)
    requires
        0 <= n <= lines.len() <= usize::MAX,
        lines.len() == within.len(),
        forall|i: int| 0 <= i < lines.len() ==> (#[trigger] lines[i]).notes@.len() <= usize::MAX,
    ensures
        ({
            let m = masked(lines, within, n);
            &&& forall|p: int|
                0 <= p < m.len() ==> ({
                    let i = (#[trigger] m[p]).0 as int;
                    &&& i < n
                    &&& within[i]
                    &&& !lines[i].pe_hide
                    &&& lines[i].attach_ui is None
                    &&& m[p].1 matches Some(k) ==> k < lines[i].notes@.len() && !is_unseen(
                        lines[i].notes@[k as int].alpha,
                    )
                })
            &&& forall|i: int|
                0 <= i < n && within[i] && !(#[trigger] lines[i]).pe_hide && lines[i].attach_ui is None
                    ==> m.contains((i as usize, None::<usize>))
            &&& forall|i: int, k: int|
                0 <= i < n && within[i] && !(#[trigger] lines[i]).pe_hide && lines[i].attach_ui is None && 0
                    <= k < lines[i].notes@.len() && !is_unseen((#[trigger] lines[i].notes@[k]).alpha)
                    ==> m.contains((i as usize, Some(k as usize)))
        }),
    decreases n,
{
    if n > 0 {
        law_mask_shows(lines, within, n - 1);
        let b = masked(lines, within, n - 1);
        let m = masked(lines, within, n);
        let l = lines[n - 1];
        let at = (n - 1) as usize;
        if within[n - 1] && !l.pe_hide && l.attach_ui is None {
            let notes = masked_notes(at, l.notes@, l.notes@.len() as int);
            lemma_masked_notes(at, l.notes@, l.notes@.len() as int);
            assert(m == b.push((at, None)) + notes);
            assert(m[b.len() as int] == (at, None::<usize>));
            assert forall|p: int| 0 <= p < m.len() implies ({
                let i = (#[trigger] m[p]).0 as int;
                &&& i < n
                &&& within[i]
                &&& !lines[i].pe_hide
                &&& lines[i].attach_ui is None
                &&& m[p].1 matches Some(k) ==> k < lines[i].notes@.len() && !is_unseen(
                    lines[i].notes@[k as int].alpha,
                )
            }) by {
                if p < b.len() {
                    assert(m[p] == b[p]);
                } else if p > b.len() {
                    assert(m[p] == notes[p - b.len() - 1]);
                }
            }
            assert forall|i: int|
                0 <= i < n && within[i] && !(#[trigger] lines[i]).pe_hide && lines[i].attach_ui is None implies
                m.contains((i as usize, None::<usize>)) by {
                if i < n - 1 {
                    let p = choose|p: int| 0 <= p < b.len() && b[p] == (i as usize, None::<usize>);
                    assert(m[p] == (i as usize, None::<usize>));
                }
            }
            assert forall|i: int, k: int|
                0 <= i < n && within[i] && !(#[trigger] lines[i]).pe_hide && lines[i].attach_ui is None && 0 <= k
                    < lines[i].notes@.len() && !is_unseen((#[trigger] lines[i].notes@[k]).alpha) implies
                m.contains((i as usize, Some(k as usize))) by {
                if i < n - 1 {
                    let p = choose|p: int| 0 <= p < b.len() && b[p] == (i as usize, Some(k as usize));
                    assert(m[p] == (i as usize, Some(k as usize)));
                } else {
                    let p = choose|p: int|
                        0 <= p < notes.len() && notes[p] == (at, Some(k as usize));
                    assert(m[b.len() + 1 + p] == (i as usize, Some(k as usize)));
                }
            }
        }
    }
}

/// Law: effects run exactly where there are any, once, behind all that is drawn of lines and extras, and
/// what they give is shown right behind them; what lies on top of the lines is drawn once, on the last
/// of them.
pub proof fn law_effects_see_the_whole_scene(
    chunks: Option<Seq<(usize, usize)>>,
    lines: usize,
    extras: bool,
    effects: bool,
)
    ensures
        ({
            let p = frame_passes(chunks, lines, extras, effects);
            let n = p.len() as int;
            &&& effects ==> n >= 3 && p[n - 3] == FramePass::Effects && p[n - 2] == FramePass::Present
            &&& forall|i: int| 0 <= i < n && (#[trigger] p[i]) == FramePass::Effects ==> effects && i == n - 3
            &&& forall|i: int| 0 <= i < n && (#[trigger] p[i]) == FramePass::Present ==> effects && i == n - 2
            &&& chunks is None ==> p[0] == (FramePass::Lines { from: 0, to: lines, first: true, extras: true })
            &&& chunks is Some && extras ==> p.contains(FramePass::Extras)
            &&& forall|i: int|
                0 <= i < n && (#[trigger] p[i]) == FramePass::Extras ==> chunks is Some && extras && i == n - (
                if effects {
                    4int
                } else {
                    2
                })
            &&& forall|i: int|
                0 <= i < n && (#[trigger] p[i]) is Lines && p[i]->extras ==> chunks is None
        }),
{
    let p = frame_passes(chunks, lines, extras, effects);
    let head = line_passes(chunks, lines);
    let n = p.len() as int;
    if chunks is Some && extras {
        assert(p[head.len() as int] == FramePass::Extras);
    }
    assert forall|i: int| 0 <= i < head.len() implies (#[trigger] p[i]) == head[i] && p[i] is Lines by {
    }
}

/// Law: every part of a note that is to be drawn has a quad in its line, with the sprite and the alpha of
/// the note: the body and the tail of a hold too.
pub proof fn law_every_part_has_its_quad(l: LineInfo, loaded: Seq<Seq<char>>, k: int, part: Part)
    requires
        l.notes@.len() <= usize::MAX,
        !l.pe_hide,
        l.attach_ui is None,
        0 <= k < l.notes@.len(),
        1 <= l.notes@[k].kind <= 4,
        parts_of(
            l.notes@[k],
            sprite_of(l.notes@[k].kind, l.notes@[k].multiple_hint, loaded).0 is Some,
        ).contains(part),
    ensures
        exists|p: int|
            0 < p < line_quads(l, loaded).len() && (#[trigger] line_quads(l, loaded)[p]).note == Some(
                k as usize,
            ) && line_quads(l, loaded)[p].part == part && line_quads(l, loaded)[p].tex == sprite_of(
                l.notes@[k].kind,
                l.notes@[k].multiple_hint,
                loaded,
            ).0 && line_quads(l, loaded)[p].tint is Some && (line_quads(
                l,
                loaded,
            )[p].tint->0).alpha == l.notes@[k].alpha,
{
    let order = drawing_order(l.notes@, 8);
    lemma_drawing_order(l.notes@, 8);
    assert(is_drawn(l.notes@[k].kind));
    assert(order.contains(k as usize));
    let i = choose|i: int| 0 <= i < order.len() && order[i] == k as usize;
    let p = lemma_part_quad(l, order, order.len() as int, loaded, i, part);
    let q = line_quads(l, loaded);
    assert(q[p + 1] == note_quads(l, order, order.len() as int, loaded)[p]);
}

proof fn lemma_part_quad(
    l: LineInfo,
    order: Seq<usize>,
    n: int,
    loaded: Seq<Seq<char>>,
    i: int,
    part: Part,
) -> (p: int)
    requires
        0 <= i < n <= order.len(),
        parts_of(
            l.notes@[order[i] as int],
            sprite_of(
                l.notes@[order[i] as int].kind,
                l.notes@[order[i] as int].multiple_hint,
                loaded,
            ).0 is Some,
        ).contains(part),
    ensures
        ({
            let m = l.notes@[order[i] as int];
            let q = note_quads(l, order, n, loaded);
            &&& 0 <= p < q.len()
            &&& q[p].note == Some(order[i])
            &&& q[p].part == part
            &&& q[p].tex == sprite_of(m.kind, m.multiple_hint, loaded).0
            &&& q[p].tint is Some
            &&& (q[p].tint->0).alpha == m.alpha
        }),
    decreases n,
{
    let at = order[n - 1];
    let m = l.notes@[at as int];
    let sprite = sprite_of(m.kind, m.multiple_hint, loaded).0;
    let parts = parts_of(m, sprite is Some);
    let before = note_quads(l, order, n - 1, loaded);
    let more = part_quads(l.index, at, m, parts, sprite);
    let q = note_quads(l, order, n, loaded);
    if i == n - 1 {
        let j = choose|j: int| 0 <= j < parts.len() && parts[j] == part;
        law_colours_of_a_note(l.index, at, m, parts, sprite, j);
        assert(q[before.len() + j] == more[j]);
        before.len() + j
    } else {
        let p = lemma_part_quad(l, order, n - 1, loaded, i, part);
        assert(q[p] == before[p]);
        p
    }
}

/// Law: lines are drawn from the lowest depth to the highest, and lines of one depth as they stand in the
/// chart.
pub proof fn law_lines_from_back_to_front(ls: Seq<LineInfo>, r: Seq<usize>, i: int, j: int)
    requires
        stably_ordered(depths(ls), r),
        0 <= i < j < r.len(),
    ensures
        ls[r[i] as int].z_order <= ls[r[j] as int].z_order,
        ls[r[i] as int].z_order == ls[r[j] as int].z_order ==> r[i] < r[j],
{
    crate::order::law_numbers_ascend(depths(ls), r, i, j);
}

} // verus!
