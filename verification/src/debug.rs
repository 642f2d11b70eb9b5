//! The debug window: its lines of text and its pixels.

use vstd::prelude::*;

use crate::strings::{decimal, push_decimal, texts};
use crate::text::Glyph;

verus! {

/// The height of a row of text, in pixels.
pub const ROW_H: usize = 20;

/// The baseline of a row of text.
pub fn baseline(row: usize) -> (y: usize)
    requires
        row * ROW_H + ROW_H - 4 <= usize::MAX,
    ensures
        y == row * ROW_H + ROW_H - 4,
        y == 20 * row + 16,
{
    row * ROW_H + (ROW_H - 4)
}

/// What the debug window counts.
pub struct DebugCounts {
    pub combo: u32,
    pub hits: u32,
    pub note_count: usize,
    pub lines: usize,
    pub visible_notes: usize,
    pub fired: usize,
    pub paused: bool,
    pub window: (u32, u32),
}

fn labelled(label: &str, n: u64) -> (r: String)
    ensures
        r@ == label@ + decimal(n as nat),
{
    let mut s: String = label.to_owned();
    push_decimal(&mut s, n);
    s
}

/// The lines about a frame that hold whole numbers.
pub open spec fn count_texts(c: DebugCounts) -> Seq<Seq<char>> {
    seq![
        "combo  "@ + decimal(c.combo as nat),
        "hits   "@ + decimal(c.hits as nat) + "/"@ + decimal(c.note_count as nat),
        "lines  "@ + decimal(c.lines as nat),
        "notes  "@ + decimal(c.visible_notes as nat),
        "fired  "@ + decimal(c.fired as nat),
        if c.paused {
            "paused true"@
        } else {
            "paused false"@
        },
        "window "@ + decimal(c.window.0 as nat) + "x"@ + decimal(c.window.1 as nat),
    ]
}

/// The lines about a frame that hold whole numbers.
pub fn count_lines(c: &DebugCounts) -> (r: Vec<String>)
    ensures
        texts(r@) == count_texts(*c),
{
    let mut hits: String = labelled("hits   ", c.hits as u64);
    hits.append("/");
    push_decimal(&mut hits, c.note_count as u64);
    let mut window: String = labelled("window ", c.window.0 as u64);
    window.append("x");
    push_decimal(&mut window, c.window.1 as u64);
    let paused: String = if c.paused {
        "paused true".to_owned()
    } else {
        "paused false".to_owned()
    };
    let r: Vec<String> = vec![
        labelled("combo  ", c.combo as u64),
        hits,
        labelled("lines  ", c.lines as u64),
        labelled("notes  ", c.visible_notes as u64),
        labelled("fired  ", c.fired as u64),
        paused,
        window,
    ];
    proof {
        assert(texts(r@) == count_texts(*c));
    }
    r
}

/// What the first `n` glyphs leave of a pixel on black: the coverage of the last one that covers
/// it.
pub open spec fn painted(glyphs: Seq<Glyph>, n: int, x: int, y: int) -> u8
    decreases n,
{
    if n <= 0 {
        0
    } else {
        let here = glyphs[n - 1].coverage(x, y);
        if here != 0 {
            here
        } else {
            painted(glyphs, n - 1, x, y)
        }
    }
}

/// A grey of the given brightness, as `0x00RRGGBB`.
pub open spec fn grey(v: u8) -> u32 {
    (v * 0x1_0000 + v * 0x100 + v) as u32
}

proof fn lemma_index(x: int, y: int, w: int, h: int)
    by (nonlinear_arith)
    requires
        0 <= x < w,
        0 <= y < h,
    ensures
        0 <= y * w + x < w * h,
        0 <= y * w <= y * w + x,
        w * h >= 0,
{
}

/// The brightness that glyphs leave of one pixel.
pub fn paint(glyphs: &Vec<Glyph>, x: u32, y: u32) -> (r: u32)
    requires
        forall|i: int| 0 <= i < glyphs.len() ==> (#[trigger] glyphs[i]).wf(),
    ensures
        r == grey(painted(glyphs@, glyphs@.len() as int, x as int, y as int)),
{
    let mut v: u8 = 0;
    let mut k: usize = 0;
    while k < glyphs.len()
        invariant
            k <= glyphs.len(),
            forall|i: int| 0 <= i < glyphs.len() ==> (#[trigger] glyphs[i]).wf(),
            v == painted(glyphs@, k as int, x as int, y as int),
        decreases glyphs.len() - k,
    {
        let g: &Glyph = &glyphs[k];
        let dx: i64 = x as i64 - g.x as i64;
        let dy: i64 = y as i64 - g.y as i64;
        if 0 <= dx && dx < g.width as i64 && 0 <= dy && dy < g.height as i64 {
            proof {
                lemma_index(dx as int, dy as int, g.width as int, g.height as int);
                assert(g.wf());
            }
            let gw: usize = g.width as usize;
            let size: usize = g.bitmap.len();
            let c: u8 = g.bitmap[dy as usize * gw + dx as usize];
            if c != 0 {
                v = c;
            }
        }
        k = k + 1;
    }
    v as u32 * 0x1_0000 + v as u32 * 0x100 + v as u32
}

/// Law: a pixel has the brightness of the last glyph that covers it, whatever stands below; one that no
/// glyph covers is black.
pub proof fn law_last_glyph_shows(glyphs: Seq<Glyph>, n: int, x: int, y: int)
    requires
        0 <= n < glyphs.len(),
    ensures
        glyphs[n].coverage(x, y) != 0 ==> painted(glyphs, n + 1, x, y) == glyphs[n].coverage(x, y),
        glyphs[n].coverage(x, y) == 0 ==> painted(glyphs, n + 1, x, y) == painted(glyphs, n, x, y),
        painted(glyphs, 0, x, y) == 0,
{
}

/// Law: a grey has one brightness in its three channels and nothing above them.
pub proof fn law_grey(v: u8)
    ensures
        grey(v) % 256 == v,
        grey(v) / 256 % 256 == v,
        grey(v) / 65536 == v,
{
}

/// Law: the lines of the debug window say their numbers in full behind their names, in a fixed order.
pub proof fn law_debug_lines(c: DebugCounts)
    ensures
        count_texts(c).len() == 7,
        count_texts(c)[0] == "combo  "@ + decimal(c.combo as nat),
        count_texts(c)[1] == "hits   "@ + decimal(c.hits as nat) + "/"@ + decimal(c.note_count as nat),
        count_texts(c)[2] == "lines  "@ + decimal(c.lines as nat),
        count_texts(c)[3] == "notes  "@ + decimal(c.visible_notes as nat),
        count_texts(c)[4] == "fired  "@ + decimal(c.fired as nat),
        c.paused ==> count_texts(c)[5] == "paused true"@,
        !c.paused ==> count_texts(c)[5] == "paused false"@,
        count_texts(c)[6] == "window "@ + decimal(c.window.0 as nat) + "x"@ + decimal(
            c.window.1 as nat,
        ),
{
}

} // verus!
