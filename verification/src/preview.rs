//! Offscreen rendering: three slots in rotation, and the pixels that are read back from them.

use vstd::prelude::*;

use crate::effects::{
    builtin_pass, custom_pass, effect_index, index_of, make_custom, make_pass, passes_view,
    ActiveEffect, EvalEffect, PassView,
};
use crate::post::PostPipe;
use crate::renderer::{is_new_renderer, FxPoint, Renderer};
use crate::scene::HudData;
use crate::texture::{
    background_of, decoded_rgb, decoded_rgba, image_of, is_prepared, ImageError, PreparedTex,
};

verus! {

/// Rows of a readback buffer begin at multiples of this many bytes.
pub const ROW_ALIGNMENT: u32 = 256;

/// The bytes between the starts of two rows of a readback buffer.
pub open spec fn padded_row(width: nat) -> nat {
    (4 * width + ROW_ALIGNMENT as nat - 1) as nat / ROW_ALIGNMENT as nat * ROW_ALIGNMENT as nat
}

/// At least one.
pub open spec fn positive(n: u32) -> u32 {
    if n == 0 {
        1
    } else {
        n
    }
}

/// Whether images of a size can be held: a readback buffer has fewer than 2^32 bytes.
pub open spec fn size_fits(width: u32, height: u32) -> bool {
    padded_row(width as nat) * height <= u32::MAX
}

/// The slot that a frame is drawn into.
pub open spec fn drawn_slot(frame: nat) -> nat {
    frame % 3
}

/// The slot that is read back while a frame is drawn.
pub open spec fn read_slot(frame: nat) -> nat {
    (frame + 1) % 3
}

/// Law: the slot that is read back is never the one that is drawn into, and it holds the frame
/// that was drawn two frames before.
pub proof fn law_slots_in_rotation(frame: nat)
    ensures
        read_slot(frame) != drawn_slot(frame),
        frame >= 2 ==> read_slot(frame) == drawn_slot((frame - 2) as nat),
        drawn_slot(frame) < 3,
        read_slot(frame) < 3,
{
}

/// The pixels of a readback buffer without the padding of its rows.
pub open spec fn unpadded(data: Seq<u8>, width: int, height: int) -> Seq<u8> {
    Seq::new(
        (4 * width * height) as nat,
        |i: int| data[i / (4 * width) * padded_row(width as nat) + i % (4 * width)],
    )
}

/// The offscreen renderer, as far as it is not on the graphics card.
pub struct PreviewEngine {
    pub width: u32,
    pub height: u32,
    pub padded_bpr: u32,
    /// The last frame that was read back: rows from top to bottom, four bytes for a pixel.
    pub pixels: Vec<u8>,
    pub frame_idx: u64,
    pub renderer: Renderer,
}

fn padded(width: u32) -> (r: u32)
    requires
        padded_row(width as nat) <= u32::MAX,
    ensures
        r == padded_row(width as nat),
{
    let row: u64 = 4 * width as u64;
    let n: u64 = (row + (ROW_ALIGNMENT as u64 - 1)) / ROW_ALIGNMENT as u64 * ROW_ALIGNMENT as u64;
    n as u32
}

proof fn lemma_size(width: u32, height: u32)
    requires
        size_fits(width, height),
        height >= 1,
    ensures
        padded_row(width as nat) <= u32::MAX,
        4 * width <= padded_row(width as nat),
        4 * width * height <= u32::MAX,
{
    let p = padded_row(width as nat);
    assert(p <= p * height) by (nonlinear_arith)
        requires
            height >= 1,
            p >= 0,
    ;
    assert(4 * width <= p);
    assert(4 * width * height <= p * height) by (nonlinear_arith)
        requires
            4 * width <= p,
            height >= 1,
    ;
}

impl PreviewEngine {
    /// The pixels and the length of the rows fit the size.
    pub open spec fn wf(&self) -> bool {
        &&& self.width >= 1
        &&& self.height >= 1
        &&& size_fits(self.width, self.height)
        &&& self.padded_bpr == padded_row(self.width as nat)
        &&& self.pixels@.len() == 4 * self.width * self.height
        &&& self.renderer.size == (self.width, self.height)
    }

    /// A renderer of a size, at least one pixel each way, with a black frame.
    pub fn new(width: u32, height: u32) -> (r: PreviewEngine)
        requires
            size_fits(positive(width), positive(height)),
        ensures
            r.wf(),
            r.width == positive(width),
            r.height == positive(height),
            forall|i: int| 0 <= i < r.pixels@.len() ==> #[trigger] r.pixels@[i] == 0,
            r.frame_idx == 0,
            is_new_renderer(
                r.renderer,
                positive(width),
                positive(height),
                false,
                false,
                false,
            ),
    {
        let w: u32 = if width == 0 {
            1
        } else {
            width
        };
        let h: u32 = if height == 0 {
            1
        } else {
            height
        };
        proof {
            lemma_size(w, h);
            assert(4 * w <= 4 * w * h) by (nonlinear_arith)
                requires
                    h >= 1,
            ;
        }
        let n: usize = (4 * w * h) as usize;
        let pixels: Vec<u8> = vec![0u8; n];
        PreviewEngine {
            width: w,
            height: h,
            padded_bpr: padded(w),
            pixels,
            frame_idx: 0,
            renderer: Renderer::new(w, h, false, false, false),
        }
    }

    /// Changes the size. A size of zero, and the size that it has, change nothing. Pixels that
    /// there are room for stay, behind them stands black, and the rotation starts anew.
    pub fn resize(&mut self, width: u32, height: u32)
        requires
            old(self).wf(),
            size_fits(width, height),
        ensures
            final(self).wf(),
            if width == 0 || height == 0 || (width == old(self).width && height
                == old(self).height) {
                *final(self) == *old(self)
            } else {
                let n = 4 * width * height;
                &&& final(self).width == width
                &&& final(self).height == height
                &&& final(self).frame_idx == 0
                &&& final(self).renderer == (Renderer {
                    size: (width, height),
                    post: PostPipe { width, height, ..old(self).renderer.post },
                    ..old(self).renderer
                })
                &&& final(self).pixels@ == Seq::new(
                    n as nat,
                    |i: int|
                        if i < old(self).pixels@.len() {
                            old(self).pixels@[i]
                        } else {
                            0u8
                        },
                )
            },
    {
        if width == 0 || height == 0 || (width == self.width && height == self.height) {
            return;
        }
        proof {
            lemma_size(width, height);
            assert(4 * width <= 4 * width * height) by (nonlinear_arith)
                requires
                    height >= 1,
            ;
        }
        let n: usize = (4 * width * height) as usize;
        self.padded_bpr = padded(width);
        self.pixels.resize(n, 0);
        self.width = width;
        self.height = height;
        self.frame_idx = 0;
        let _changed: bool = self.renderer.resize(width, height);
        proof {
            assert(self.pixels@ == Seq::new(
                n as nat,
                |i: int|
                    if i < old(self).pixels@.len() {
                        old(self).pixels@[i]
                    } else {
                        0u8
                    },
            ));
        }
    }

    /// The size in pixels.
    pub fn size(&self) -> (r: (u32, u32))
        ensures
            r == (self.width, self.height),
    {
        (self.width, self.height)
    }

    /// The slot to draw into and the slot to read back.
    pub fn slots(&self) -> (r: (usize, usize))
        requires
            self.frame_idx < u64::MAX,
        ensures
            r.0 as nat == drawn_slot(self.frame_idx as nat),
            r.1 as nat == read_slot(self.frame_idx as nat),
    {
        ((self.frame_idx % 3) as usize, ((self.frame_idx + 1) % 3) as usize)
    }

    /// Ends a frame. Where the buffer of the slot that is read back was ready in time, its pixels
    /// are taken over; else the last ones stay.
    pub fn render_frame(&mut self, mapped: Option<&[u8]>)
        requires
            old(self).wf(),
            old(self).frame_idx < u64::MAX,
            mapped matches Some(d) ==> d@.len() >= padded_row(old(self).width as nat)
                * old(self).height,
        ensures
            final(self).wf(),
            *final(self) == (PreviewEngine {
                pixels: final(self).pixels,
                frame_idx: (old(self).frame_idx + 1) as u64,
                ..*old(self)
            }),
            final(self).pixels@ == match mapped {
                Some(d) => unpadded(d@, old(self).width as int, old(self).height as int),
                None => old(self).pixels@,
            },
    {
        if let Some(data) = mapped {
            let w: usize = self.width as usize;
            let h: usize = self.height as usize;
            let p: usize = self.padded_bpr as usize;
            let row: usize = 4 * w;
            let ghost want = unpadded(data@, w as int, h as int);
            proof {
                lemma_size(self.width, self.height);
                assert(4 * w * h == row * h) by (nonlinear_arith)
                    requires
                        row == 4 * w,
                ;
                assert(want.len() == row * h);
                assert(0 * p == 0 && 0 * row == 0) by (nonlinear_arith);
            }
            let size: usize = data.len();
            let mut out: Vec<u8> = Vec::new();
            let mut y: usize = 0;
            while y < h
                invariant
                    y <= h,
                    w >= 1,
                    row == 4 * w,
                    row <= p,
                    p == padded_row(w as nat),
                    p * h <= size,
                    size == data@.len(),
                    want == unpadded(data@, w as int, h as int),
                    want.len() == row * h,
                    out@.len() == y * row,
                    out@ == want.take(y * row),
                decreases h - y,
            {
                proof {
                    assert(y * p + p <= p * h) by (nonlinear_arith)
                        requires
                            y + 1 <= h,
                    ;
                    assert(y * row + row <= row * h) by (nonlinear_arith)
                        requires
                            y + 1 <= h,
                    ;
                }
                let base: usize = y * p;
                let mut x: usize = 0;
                while x < row
                    invariant
                        x <= row,
                        row == 4 * w,
                        w >= 1,
                        row <= p,
                        base == y * p,
                        base + p <= size,
                        size == data@.len(),
                        p == padded_row(w as nat),
                        want == unpadded(data@, w as int, h as int),
                        want.len() == row * h,
                        y * row + row <= row * h,
                        out@.len() == y * row + x,
                        out@ == want.take(y * row + x),
                    decreases row - x,
                {
                    proof {
                        let i = y * row + x;
                        assert(i / (row as int) == y && i % (row as int) == x) by (nonlinear_arith)
                            requires
                                i == y * row + x,
                                0 <= x < row,
                        ;
                        assert(want[i] == data@[y * p + x]);
                    }
                    out.push(data[base + x]);
                    x = x + 1;
                }
                proof {
                    assert((y + 1) * row == y * row + row) by (nonlinear_arith);
                }
                y = y + 1;
            }
            proof {
                assert(h * row == row * h) by (nonlinear_arith);
                assert(want.take(want.len() as int) == want);
            }
            self.pixels = out;
        }
        self.frame_idx = self.frame_idx + 1;
    }

    /// Copies the last frame into a buffer, in place of what it held.
    pub fn copy_pixels_to(&self, out: &mut Vec<u8>)
        ensures
            final(out)@ == self.pixels@,
    {
        out.clear();
        crate::bytes::push_all(out, self.pixels.as_slice());
        proof {
            assert(Seq::<u8>::empty() + self.pixels@ == self.pixels@);
        }
    }

    /// The last frame.
    pub fn pixels(&self) -> (r: &[u8])
        ensures
            r@ == self.pixels@,
    {
        self.pixels.as_slice()
    }

    /// Copies the last frame into a buffer, in place of what it held, and returns it.
    pub fn pixels_reused<'a>(&self, out: &'a mut Vec<u8>) -> (r: &'a [u8])
        ensures
            r@ == self.pixels@,
            final(out)@ == self.pixels@,
    {
        self.copy_pixels_to(out);
        out.as_slice()
    }

    /// The renderer.
    pub fn renderer(&self) -> (r: &Renderer)
        ensures
            *r == self.renderer,
    {
        &self.renderer
    }

    /// Makes a blurred background of an image file, to be brought to the graphics card.
    pub fn set_background(&mut self, bytes: &[u8], dim: u32) -> (r: Result<PreparedTex, ImageError>)
        ensures
            match background_of(decoded_rgb(bytes@)) {
                Ok((w, h, rgba)) => {
                    &&& r matches Ok(t) && is_prepared(
                        t,
                        rgba,
                        w,
                        h,
                        old(self).renderer.texture_compress && old(self).renderer.bc_supported,
                    )
                    &&& *final(self) == (PreviewEngine {
                        renderer: Renderer {
                            background: Some((w, h)),
                            background_dim: dim,
                            ..old(self).renderer
                        },
                        ..*old(self)
                    })
                },
                Err(e) => r == Err::<PreparedTex, _>(e) && *final(self) == *old(self),
            },
    {
        self.renderer.set_background(bytes, dim)
    }

    /// Makes a texture of an image file, to be brought to the graphics card under that name.
    pub fn load_texture(&mut self, name: &str, bytes: &[u8]) -> (r: Result<PreparedTex, ImageError>)
        ensures
            r is Err <==> decoded_rgba(bytes@) is None,
            r matches Err(e) ==> e == ImageError::Decode && *final(self) == *old(self),
            r matches Ok(t) ==> {
                let (w, h, rgba) = image_of(decoded_rgba(bytes@))->0;
                &&& is_prepared(
                    t,
                    rgba,
                    w,
                    h,
                    old(self).renderer.texture_compress && old(self).renderer.bc_supported,
                )
                &&& crate::strings::texts(final(self).renderer.textures@) == crate::post::with_text(
                    crate::strings::texts(old(self).renderer.textures@),
                    name@,
                )
                &&& *final(self) == (PreviewEngine {
                    renderer: Renderer {
                        textures: final(self).renderer.textures,
                        ..old(self).renderer
                    },
                    ..*old(self)
                })
            },
    {
        self.renderer.load_texture(name, bytes)
    }

    /// Sets the shape of the playfield.
    pub fn set_playfield_aspect(&mut self, aspect: u32)
        ensures
            *final(self) == (PreviewEngine {
                renderer: Renderer { playfield_aspect: aspect, ..old(self).renderer },
                ..*old(self)
            }),
    {
        self.renderer.set_playfield_aspect(aspect);
    }

    /// The shape of the playfield.
    pub fn playfield_aspect(&self) -> (r: u32)
        ensures
            r == self.renderer.playfield_aspect,
    {
        self.renderer.playfield_aspect()
    }

    /// Sets how far playing is, from zero to one.
    pub fn set_progress(&mut self, progress: u32)
        ensures
            *final(self) == (PreviewEngine {
                renderer: Renderer {
                    progress: crate::renderer::unit(progress),
                    ..old(self).renderer
                },
                ..*old(self)
            }),
    {
        self.renderer.set_progress(progress);
    }

    /// Sets what the heads-up display shows.
    pub fn set_hud(&mut self, hud: HudData)
        ensures
            *final(self) == (PreviewEngine {
                renderer: Renderer { hud, ..old(self).renderer },
                ..*old(self)
            }),
    {
        self.renderer.set_hud(hud);
    }

    /// Sets the length of judge lines. One that is not more than zero changes nothing.
    pub fn set_line_length(&mut self, length: u32)
        ensures
            *final(self) == (PreviewEngine {
                renderer: Renderer {
                    line_length: if crate::floats::gt_zero32(length) {
                        length
                    } else {
                        old(self).renderer.line_length
                    },
                    ..old(self).renderer
                },
                ..*old(self)
            }),
    {
        self.renderer.set_line_length(length);
    }

    /// Sets the points at which bursts of this frame start.
    pub fn set_frame_fx(&mut self, fx: Vec<FxPoint>)
        ensures
            *final(self) == (PreviewEngine {
                renderer: Renderer { frame_fx: fx, ..old(self).renderer },
                ..*old(self)
            }),
    {
        self.renderer.set_frame_fx(fx);
    }

    /// Runs these effects from now on, each in one pass, at the time and the size of screen given as
    /// single-precision bits.
    pub fn set_effects_from_extra(&mut self, evals: &[EvalEffect], time: u32, screen: (u32, u32))
        requires
            forall|i: int|
                0 <= i < evals@.len() ==> (#[trigger] evals@[i]).uniforms_names.len()
                    <= evals@[i].uniforms.len(),
        ensures
            passes_view(final(self).renderer.post.active@) == single_passes(evals@, time, screen),
            *final(self) == (PreviewEngine {
                renderer: Renderer {
                    post: PostPipe {
                        active: final(self).renderer.post.active,
                        ..old(self).renderer.post
                    },
                    ..old(self).renderer
                },
                ..*old(self)
            }),
    {
        let mut active: Vec<ActiveEffect> = Vec::new();
        let mut i: usize = 0;
        assert(passes_view(active@) =~= single_passes(evals@.take(0), time, screen));
        while i < evals.len()
            invariant
                i <= evals.len(),
                forall|i: int|
                    0 <= i < evals@.len() ==> (#[trigger] evals@[i]).uniforms_names.len()
                        <= evals@[i].uniforms.len(),
                passes_view(active@) == single_passes(evals@.take(i as int), time, screen),
            decreases evals.len() - i,
        {
            let ghost before = passes_view(active@);
            assert(evals@.take(i + 1) =~= evals@.take(i as int).push(evals@[i as int]));
            let a: ActiveEffect = match effect_index(evals[i].shader_name.as_str()) {
                Some(k) => make_pass(&evals[i], k, time, screen),
                None => make_custom(&evals[i]),
            };
            active.push(a);
            proof {
                assert(passes_view(active@) =~= before.push(a@));
                assert(single_passes(evals@.take(i + 1), time, screen) =~= single_passes(
                    evals@.take(i as int),
                    time,
                    screen,
                ).push(single_pass(evals@[i as int], time, screen)));
            }
            i = i + 1;
        }
        assert(evals@.take(evals@.len() as int) == evals@);
        self.renderer.post.active = active;
    }
}

/// The one pass of an effect.
pub open spec fn single_pass(e: EvalEffect, time: u32, screen: (u32, u32)) -> PassView {
    match index_of(e.shader_name@, 0) {
        Some(i) => builtin_pass(e, i, time, screen),
        None => custom_pass(e),
    }
}

/// The passes of effects, one for each.
pub open spec fn single_passes(evals: Seq<EvalEffect>, time: u32, screen: (u32, u32)) -> Seq<PassView> {
    evals.map_values(|e: EvalEffect| single_pass(e, time, screen))
}

/// Law: a readback buffer whose rows need no padding is taken over as it is.
pub proof fn law_unpadded_rows_are_kept(data: Seq<u8>, width: nat, height: nat)
    requires
        width >= 1,
        padded_row(width) == 4 * width,
        data.len() == 4 * width * height,
    ensures
        unpadded(data, width as int, height as int) == data,
{
    let u = unpadded(data, width as int, height as int);
    assert forall|i: int| 0 <= i < u.len() implies u[i] == data[i] by {
        let row = 4 * width as int;
        assert(i / row * row + i % row == i) by (nonlinear_arith)
            requires
                row > 0,
                i >= 0,
        ;
    }
    assert(u == data);
}

/// Law: rows of a readback buffer begin at multiples of 256 bytes, and no more padding than that takes
/// stands behind their pixels.
pub proof fn law_padded_rows(width: nat)
    ensures
        padded_row(width) % 256 == 0,
        4 * width <= padded_row(width) < 4 * width + 256,
{
    let n = 4 * width + 255;
    vstd::arithmetic::div_mod::lemma_fundamental_div_mod(n as int, 256);
    vstd::arithmetic::div_mod::lemma_mod_multiples_basic((n / 256) as int, 256);
}

/// Law: the pixel in column `x` of row `y` of a frame is the one there in the buffer, channel by channel,
/// and rows stand behind each other without padding.
pub proof fn law_pixels_are_kept(data: Seq<u8>, width: int, height: int, x: int, y: int, c: int)
    requires
        0 <= x < width,
        0 <= y < height,
        0 <= c < 4,
    ensures
        unpadded(data, width, height).len() == 4 * width * height,
        unpadded(data, width, height)[y * (4 * width) + 4 * x + c] == data[y * padded_row(width as nat)
            + 4 * x + c],
{
    let row = 4 * width;
    let i = y * row + (4 * x + c);
    assert(0 <= 4 * x + c < row);
    vstd::arithmetic::div_mod::lemma_fundamental_div_mod_converse(i, row, y, 4 * x + c);
    assert(0 <= i < 4 * width * height) by (nonlinear_arith)
        requires
            i == y * row + (4 * x + c),
            row == 4 * width,
            0 <= 4 * x + c < row,
            0 <= y < height,
    ;
}

/// Law: every effect makes one pass, in its place: that of the built-in effect of its name, or its own.
pub proof fn law_one_pass_each(evals: Seq<EvalEffect>, time: u32, screen: (u32, u32), i: int)
    requires
        0 <= i < evals.len(),
    ensures
        single_passes(evals, time, screen).len() == evals.len(),
        index_of(evals[i].shader_name@, 0) is Some ==> single_passes(evals, time, screen)[i]
            == builtin_pass(evals[i], index_of(evals[i].shader_name@, 0)->0, time, screen),
        index_of(evals[i].shader_name@, 0) is None ==> single_passes(evals, time, screen)[i]
            == custom_pass(evals[i]),
{
}

/// Law: a size is never less than one pixel, and any other is kept.
pub proof fn law_positive_sizes(n: u32)
    ensures
        positive(n) >= 1,
        n >= 1 ==> positive(n) == n,
        n == 0 ==> positive(n) == 1,
{
}

} // verus!
