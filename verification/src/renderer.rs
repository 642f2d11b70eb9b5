//! The renderer, as far as it is not on the graphics card: sizes, settings, and which textures there
//! are.

use crate::effects::EFFECT_COUNT;
use crate::floats::{gt_zero32, is_gt_zero32, nan32};
use crate::fonts::{is_usable, load_font, Fonts};
use crate::post::{
    builtin_effects, insert_text, is_new_post, shader_files, to_build, with_text, PostPipe,
};
use crate::scene::{present_mode, HudData, PresentMode};
use crate::strings::{begins, starts_with, texts};
use crate::text::TextState;
use crate::texture::{
    background_of, blur_background_rgba, decode_image, decoded_rgb, decoded_rgba, image_of,
    is_prepared, prepare_texture, rgba_size, DecodedImage, ImageError, PreparedTex,
};
use vstd::prelude::*;

verus! {

/// The single-precision bits of one.
pub const ONE: u32 = 0x3F80_0000;

/// The shape of the playfield at first, as single-precision bits: one and a half times as wide as high.
pub const FIRST_ASPECT: u32 = 0x3FC0_0000;

/// The length of judge lines at first, as single-precision bits.
pub const FIRST_LINE_LENGTH: u32 = 0x40C0_0000;

/// A single-precision number cut to the range from zero to one.
pub open spec fn unit(b: u32) -> u32 {
    if nan32(b) {
        b
    } else if b > 0x8000_0000 {
        0
    } else if ONE < b < 0x8000_0000 {
        ONE
    } else {
        b
    }
}

/// A single-precision number cut to the range from zero to one.
pub fn clamp_unit(b: u32) -> (r: u32)
    ensures
        r == unit(b),
{
    if b % 0x8000_0000 > 0x7F80_0000 {
        b
    } else if b > 0x8000_0000 {
        0
    } else if ONE < b && b < 0x8000_0000 {
        ONE
    } else {
        b
    }
}

/// A point at which a burst starts: its time as double-precision bits, its place as single-precision
/// bits.
#[derive(Clone, Copy, PartialEq, Eq, Structural, Debug)]
pub struct FxPoint {
    pub t0: u64,
    pub x: u32,
    pub y: u32,
}

/// The renderer's state. Numbers that are not whole are held as single-precision bits.
pub struct Renderer {
    pub size: (u32, u32),
    /// Whether it draws into a window.
    pub windowed: bool,
    /// Whether the window can show the newest frame at once.
    pub mailbox: bool,
    pub vsync: bool,
    pub mode: PresentMode,
    pub texture_compress: bool,
    pub bc_supported: bool,
    pub textures: Vec<String>,
    /// The size of the background's image, where there is one.
    pub background: Option<(u32, u32)>,
    pub background_dim: u32,
    pub playfield_aspect: u32,
    pub line_length: u32,
    pub progress: u32,
    pub hud: HudData,
    pub frame_fx: Vec<FxPoint>,
    pub post: PostPipe,
    pub fonts: Fonts,
    /// The lines of text that were drawn.
    pub text: TextState,
}

/// The names that begin as those of the built-in textures do, in their order.
pub open spec fn builtin_only(names: Seq<Seq<char>>) -> Seq<Seq<char>>
    decreases names.len(),
{
    if names.len() == 0 {
        names
    } else if begins(names.last(), "note:"@) {
        builtin_only(names.drop_last()).push(names.last())
    } else {
        builtin_only(names.drop_last())
    }
}

/// Whether a renderer is one to begin with: full of defaults, without textures, effects, fonts and
/// lines of text.
pub open spec fn is_new_renderer(
    r: Renderer,
    width: u32,
    height: u32,
    windowed: bool,
    mailbox: bool,
    bc_supported: bool,
) -> bool {
    &&& r.size == (width, height)
    &&& r.windowed == windowed
    &&& r.mailbox == mailbox
    &&& r.vsync
    &&& r.mode == PresentMode::AutoVsync
    &&& r.texture_compress
    &&& r.bc_supported == bc_supported
    &&& r.textures@.len() == 0
    &&& r.background is None
    &&& r.background_dim == ONE
    &&& r.playfield_aspect == FIRST_ASPECT
    &&& r.line_length == FIRST_LINE_LENGTH
    &&& r.progress == 0
    &&& !r.hud.visible
    &&& !r.hud.paused
    &&& r.hud.chart_name@.len() == 0
    &&& r.hud.difficulty@.len() == 0
    &&& r.hud.score == 0
    &&& r.hud.combo == 0
    &&& r.hud.frame_ms == 0
    &&& r.hud.fps == 0
    &&& r.frame_fx@.len() == 0
    &&& is_new_post(r.post, width, height)
    &&& r.fonts.main is None
    &&& r.fonts.fallback is None
    &&& r.text.wf()
    &&& r.text.recency().len() == 0
}

impl Renderer {
    /// A renderer without textures and effects.
    pub fn new(width: u32, height: u32, windowed: bool, mailbox: bool, bc_supported: bool) -> (r:
        Renderer)
        ensures
            is_new_renderer(r, width, height, windowed, mailbox, bc_supported),
    {
        Renderer {
            size: (width, height),
            windowed,
            mailbox,
            vsync: true,
            mode: PresentMode::AutoVsync,
            texture_compress: true,
            bc_supported,
            textures: Vec::new(),
            background: None,
            background_dim: ONE,
            playfield_aspect: FIRST_ASPECT,
            line_length: FIRST_LINE_LENGTH,
            progress: 0,
            hud: HudData {
                chart_name: String::new(),
                difficulty: String::new(),
                score: 0,
                combo: 0,
                paused: false,
                visible: false,
                frame_ms: 0,
                fps: 0,
            },
            frame_fx: Vec::new(),
            post: PostPipe::new(width, height),
            fonts: Fonts::new(),
            text: TextState::new(),
        }
    }

    /// The size in pixels.
    pub fn size(&self) -> (r: (u32, u32))
        ensures
            r == self.size,
    {
        self.size
    }

    /// Changes the size, and that of the targets of the effects. A size of zero, of a window that was
    /// made an icon, changes nothing. Returns whether it changed.
    pub fn resize(&mut self, width: u32, height: u32) -> (r: bool)
        ensures
            r == (width > 0 && height > 0),
            r ==> *final(self) == (Renderer {
                size: (width, height),
                post: PostPipe { width, height, ..old(self).post },
                ..*old(self)
            }),
            !r ==> *final(self) == *old(self),
    {
        if width == 0 || height == 0 {
            return false;
        }
        self.size = (width, height);
        self.post.resize(width, height);
        true
    }

    /// Waits for the screen between frames, or not. Returns how a window is to show frames from now on.
    pub fn set_vsync(&mut self, enabled: bool) -> (r: Option<PresentMode>)
        ensures
            r is Some <==> old(self).windowed,
            final(self).vsync == enabled,
            old(self).windowed && enabled ==> final(self).mode is AutoVsync,
            old(self).windowed && !enabled ==> !(final(self).mode is AutoVsync),
            old(self).windowed && !enabled ==> (final(self).mode is Mailbox <==> old(self).mailbox),
            ({
                let mode = if enabled {
                    PresentMode::AutoVsync
                } else if old(self).mailbox {
                    PresentMode::Mailbox
                } else {
                    PresentMode::AutoNoVsync
                };
                &&& r is Some ==> r == Some(mode)
                &&& *final(self) == (Renderer {
                    vsync: enabled,
                    mode: if old(self).windowed {
                        mode
                    } else {
                        old(self).mode
                    },
                    ..*old(self)
                })
            }),
    {
        self.vsync = enabled;
        if self.windowed {
            let mode: PresentMode = present_mode(enabled, self.mailbox);
            self.mode = mode;
            Some(mode)
        } else {
            None
        }
    }

    /// Whether textures are put into blocks: where that is wanted and the card can read them.
    pub fn compress_enabled(&self) -> (r: bool)
        ensures
            r == (self.texture_compress && self.bc_supported),
    {
        self.texture_compress && self.bc_supported
    }

    /// Sets how far playing is, from zero to one.
    pub fn set_progress(&mut self, progress: u32)
        ensures
            *final(self) == (Renderer { progress: unit(progress), ..*old(self) }),
    {
        self.progress = clamp_unit(progress);
    }

    /// Sets the length of judge lines. One that is not more than zero changes nothing.
    pub fn set_line_length(&mut self, length: u32)
        ensures
            *final(self) == (Renderer {
                line_length: if gt_zero32(length) {
                    length
                } else {
                    old(self).line_length
                },
                ..*old(self)
            }),
    {
        if is_gt_zero32(length) {
            self.line_length = length;
        }
    }

    /// Sets what the heads-up display shows.
    pub fn set_hud(&mut self, hud: HudData)
        ensures
            *final(self) == (Renderer { hud, ..*old(self) }),
    {
        self.hud = hud;
    }

    /// Sets the shape of the playfield.
    pub fn set_playfield_aspect(&mut self, aspect: u32)
        ensures
            *final(self) == (Renderer { playfield_aspect: aspect, ..*old(self) }),
    {
        self.playfield_aspect = aspect;
    }

    /// The shape of the playfield.
    pub fn playfield_aspect(&self) -> (r: u32)
        ensures
            r == self.playfield_aspect,
    {
        self.playfield_aspect
    }

    /// Sets the points at which bursts of this frame start.
    pub fn set_frame_fx(&mut self, fx: Vec<FxPoint>)
        ensures
            *final(self) == (Renderer { frame_fx: fx, ..*old(self) }),
    {
        self.frame_fx = fx;
    }

    /// A texture of that name was brought to the graphics card.
    pub fn load_texture_prepared(&mut self, name: &str)
        ensures
            texts(final(self).textures@) == with_text(texts(old(self).textures@), name@),
            *final(self) == (Renderer { textures: final(self).textures, ..*old(self) }),
    {
        insert_text(&mut self.textures, name);
    }

    fn prepare(&self, image: &DecodedImage) -> (r: PreparedTex)
        requires
            image.w > 1 && image.h > 1 ==> image.rgba@.len() >= rgba_size(
                image.w as nat,
                image.h as nat,
            ),
        ensures
            is_prepared(
                r,
                image.rgba@,
                image.w,
                image.h,
                self.texture_compress && self.bc_supported,
            ),
    {
        prepare_texture(image.rgba.as_slice(), image.w, image.h, self.compress_enabled())
    }

    /// Makes a texture of an image file, to be brought to the graphics card under that name.
    pub fn load_texture(&mut self, name: &str, bytes: &[u8]) -> (r: Result<PreparedTex, ImageError>)
        ensures
            r is Err <==> decoded_rgba(bytes@) is None,
            r matches Err(e) ==> e == ImageError::Decode && *final(self) == *old(self),
            r matches Ok(t) ==> {
                let (w, h, rgba) = image_of(decoded_rgba(bytes@))->0;
                &&& is_prepared(
                    t,
                    rgba,
                    w,
                    h,
                    old(self).texture_compress && old(self).bc_supported,
                )
                &&& texts(final(self).textures@) == with_text(texts(old(self).textures@), name@)
                &&& *final(self) == (Renderer { textures: final(self).textures, ..*old(self) })
            },
    {
        match decode_image(bytes) {
            Ok(image) => {
                let t: PreparedTex = self.prepare(&image);
                self.load_texture_prepared(name);
                Ok(t)
            },
            Err(e) => Err(e),
        }
    }

    /// Forgets the textures of a chart. The built-in ones stay.
    pub fn clear_chart_textures(&mut self)
        ensures
            texts(final(self).textures@) == builtin_only(texts(old(self).textures@)),
            *final(self) == (Renderer { textures: final(self).textures, ..*old(self) }),
    {
        let ghost all = texts(self.textures@);
        let mut kept: Vec<String> = Vec::new();
        let mut i: usize = 0;
        assert(texts(kept@) =~= builtin_only(all.take(0)));
        while i < self.textures.len()
            invariant
                i <= self.textures@.len(),
                all == texts(self.textures@),
                *self == *old(self),
                texts(kept@) == builtin_only(all.take(i as int)),
            decreases self.textures@.len() - i,
        {
            let ghost before = texts(kept@);
            proof {
                assert(all.take(i + 1).drop_last() == all.take(i as int));
                assert(all.take(i + 1).last() == self.textures@[i as int]@);
            }
            if starts_with(self.textures[i].as_str(), "note:") {
                kept.push(self.textures[i].clone());
                assert(texts(kept@) =~= before.push(self.textures@[i as int]@));
            }
            i = i + 1;
        }
        assert(all.take(all.len() as int) == all);
        self.textures = kept;
    }

    /// A background of `w` by `h` pixels was brought to the graphics card.
    pub fn set_background_prepared(&mut self, w: u32, h: u32, dim: u32)
        ensures
            *final(self) == (Renderer {
                background: Some((w, h)),
                background_dim: dim,
                ..*old(self)
            }),
    {
        self.background = Some((w, h));
        self.background_dim = dim;
    }

    /// Makes a background of pixels, to be brought to the graphics card.
    pub fn set_background_rgba(&mut self, image: &DecodedImage, dim: u32) -> (r: PreparedTex)
        requires
            image.w > 1 && image.h > 1 ==> image.rgba@.len() >= rgba_size(
                image.w as nat,
                image.h as nat,
            ),
        ensures
            is_prepared(
                r,
                image.rgba@,
                image.w,
                image.h,
                old(self).texture_compress && old(self).bc_supported,
            ),
            *final(self) == (Renderer {
                background: Some((image.w, image.h)),
                background_dim: dim,
                ..*old(self)
            }),
    {
        let t: PreparedTex = self.prepare(image);
        self.set_background_prepared(image.w, image.h, dim);
        t
    }

    /// Makes a blurred background of an image file, to be brought to the graphics card.
    pub fn set_background(&mut self, bytes: &[u8], dim: u32) -> (r: Result<PreparedTex, ImageError>)
        ensures
            match background_of(decoded_rgb(bytes@)) {
                Ok((w, h, rgba)) => {
                    &&& r matches Ok(t) && is_prepared(
                        t,
                        rgba,
                        w,
                        h,
                        old(self).texture_compress && old(self).bc_supported,
                    )
                    &&& *final(self) == (Renderer {
                        background: Some((w, h)),
                        background_dim: dim,
                        ..*old(self)
                    })
                },
                Err(e) => r == Err::<PreparedTex, _>(e) && *final(self) == *old(self),
            },
    {
        match blur_background_rgba(bytes) {
            Ok(image) => Ok(self.set_background_rgba(&image, dim)),
            Err(e) => Err(e),
        }
    }

    /// Forgets the background, as for a chart without a picture.
    pub fn clear_background(&mut self)
        ensures
            *final(self) == (Renderer { background: None, background_dim: ONE, ..*old(self) }),
    {
        self.background = None;
        self.background_dim = ONE;
    }

    /// Draws text in another font from now on, and forgets the lines that were drawn in the old one.
    /// A file that is not a usable font changes nothing. Returns whether it was one.
    pub fn set_font(&mut self, bytes: Vec<u8>) -> (r: bool)
        ensures
            r == is_usable(bytes@),
            r ==> {
                &&& final(self).fonts.main matches Some(Some(font)) && font.file() == bytes@
                &&& final(self).text.wf()
                &&& final(self).text.recency().len() == 0
                &&& final(self).text.images().dom().is_empty()
                &&& *final(self) == (Renderer {
                    fonts: Fonts { main: final(self).fonts.main, ..old(self).fonts },
                    text: final(self).text,
                    ..*old(self)
                })
            },
            !r ==> *final(self) == *old(self),
    {
        match load_font(bytes) {
            Some(font) => {
                self.fonts.main = Some(Some(font));
                self.text.clear();
                true
            },
            None => false,
        }
    }

    /// The built-in effects that are to be built before they are first used: all that are not yet, or
    /// the last 4096 of those that wait already.
    pub fn warmup_effects(&mut self) -> (r: Vec<usize>)
        ensures
            ({
                let pending = if old(self).post.warmup_pending@.len() == 0 {
                    builtin_effects(EFFECT_COUNT as nat)
                } else {
                    texts(old(self).post.warmup_pending@)
                };
                let n = if pending.len() > 4096 {
                    4096int
                } else {
                    pending.len() as int
                };
                &&& r@ == to_build(pending, texts(old(self).post.pipelines@), n)
                &&& texts(final(self).post.warmup_pending@) == pending.take(pending.len() - n)
            }),
            *final(self) == (Renderer {
                post: PostPipe {
                    warmup_pending: final(self).post.warmup_pending,
                    ..old(self).post
                },
                ..*old(self)
            }),
    {
        self.post.start_warmup();
        let (r, _done): (Vec<usize>, bool) = self.post.tick_warmup(4096);
        r
    }

    /// Which files of the chart's directory are shaders that are to be built before they are first
    /// used.
    pub fn warmup_custom_effects(&self, files: &[String]) -> (r: Vec<usize>)
        ensures
            r@ == (if self.post.has_chart_dir {
                shader_files(texts(files@), texts(self.post.pipelines@))
            } else {
                Seq::empty()
            }),
    {
        self.post.warmup_custom(files)
    }
}

/// Law: textures that are forgotten with a chart are exactly those that are not built in.
pub proof fn law_builtin_textures_stay(names: Seq<Seq<char>>, n: Seq<char>)
    ensures
        builtin_only(names).contains(n) <==> names.contains(n) && begins(n, "note:"@),
    decreases names.len(),
{
    if names.len() > 0 {
        let front = names.drop_last();
        law_builtin_textures_stay(front, n);
        assert(names =~= front.push(names.last()));
        let b = builtin_only(front);
        if names.contains(n) && n != names.last() {
            let k = choose|k: int| 0 <= k < names.len() && names[k] == n;
            assert(front[k] == n);
        }
        if front.contains(n) {
            let k = choose|k: int| 0 <= k < front.len() && front[k] == n;
            assert(names[k] == n);
        }
        assert(names[names.len() - 1] == names.last());
        if begins(names.last(), "note:"@) {
            let c = b.push(names.last());
            assert(c[b.len() as int] == names.last());
            if b.contains(n) {
                let k = choose|k: int| 0 <= k < b.len() && b[k] == n;
                assert(c[k] == n);
            }
            if c.contains(n) && n != names.last() {
                let k = choose|k: int| 0 <= k < c.len() && c[k] == n;
                assert(b[k] == n);
            }
        }
    }
}

/// Law: progress is cut to the range once and for all.
pub proof fn law_unit_twice(b: u32)
    ensures
        unit(unit(b)) == unit(b),
{
}

/// Law: progress below zero counts as zero, and above one as one; what lies between is kept, and so is
/// what is no number.
pub proof fn law_unit_range(b: u32)
    ensures
        0 <= b <= 0x3F80_0000 ==> unit(b) == b,
        0x3F80_0000 < b <= 0x7F80_0000 ==> unit(b) == 0x3F80_0000,
        0x8000_0000 < b <= 0xFF80_0000 ==> unit(b) == 0,
        unit(0x8000_0000) == 0x8000_0000,
        nan32(b) ==> unit(b) == b,
{
}

/// Law: a new renderer waits for the screen, puts textures into blocks where it can, shows no background
/// and no text, and draws lines six long on a playfield of three to two.
pub proof fn law_new_renderer(
    r: Renderer,
    width: u32,
    height: u32,
    windowed: bool,
    mailbox: bool,
    bc_supported: bool,
)
    requires
        is_new_renderer(r, width, height, windowed, mailbox, bc_supported),
    ensures
        r.size.0 == width && r.size.1 == height,
        r.vsync && r.mode is AutoVsync && r.texture_compress,
        r.windowed == windowed && r.mailbox == mailbox && r.bc_supported == bc_supported,
        r.background is None && r.background_dim == 0x3F80_0000,
        r.playfield_aspect == 0x3FC0_0000,
        r.line_length == 0x40C0_0000,
        r.progress == 0 && r.frame_fx@.len() == 0 && r.textures@.len() == 0,
        !r.hud.visible && !r.hud.paused && r.hud.score == 0 && r.hud.combo == 0,
        r.fonts.main is None && r.fonts.fallback is None,
{
}

} // verus!
