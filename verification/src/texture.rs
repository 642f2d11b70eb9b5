//! Textures: decoding, size limits, block compression, the blurred background and thumbnails.

use vstd::prelude::*;

use crate::single::{scale_floor, scale_round, scaled_floor, scaled_round};

verus! {

/// The largest width or height of a texture.
pub const MAX_TEXTURE_DIM: u32 = 2048;

/// The largest width or height of a thumbnail.
pub const MAX_THUMB_DIM: u32 = 200;

/// The strength of the blur of a background.
pub const BACKGROUND_BLUR_SIGMA: u8 = 8;

/// A decoded image: four bytes for a pixel, rows one after the other.
pub struct DecodedImage {
    pub rgba: Vec<u8>,
    pub w: u32,
    pub h: u32,
}

/// A texture that is ready to be uploaded.
pub struct PreparedTex {
    pub data: Vec<u8>,
    pub w: u32,
    pub h: u32,
    pub compressed: bool,
    pub orig_w: u32,
    pub orig_h: u32,
}

/// The larger of two numbers.
pub open spec fn larger(a: u32, b: u32) -> u32 {
    if a < b {
        b
    } else {
        a
    }
}

/// A length cut to a whole number of blocks of four, but not to nothing.
pub open spec fn block_aligned(n: u32) -> u32 {
    if n < 4 {
        1
    } else {
        (n / 4 * 4) as u32
    }
}

/// The size of a texture: scaled down to the limit where it is larger, and cut to whole blocks
/// where it is compressed.
pub open spec fn fitted(w: u32, h: u32, compress: bool) -> (nat, nat) {
    let m = larger(w, h);
    let (a, b) = if m > MAX_TEXTURE_DIM {
        (
            scaled_round(w as nat, MAX_TEXTURE_DIM as nat, m as nat),
            scaled_round(h as nat, MAX_TEXTURE_DIM as nat, m as nat),
        )
    } else {
        (w as nat, h as nat)
    };
    if compress {
        (block_aligned(a as u32) as nat, block_aligned(b as u32) as nat)
    } else {
        (a, b)
    }
}

fn align(n: u32) -> (r: u32)
    ensures
        r == block_aligned(n),
{
    if n < 4 {
        1
    } else {
        n / 4 * 4
    }
}

/// The size of a texture.
pub fn fit_texture_dim(w: u32, h: u32, compress: bool) -> (r: (u32, u32))
    ensures
        (r.0 as nat, r.1 as nat) == fitted(w, h, compress),
        r.0 <= MAX_TEXTURE_DIM,
        r.1 <= MAX_TEXTURE_DIM,
        r.0 <= 2048 && r.1 <= 2048,
        compress ==> r.0 >= 1 && r.1 >= 1,
        compress ==> (r.0 < 4 || r.0 % 4 == 0) && (r.1 < 4 || r.1 % 4 == 0),
{
    let m: u32 = if w < h {
        h
    } else {
        w
    };
    let (a, b) = if m > MAX_TEXTURE_DIM {
        (scale_round(w, MAX_TEXTURE_DIM, m), scale_round(h, MAX_TEXTURE_DIM, m))
    } else {
        (w, h)
    };
    if compress {
        (align(a), align(b))
    } else {
        (a, b)
    }
}

/// Whether textures are compressed: where it is wanted and the device can.
pub fn compress_enabled(wanted: bool, supported: bool) -> (r: bool)
    ensures
        r == (wanted && supported),
{
    wanted && supported
}

/// The bytes of an image of `w` by `h` pixels.
pub open spec fn rgba_size(w: nat, h: nat) -> nat {
    4 * w * h
}

/// The pixels that a triangle filter makes of an image.
pub uninterp spec fn triangle_resized(
    rgba: Seq<u8>,
    w: u32,
    h: u32,
    nw: u32,
    nh: u32,
) -> Seq<u8>;

/// `image::imageops::resize` to `nw` by `nh` pixels, with the triangle filter or with Lanczos3,
/// on `RgbaImage::from_raw`, or an empty image where there are too few bytes. The result has the
/// size that was asked for, and four bytes for every pixel. With the triangle filter it is named; the
/// weights of Lanczos3 come from a sine that differs between machines, so of its pixels nothing is
/// stated.
#[verifier::external_body]
fn resize_image(rgba: &[u8], w: u32, h: u32, nw: u32, nh: u32, lanczos: bool) -> (r: (
    u32,
    u32,
    Vec<u8>,
))
    requires
        nw <= MAX_TEXTURE_DIM,
        nh <= MAX_TEXTURE_DIM,
    ensures
        r.0 == nw,
        r.1 == nh,
        r.2@.len() == rgba_size(nw as nat, nh as nat),
        !lanczos ==> r.2@ == triangle_resized(rgba@, w, h, nw, nh),
{
    let img = image::RgbaImage::from_raw(w, h, rgba.to_vec()).unwrap_or_default();
    let filter = if lanczos { image::imageops::FilterType::Lanczos3 } else { image::imageops::FilterType::Triangle };
    let out = image::imageops::resize(&img, nw, nh, filter);
    (out.width(), out.height(), out.into_raw())
}

/// The blocks that BC3 compression makes of an image.
pub uninterp spec fn bc3_blocks(rgba: Seq<u8>, w: usize, h: usize) -> Seq<u8>;

/// The number of bytes of an image in BC3: sixteen for each block of four by four pixels.
pub open spec fn bc3_size(w: nat, h: nat) -> nat {
    (w + 3) / 4 * ((h + 3) / 4) * 16
}

/// `texpresso::Format::Bc3.compress` with the default parameters into a buffer of
/// `compressed_size` bytes. The number of bytes is stated; the blocks are named. It cuts its output
/// into rows of blocks, so an image without pixels is left out.
#[verifier::external_body]
fn compress_bc3(rgba: &[u8], w: usize, h: usize) -> (r: Vec<u8>)
    requires
        1 <= w <= MAX_TEXTURE_DIM,
        1 <= h <= MAX_TEXTURE_DIM,
        rgba@.len() >= rgba_size(w as nat, h as nat),
    ensures
        r@.len() == bc3_size(w as nat, h as nat),
        r@ == bc3_blocks(rgba@, w, h),
{
    let mut blocks = vec![0u8; texpresso::Format::Bc3.compressed_size(w, h)];
    texpresso::Format::Bc3.compress(rgba, w, h, texpresso::Params::default(), &mut blocks);
    blocks
}

/// Whether a texture of a size is compressed: blocks must fit into it.
pub open spec fn is_blocked(compress: bool, nw: u32, nh: u32) -> bool {
    compress && nw >= 4 && nh >= 4
}

/// Compresses pixels that have their final size, where blocks fit into them.
pub fn finish_texture(
    data: Vec<u8>,
    nw: u32,
    nh: u32,
    orig_w: u32,
    orig_h: u32,
    compress: bool,
) -> (r: PreparedTex)
    requires
        nw <= MAX_TEXTURE_DIM,
        nh <= MAX_TEXTURE_DIM,
        is_blocked(compress, nw, nh) ==> data@.len() >= rgba_size(nw as nat, nh as nat),
    ensures
        r.w == nw,
        r.h == nh,
        r.orig_w == orig_w,
        r.orig_h == orig_h,
        r.compressed == is_blocked(compress, nw, nh),
        r.data@ == (if is_blocked(compress, nw, nh) {
            bc3_blocks(data@, nw as usize, nh as usize)
        } else {
            data@
        }),
        r.compressed ==> r.data@.len() == bc3_size(nw as nat, nh as nat),
{
    if compress && nw >= 4 && nh >= 4 {
        let blocks: Vec<u8> = compress_bc3(data.as_slice(), nw as usize, nh as usize);
        PreparedTex { data: blocks, w: nw, h: nh, compressed: true, orig_w, orig_h }
    } else {
        PreparedTex { data, w: nw, h: nh, compressed: false, orig_w, orig_h }
    }
}

/// Whether a texture is the one made of an image of `w` by `h` pixels: of the size that fits, in blocks
/// where blocks are wanted and it has room for one. An image that fits keeps its pixels; those of an
/// image that was scaled down are not told.
pub open spec fn is_prepared(r: PreparedTex, rgba: Seq<u8>, w: u32, h: u32, compress: bool) -> bool {
    &&& (r.w as nat, r.h as nat) == fitted(w, h, compress)
    &&& r.orig_w == w
    &&& r.orig_h == h
    &&& r.compressed == is_blocked(compress, r.w, r.h)
    &&& r.w == w && r.h == h ==> r.data@ == (if r.compressed {
        bc3_blocks(rgba, w as usize, h as usize)
    } else {
        rgba
    })
    &&& !(r.w == w && r.h == h) && !r.compressed ==> r.data@.len() == rgba_size(
        r.w as nat,
        r.h as nat,
    )
    &&& r.compressed ==> r.data@.len() == bc3_size(r.w as nat, r.h as nat)
}

/// Prepares a texture: brings it to its size, and compresses it where that is asked for and
/// blocks fit into it. Of the pixels of an image that has to be made smaller only their number is
/// stated.
pub fn prepare_texture(rgba: &[u8], w: u32, h: u32, compress: bool) -> (r: PreparedTex)
    requires
        ({
            let (nw, nh) = fitted(w, h, compress);
            (nw, nh) == (w as nat, h as nat) && is_blocked(compress, w, h) ==> rgba@.len()
                >= rgba_size(w as nat, h as nat)
        }),
    ensures
        is_prepared(r, rgba@, w, h, compress),
{
    let (nw, nh) = fit_texture_dim(w, h, compress);
    if nw != w || nh != h {
        let (tw, th, data) = resize_image(rgba, w, h, nw, nh, true);
        finish_texture(data, tw, th, w, h, compress)
    } else {
        finish_texture(vstd::slice::slice_to_vec(rgba), w, h, w, h, compress)
    }
}

/// What decoding makes of the bytes of an image file, with alpha: width, height and pixels.
pub uninterp spec fn decoded_rgba(bytes: Seq<u8>) -> Option<(u32, u32, Seq<u8>)>;

/// `image::load_from_memory` and `DynamicImage::to_rgba8`: the image with four bytes for every
/// pixel, or `None` where it cannot be decoded. What is decoded is named.
#[verifier::external_body]
fn load_rgba(bytes: &[u8]) -> (r: Option<(u32, u32, Vec<u8>)>)
    ensures
        match r {
            Some((w, h, v)) => decoded_rgba(bytes@) == Some((w, h, v@)) && v@.len() == rgba_size(
                w as nat,
                h as nat,
            ),
            None => decoded_rgba(bytes@) is None,
        },
{
    let img = image::load_from_memory(bytes).ok()?.to_rgba8();
    Some((img.width(), img.height(), img.into_raw()))
}

/// What decoding makes of the bytes of an image file, without alpha.
pub uninterp spec fn decoded_rgb(bytes: Seq<u8>) -> Option<(u32, u32, Seq<u8>)>;

/// `image::load_from_memory` and `DynamicImage::to_rgb8`: the image with three bytes for every
/// pixel, or `None` where it cannot be decoded. What is decoded is named.
#[verifier::external_body]
fn load_rgb(bytes: &[u8]) -> (r: Option<(u32, u32, Vec<u8>)>)
    ensures
        match r {
            Some((w, h, v)) => decoded_rgb(bytes@) == Some((w, h, v@)) && v@.len() == 3 * w * h,
            None => decoded_rgb(bytes@) is None,
        },
{
    let img = image::load_from_memory(bytes).ok()?.to_rgb8();
    Some((img.width(), img.height(), img.into_raw()))
}

/// An image with its rows in the opposite order.
pub open spec fn flipped(rgba: Seq<u8>, w: int, h: int) -> Seq<u8> {
    Seq::new(
        (4 * w * h) as nat,
        |i: int| rgba[(h - 1 - i / (4 * w)) * (4 * w) + i % (4 * w)],
    )
}

/// Puts the rows of an image in the opposite order.
pub fn flip_vertical(rgba: &Vec<u8>, w: u32, h: u32) -> (r: Vec<u8>)
    requires
        rgba@.len() == rgba_size(w as nat, h as nat),
    ensures
        r@ == flipped(rgba@, w as int, h as int),
{
    let mut out: Vec<u8> = Vec::new();
    let n: usize = rgba.len();
    let ghost want = flipped(rgba@, w as int, h as int);
    if w == 0 || h == 0 {
        proof {
            assert(4 * w * h == 0) by (nonlinear_arith)
                requires
                    w == 0 || h == 0,
            ;
            assert(out@ == want);
        }
        return out;
    }
    proof {
        assert(4 * w <= 4 * w * h) by (nonlinear_arith)
            requires
                h >= 1,
        ;
    }
    let row: usize = 4 * w as usize;
    let rows: usize = h as usize;
    proof {
        assert(4 * w * h == row * rows) by (nonlinear_arith)
            requires
                row == 4 * w,
                rows == h,
        ;
        assert(want.len() == row * rows);
        assert(0 * row == 0) by (nonlinear_arith);
    }
    let mut y: usize = 0;
    while y < rows
        invariant
            y <= rows,
            row == 4 * w,
            row > 0,
            rows == h,
            n == rgba@.len(),
            n == row * rows,
            want == flipped(rgba@, w as int, h as int),
            want.len() == row * rows,
            out@.len() == y * row,
            out@ == want.take(y * row),
        decreases rows - y,
    {
        let src: usize = rows - 1 - y;
        proof {
            assert(src * row + row <= row * rows) by (nonlinear_arith)
                requires
                    src + 1 <= rows,
            ;
            assert(y * row + row <= row * rows) by (nonlinear_arith)
                requires
                    y + 1 <= rows,
            ;
        }
        let base: usize = src * row;
        let mut x: usize = 0;
        while x < row
            invariant
                x <= row,
                row == 4 * w,
                src == rows - 1 - y,
                rows == h,
                base == src * row,
                base + row <= n,
                n == rgba@.len(),
                want == flipped(rgba@, w as int, h as int),
                want.len() == row * rows,
                y * row + row <= row * rows,
                out@.len() == y * row + x,
                out@ == want.take(y * row + x),
            decreases row - x,
        {
            proof {
                let i = y * row + x;
                assert(i / (row as int) == y && i % (row as int) == x) by (nonlinear_arith)
                    requires
                        i == y * row + x,
                        0 <= x < row,
                ;
                assert(want[i] == rgba@[(h - 1 - y) * row + x]);
                assert((h - 1 - y) * row == src * row);
            }
            out.push(rgba[base + x]);
            x = x + 1;
        }
        proof {
            assert((y + 1) * row == y * row + row) by (nonlinear_arith);
        }
        y = y + 1;
    }
    proof {
        assert(rows * row == row * rows) by (nonlinear_arith);
        assert(want.take(want.len() as int) == want);
    }
    out
}

/// Law: flipping an image twice gives it back.
pub proof fn law_flip_twice(rgba: Seq<u8>, w: nat, h: nat)
    requires
        rgba.len() == rgba_size(w, h),
    ensures
        flipped(flipped(rgba, w as int, h as int), w as int, h as int) == rgba,
{
    let f = flipped(rgba, w as int, h as int);
    let ff = flipped(f, w as int, h as int);
    let row = 4 * w as int;
    assert(4 * w * h == row * h) by (nonlinear_arith)
        requires
            row == 4 * w,
    ;
    assert forall|i: int| 0 <= i < ff.len() implies ff[i] == rgba[i] by {
        let y = i / row;
        let x = i % row;
        assert(row > 0) by (nonlinear_arith)
            requires
                0 <= i < row * h,
                row >= 0,
        ;
        assert(0 <= y < h && 0 <= x < row && i == y * row + x) by (nonlinear_arith)
            requires
                0 <= i < row * h,
                row > 0,
                y == i / row,
                x == i % row,
        ;
        let j = (h - 1 - y) * row + x;
        assert(0 <= j < row * h) by (nonlinear_arith)
            requires
                0 <= y < h,
                0 <= x < row,
                j == (h - 1 - y) * row + x,
        ;
        assert(j / row == h - 1 - y && j % row == x) by (nonlinear_arith)
            requires
                j == (h - 1 - y) * row + x,
                0 <= x < row,
        ;
        assert(ff[i] == f[j]);
        assert(f[j] == rgba[(h - 1 - (h - 1 - y)) * row + x]);
    }
    assert(ff == rgba);
}

/// Why an image could not be used.
#[derive(Clone, Copy, PartialEq, Eq, Structural, Debug)]
pub enum ImageError {
    /// It cannot be decoded.
    Decode,
    /// It has no pixels.
    Empty,
}

/// The texture that a decoded image makes: rows from bottom to top, a size of at least one pixel.
pub open spec fn image_of(decoded: Option<(u32, u32, Seq<u8>)>) -> Option<(u32, u32, Seq<u8>)> {
    match decoded {
        None => None,
        Some((w, h, v)) => Some((larger(w, 1), larger(h, 1), flipped(v, w as int, h as int))),
    }
}

/// Makes a texture of a decoded image.
pub fn image_from(w: u32, h: u32, rgba: Vec<u8>) -> (r: DecodedImage)
    requires
        rgba@.len() == rgba_size(w as nat, h as nat),
    ensures
        image_of(Some((w, h, rgba@))) == Some((r.w, r.h, r.rgba@)),
{
    let out: Vec<u8> = flip_vertical(&rgba, w, h);
    DecodedImage {
        rgba: out,
        w: if w < 1 {
            1
        } else {
            w
        },
        h: if h < 1 {
            1
        } else {
            h
        },
    }
}

/// Decodes an image file into a texture.
pub fn decode_image(bytes: &[u8]) -> (r: Result<DecodedImage, ImageError>)
    ensures
        match r {
            Ok(d) => image_of(decoded_rgba(bytes@)) == Some((d.w, d.h, d.rgba@)) && (d.w > 1 && d.h
                > 1 ==> d.rgba@.len() == rgba_size(d.w as nat, d.h as nat)),
            Err(e) => e == ImageError::Decode && decoded_rgba(bytes@) is None,
        },
{
    match load_rgba(bytes) {
        None => Err(ImageError::Decode),
        Some((w, h, rgba)) => Ok(image_from(w, h, rgba)),
    }
}

/// The pixels that a blur makes of an image.
pub uninterp spec fn blurred(pixels: Seq<[u8; 3]>, w: usize, h: usize, sigma: u8) -> Seq<[u8; 3]>;

/// `fastblur::gaussian_blur` with strength `sigma`: as many pixels as before; which, is named.
/// With strength 8 its boxes have a radius of 8, and images narrower than that but higher make it
/// subtract past zero.
#[verifier::external_body]
fn blur(pixels: Vec<[u8; 3]>, w: usize, h: usize, sigma: u8) -> (r: Vec<[u8; 3]>)
    requires
        sigma == BACKGROUND_BLUR_SIGMA,
        w >= 1,
        h >= 1,
        pixels@.len() == w * h,
        w >= 8 || h <= 8,
    ensures
        r@ == blurred(pixels@, w, h, sigma),
        r@.len() == pixels@.len(),
{
    let mut data = pixels;
    fastblur::gaussian_blur(&mut data, w, h, sigma.into());
    data
}

/// An image of width `w` and height `h` with rows and columns exchanged.
pub open spec fn turned(px: Seq<[u8; 3]>, w: nat, h: nat) -> Seq<[u8; 3]> {
    Seq::new(w * h, |i: int| px[(i % h as int) * w + i / h as int])
}

/// The place in an image of the pixel at a place of the turned one.
proof fn lemma_turned_place(w: int, h: int, i: int)
    requires
        0 < w,
        0 < h,
        0 <= i < w * h,
    ensures
        0 <= i / h < w,
        0 <= i % h < h,
        0 <= (i % h) * w + i / h < w * h,
        ((i % h) * w + i / h) / w == i % h,
        ((i % h) * w + i / h) % w == i / h,
        (i / h) * h + i % h == i,
{
    let x = i / h;
    let y = i % h;
    assert(0 <= x < w && 0 <= y < h && x * h + y == i) by (nonlinear_arith)
        requires
            0 < h,
            0 <= i < w * h,
            x == i / h,
            y == i % h,
    ;
    assert(0 <= y * w + x < w * h) by (nonlinear_arith)
        requires
            0 <= x < w,
            0 <= y < h,
    ;
    assert((y * w + x) / w == y && (y * w + x) % w == x) by (nonlinear_arith)
        requires
            0 <= x < w,
            0 <= y,
    ;
}

/// Law: an image that is turned twice is as it was.
pub proof fn law_turned_twice(px: Seq<[u8; 3]>, w: nat, h: nat)
    requires
        0 < w,
        0 < h,
        px.len() == w * h,
    ensures
        turned(turned(px, w, h), h, w) == px,
{
    let once = turned(px, w, h);
    let twice = turned(once, h, w);
    assert(h * w == w * h) by (nonlinear_arith);
    assert forall|i: int| 0 <= i < px.len() implies #[trigger] twice[i] == px[i] by {
        lemma_turned_place(h as int, w as int, i);
        let j = (i % w as int) * h + i / w as int;
        lemma_turned_place(w as int, h as int, j);
        assert(twice[i] == once[j]);
        assert(once[j] == px[(j % h as int) * w + j / h as int]);
    }
    assert(twice == px);
}

fn turn(px: &Vec<[u8; 3]>, w: usize, h: usize) -> (r: Vec<[u8; 3]>)
    requires
        0 < w,
        0 < h,
        px@.len() == w * h,
    ensures
        r@ == turned(px@, w as nat, h as nat),
        r@.len() == w * h,
{
    let n: usize = px.len();
    let mut out: Vec<[u8; 3]> = Vec::new();
    let mut i: usize = 0;
    while i < n
        invariant
            0 < w,
            0 < h,
            i <= n,
            n == px@.len(),
            n == w * h,
            out@ == turned(px@, w as nat, h as nat).take(i as int),
        decreases n - i,
    {
        proof {
            lemma_turned_place(w as int, h as int, i as int);
            let y = i as int % h as int;
            assert(0 <= y * w) by (nonlinear_arith)
                requires
                    0 <= y,
                    0 < w,
            ;
        }
        out.push(px[(i % h) * w + i / h]);
        i = i + 1;
    }
    out
}

/// An image under a blur. The blur works along the rows first, and cannot where they are shorter than
/// its reach and the columns are longer: such an image is turned for it, and turned back.
pub open spec fn softened(px: Seq<[u8; 3]>, w: nat, h: nat) -> Seq<[u8; 3]> {
    if w < BACKGROUND_BLUR_SIGMA && h > BACKGROUND_BLUR_SIGMA {
        turned(
            blurred(turned(px, w, h), h as usize, w as usize, BACKGROUND_BLUR_SIGMA),
            h,
            w,
        )
    } else {
        blurred(px, w as usize, h as usize, BACKGROUND_BLUR_SIGMA)
    }
}

fn soften(px: Vec<[u8; 3]>, w: usize, h: usize) -> (r: Vec<[u8; 3]>)
    requires
        0 < w,
        0 < h,
        px@.len() == w * h,
    ensures
        r@ == softened(px@, w as nat, h as nat),
        r@.len() == w * h,
{
    if w < 8 && h > 8 {
        proof {
            assert(h * w == w * h) by (nonlinear_arith);
        }
        let soft: Vec<[u8; 3]> = blur(turn(&px, w, h), h, w, BACKGROUND_BLUR_SIGMA);
        turn(&soft, h, w)
    } else {
        blur(px, w, h, BACKGROUND_BLUR_SIGMA)
    }
}

/// Bytes as pixels of three.
pub open spec fn triples(rgb: Seq<u8>) -> Seq<[u8; 3]> {
    Seq::new(rgb.len() / 3, |i: int| [rgb[3 * i], rgb[3 * i + 1], rgb[3 * i + 2]])
}

/// Pixels of three bytes with full alpha.
pub open spec fn opaque(px: Seq<[u8; 3]>) -> Seq<u8> {
    Seq::new(
        4 * px.len(),
        |i: int|
            if i % 4 == 3 {
                255u8
            } else {
                px[i / 4][i % 4]
            },
    )
}

fn to_triples(rgb: &Vec<u8>) -> (r: Vec<[u8; 3]>)
    ensures
        r@ == triples(rgb@),
{
    let size: usize = rgb.len();
    let n: usize = size / 3;
    let mut out: Vec<[u8; 3]> = Vec::new();
    let mut i: usize = 0;
    while i < n
        invariant
            i <= n,
            size == rgb@.len(),
            n == size / 3,
            out@ == triples(rgb@).take(i as int),
        decreases n - i,
    {
        let p: [u8; 3] = [rgb[3 * i], rgb[3 * i + 1], rgb[3 * i + 2]];
        out.push(p);
        proof {
            assert(triples(rgb@)[i as int] == p);
            assert(out@ == triples(rgb@).take(i + 1));
        }
        i = i + 1;
    }
    out
}

/// Gives pixels full alpha.
pub fn make_opaque(px: &Vec<[u8; 3]>) -> (r: Vec<u8>)
    ensures
        r@ == opaque(px@),
{
    let mut out: Vec<u8> = Vec::new();
    let mut i: usize = 0;
    while i < px.len()
        invariant
            i <= px.len(),
            out@ == opaque(px@).take(4 * i),
        decreases px.len() - i,
    {
        let p: [u8; 3] = px[i];
        out.push(p[0]);
        out.push(p[1]);
        out.push(p[2]);
        out.push(255);
        proof {
            let o = opaque(px@);
            assert(o[4 * i] == p[0]);
            assert(o[4 * i + 1] == p[1]);
            assert(o[4 * i + 2] == p[2]);
            assert(o[4 * i + 3] == 255);
            assert(out@ == o.take(4 * (i + 1)));
        }
        i = i + 1;
    }
    proof {
        assert(opaque(px@).take(4 * px@.len() as int) == opaque(px@));
    }
    out
}

/// The background that a decoded image makes: blurred, with full alpha, in its own size.
pub open spec fn background_of(decoded: Option<(u32, u32, Seq<u8>)>) -> Result<
    (u32, u32, Seq<u8>),
    ImageError,
> {
    match decoded {
        None => Err(ImageError::Decode),
        Some((w, h, v)) => if w == 0 || h == 0 {
            Err(ImageError::Empty)
        } else {
            Ok((w, h, opaque(softened(triples(v), w as nat, h as nat))))
        },
    }
}

/// Decodes an image file into a blurred background.
pub fn blur_background_rgba(bytes: &[u8]) -> (r: Result<DecodedImage, ImageError>)
    ensures
        match r {
            Ok(d) => background_of(decoded_rgb(bytes@)) == Ok::<_, ImageError>(
                (d.w, d.h, d.rgba@),
            ) && d.rgba@.len() == rgba_size(d.w as nat, d.h as nat),
            Err(e) => background_of(decoded_rgb(bytes@)) == Err::<(u32, u32, Seq<u8>), _>(e),
        },
{
    match load_rgb(bytes) {
        None => Err(ImageError::Decode),
        Some((w, h, rgb)) => {
            if w == 0 || h == 0 {
                return Err(ImageError::Empty);
            }
            let px: Vec<[u8; 3]> = to_triples(&rgb);
            proof {
                assert(3 * w * h == 3 * (w * h)) by (nonlinear_arith);
                assert(px@.len() == w * h);
            }
            let soft: Vec<[u8; 3]> = soften(px, w as usize, h as usize);
            proof {
                assert(4 * (w * h) == 4 * w * h) by (nonlinear_arith);
            }
            Ok(DecodedImage { rgba: make_opaque(&soft), w, h })
        },
    }
}

/// The thumbnail that a decoded image makes: the image itself where it is small enough, else
/// scaled down.
pub open spec fn thumb_of(decoded: Option<(u32, u32, Seq<u8>)>) -> Option<(u32, u32, Seq<u8>)> {
    match decoded {
        None => None,
        Some((w, h, v)) => {
            let m = larger(w, h);
            if m <= MAX_THUMB_DIM {
                Some((w, h, v))
            } else {
                let nw = scaled_floor(w as nat, MAX_THUMB_DIM as nat, m as nat) as u32;
                let nh = scaled_floor(h as nat, MAX_THUMB_DIM as nat, m as nat) as u32;
                Some((nw, nh, triangle_resized(v, w, h, nw, nh)))
            }
        },
    }
}

/// Decodes an image file into a thumbnail.
pub fn load_thumb(bytes: &[u8]) -> (r: Option<DecodedImage>)
    ensures
        match r {
            Some(d) => thumb_of(decoded_rgba(bytes@)) == Some((d.w, d.h, d.rgba@)) && d.w
                <= MAX_THUMB_DIM && d.h <= MAX_THUMB_DIM,
            None => decoded_rgba(bytes@) is None,
        },
{
    match load_rgba(bytes) {
        None => None,
        Some((w, h, rgba)) => {
            let m: u32 = if w < h {
                h
            } else {
                w
            };
            if m <= MAX_THUMB_DIM {
                return Some(DecodedImage { rgba, w, h });
            }
            let nw: u32 = scale_floor(w, MAX_THUMB_DIM, m);
            let nh: u32 = scale_floor(h, MAX_THUMB_DIM, m);
            let (tw, th, small) = resize_image(rgba.as_slice(), w, h, nw, nh, false);
            Some(DecodedImage { rgba: small, w: tw, h: th })
        },
    }
}

/// Which image of a chart its thumbnail is made of: its illustration, or else one of two
/// backgrounds by name.
#[derive(Clone, Copy, PartialEq, Eq, Structural, Debug)]
pub enum ThumbSource {
    Illustration,
    BgPng,
    BackgroundPng,
}

/// The image that is there.
pub fn thumb_source(illustration: bool, bg: bool, background: bool) -> (r: Option<ThumbSource>)
    ensures
        r == Some(ThumbSource::Illustration) <==> illustration,
        r == Some(ThumbSource::BgPng) <==> !illustration && bg,
        r == Some(ThumbSource::BackgroundPng) <==> !illustration && !bg && background,
        r == (if illustration {
            Some(ThumbSource::Illustration)
        } else if bg {
            Some(ThumbSource::BgPng)
        } else if background {
            Some(ThumbSource::BackgroundPng)
        } else {
            None
        }),
{
    if illustration {
        Some(ThumbSource::Illustration)
    } else if bg {
        Some(ThumbSource::BgPng)
    } else if background {
        Some(ThumbSource::BackgroundPng)
    } else {
        None
    }
}

/// How the data of a prepared texture lies: the bytes of a row, and how many rows there are. The rows
/// of a compressed one are rows of blocks of four by four pixels, of 16 bytes each.
pub fn upload_layout(t: &PreparedTex) -> (r: (u32, u32))
    requires
        t.w <= MAX_TEXTURE_DIM,
        t.h <= MAX_TEXTURE_DIM,
    ensures
        t.compressed ==> r.0 == 16 * ((t.w + 3) / 4) && r.1 == (t.h + 3) / 4,
        !t.compressed ==> r.0 == 4 * t.w && r.1 == t.h,
{
    if t.compressed {
        (16 * ((t.w + 3) / 4), (t.h + 3) / 4)
    } else {
        (4 * t.w, t.h)
    }
}

/// Law: a length is cut to the next multiple of four below it; one shorter than a block becomes one.
pub proof fn law_blocks(n: u32)
    ensures
        n >= 4 ==> block_aligned(n) % 4 == 0 && n - 3 <= block_aligned(n) <= n,
        n < 4 ==> block_aligned(n) == 1,
        block_aligned(block_aligned(n)) == block_aligned(n),
{
}

/// Law: a texture of up to 2048 pixels each way keeps its size, but for whole blocks; a larger one is made
/// smaller without changing which side is the longer, and alike whichever way it lies.
pub proof fn law_sizes_of_textures(w: u32, h: u32, compress: bool)
    ensures
        w <= 2048 && h <= 2048 && !compress ==> fitted(w, h, compress) == (w as nat, h as nat),
        w <= 2048 && h <= 2048 && compress ==> fitted(w, h, compress) == (
            block_aligned(w) as nat,
            block_aligned(h) as nat,
        ),
        w > 2048 || h > 2048 ==> 1 <= fitted(w, h, compress).0 <= 2048 && 1 <= fitted(
            w,
            h,
            compress,
        ).1 <= 2048,
        w <= h ==> fitted(w, h, compress).0 <= fitted(w, h, compress).1,
        h <= w ==> fitted(w, h, compress).1 <= fitted(w, h, compress).0,
        fitted(h, w, compress) == (fitted(w, h, compress).1, fitted(w, h, compress).0),
{
    let m = larger(w, h);
    assert(larger(h, w) == m);
    if m > 2048 {
        crate::single::law_scaled_within_limit(w as nat, 2048, m as nat);
        crate::single::law_scaled_within_limit(h as nat, 2048, m as nat);
        if w <= h {
            crate::single::law_scaling_keeps_the_order(w as nat, h as nat, 2048, m as nat);
        }
        if h <= w {
            crate::single::law_scaling_keeps_the_order(h as nat, w as nat, 2048, m as nat);
        }
    }
}

/// Law: blocks are made where they are wanted and fit both ways, and each holds four by four pixels in
/// sixteen bytes.
pub proof fn law_compression(nw: u32, nh: u32, a: nat, b: nat)
    ensures
        is_blocked(true, nw, nh) <==> nw >= 4 && nh >= 4,
        !is_blocked(false, nw, nh),
        bc3_size(4 * a, 4 * b) == 16 * a * b,
        rgba_size(a, b) == 4 * a * b,
{
    assert((4 * a + 3) / 4 == a);
    assert((4 * b + 3) / 4 == b);
    assert(a * b * 16 == 16 * a * b) by (nonlinear_arith);
}

/// Law: the pixel in column `x` of row `y` of a flipped image is the one in that column of the row as far
/// from the other end.
pub proof fn law_flipped_rows(rgba: Seq<u8>, w: int, h: int, x: int, y: int, c: int)
    requires
        0 <= x < w,
        0 <= y < h,
        0 <= c < 4,
    ensures
        flipped(rgba, w, h).len() == 4 * w * h,
        flipped(rgba, w, h)[y * (4 * w) + 4 * x + c] == rgba[(h - 1 - y) * (4 * w) + 4 * x + c],
{
    let row = 4 * w;
    let i = y * row + (4 * x + c);
    assert(0 <= 4 * x + c < row);
    vstd::arithmetic::div_mod::lemma_fundamental_div_mod_converse(i, row, y, 4 * x + c);
    assert(0 <= i < 4 * w * h) by (nonlinear_arith)
        requires
            i == y * row + (4 * x + c),
            row == 4 * w,
            0 <= 4 * x + c < row,
            0 <= y < h,
    ;
}

/// Law: the pixel in column `x` of row `y` of an image stands in column `y` of row `x` of the turned one.
pub proof fn law_turned_pixels(px: Seq<[u8; 3]>, w: nat, h: nat, x: int, y: int)
    requires
        0 <= x < w,
        0 <= y < h,
    ensures
        turned(px, w, h).len() == w * h,
        turned(px, w, h)[x * h + y] == px[y * w + x],
{
    let i = x * h + y;
    vstd::arithmetic::div_mod::lemma_fundamental_div_mod_converse(i, h as int, x, y);
    assert(0 <= i < w * h) by (nonlinear_arith)
        requires
            i == x * h + y,
            0 <= x < w,
            0 <= y < h,
    ;
}

/// Law: three bytes make a pixel, and an opaque pixel has them in order with full alpha behind.
pub proof fn law_pixels_of_bytes(rgb: Seq<u8>, px: Seq<[u8; 3]>, i: int, c: int)
    requires
        0 <= i,
        0 <= c < 3,
    ensures
        i < rgb.len() / 3 ==> triples(rgb)[i][c] == rgb[3 * i + c],
        triples(rgb).len() == rgb.len() / 3,
        opaque(px).len() == 4 * px.len(),
        i < px.len() ==> opaque(px)[4 * i + c] == px[i][c],
        i < px.len() ==> opaque(px)[4 * i + 3] == 255,
{
    assert((4 * i + c) / 4 == i && (4 * i + c) % 4 == c);
    assert((4 * i + 3) / 4 == i && (4 * i + 3) % 4 == 3);
    if i < rgb.len() / 3 {
        let t = triples(rgb)[i];
        assert(t == [rgb[3 * i], rgb[3 * i + 1], rgb[3 * i + 2]]);
        assert(t@[0] == rgb[3 * i] && t@[1] == rgb[3 * i + 1] && t@[2] == rgb[3 * i + 2]);
    }
}

/// Law: the texture of an image has its rows from bottom to top and is never without a pixel; the
/// background has the size of the image, and an image without pixels makes none.
pub proof fn law_images(w: u32, h: u32, v: Seq<u8>)
    ensures
        image_of(None) is None,
        image_of(Some((w, h, v))) is Some,
        w > 0 && h > 0 ==> (image_of(Some((w, h, v)))->0).0 == w && (image_of(Some((w, h, v)))->0).1
            == h,
        w == 0 ==> (image_of(Some((w, h, v)))->0).0 == 1,
        h == 0 ==> (image_of(Some((w, h, v)))->0).1 == 1,
        (image_of(Some((w, h, v)))->0).2 == flipped(v, w as int, h as int),
        background_of(None) == Err::<(u32, u32, Seq<u8>), ImageError>(ImageError::Decode),
        w == 0 || h == 0 ==> background_of(Some((w, h, v))) == Err::<
            (u32, u32, Seq<u8>),
            ImageError,
        >(ImageError::Empty),
        w > 0 && h > 0 ==> background_of(Some((w, h, v))) is Ok && (background_of(
            Some((w, h, v)),
        )->Ok_0).0 == w && (background_of(Some((w, h, v)))->Ok_0).1 == h,
{
}

/// Law: an image of up to 200 pixels each way is its own thumbnail; a larger one is made smaller, to 200 at
/// most, without changing which side is the longer.
pub proof fn law_thumbnails(w: u32, h: u32, v: Seq<u8>)
    ensures
        thumb_of(None) is None,
        w <= 200 && h <= 200 ==> thumb_of(Some((w, h, v))) == Some((w, h, v)),
        w > 200 || h > 200 ==> ({
            let t = thumb_of(Some((w, h, v)))->0;
            &&& 1 <= t.0 <= 200 && 1 <= t.1 <= 200
            &&& w <= h ==> t.0 <= t.1
            &&& h <= w ==> t.1 <= t.0
            &&& t.2 == triangle_resized(v, w, h, t.0, t.1)
        }),
{
    let m = larger(w, h);
    if m > 200 {
        crate::single::law_scaled_within_limit(w as nat, 200, m as nat);
        crate::single::law_scaled_within_limit(h as nat, 200, m as nat);
        if w <= h {
            crate::single::law_scaling_keeps_the_order(w as nat, h as nat, 200, m as nat);
        }
        if h <= w {
            crate::single::law_scaling_keeps_the_order(h as nat, w as nat, 200, m as nat);
        }
    }
}

/// Law: a background is blurred along its longer side first where the shorter one is less than eight
/// pixels wide and the other more than eight high; else as it lies.
pub proof fn law_softened(px: Seq<[u8; 3]>, w: nat, h: nat)
    ensures
        w >= 8 || h <= 8 ==> softened(px, w, h) == blurred(px, w as usize, h as usize, 8),
        w < 8 && h > 8 ==> softened(px, w, h) == turned(
            blurred(turned(px, w, h), h as usize, w as usize, 8),
            h,
            w,
        ),
{
}

/// Law: a texture that is made smaller keeps its proportions to within a pixel: the longer side comes to
/// 2048, and the shorter one to as much of it as it was.
pub proof fn law_texture_proportions(w: u32, h: u32)
    requires
        0 < w < 16777216,
        0 < h < 16777216,
        w > 2048 || h > 2048,
    ensures
        ({
            let m = (if w < h { h } else { w }) as nat;
            let (a, b) = fitted(w, h, false);
            &&& a * m <= w * 2048 + m && w * 2048 <= a * m + m
            &&& b * m <= h * 2048 + m && h * 2048 <= b * m + m
        }),
        ({
            let m = (if w < h { h } else { w }) as nat;
            let t = thumb_of(Some((w, h, Seq::<u8>::empty())))->0;
            &&& t.0 * m <= w * 200 + m && w * 200 <= t.0 * m + 2 * m
            &&& t.1 * m <= h * 200 + m && h * 200 <= t.1 * m + 2 * m
        }),
{
    let m = larger(w, h) as nat;
    crate::single::law_scaling_keeps_proportions(w as nat, 2048, m);
    crate::single::law_scaling_keeps_proportions(h as nat, 2048, m);
    crate::single::law_scaling_keeps_proportions(w as nat, 200, m);
    crate::single::law_scaling_keeps_proportions(h as nat, 200, m);
    crate::single::law_scaled_within_limit(w as nat, 200, m);
    crate::single::law_scaled_within_limit(h as nat, 200, m);
}

} // verus!
