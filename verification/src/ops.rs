//! Image operations for textures.
//!
//! Both transforms work on a flat byte buffer addressed row-major: a pixel
//! `(x, y)` with `channels` bytes per pixel starts at byte
//! `x * channels + y * width * channels`.  Each transform validates the
//! buffer's length against the geometry before touching it and allocates a
//! fresh output buffer; the input is never mutated.

use vstd::arithmetic::div_mod::lemma_fundamental_div_mod;
use vstd::arithmetic::div_mod::lemma_fundamental_div_mod_converse;
use vstd::arithmetic::div_mod::lemma_mod_bound;
use vstd::prelude::*;

use crate::TextureError;

verus! {

/// Linear offset of channel `c` of pixel `(x, y)` in a row-major buffer
/// of `width`-pixel rows with `channels` bytes per pixel.
pub open spec fn px_offset(x: int, y: int, c: int, width: int, channels: int) -> int {
    c + x * channels + y * (width * channels)
}

/// Byte length a buffer must have for the given geometry.
pub open spec fn packed_len(width: int, height: int, channels: int) -> int {
    width * height * channels
}

/// The error value both transforms raise for a buffer whose length does not
/// match its geometry.  The `expected` field saturates at `usize::MAX` when
/// the true product does not fit in a `usize` (no real buffer can match such
/// a geometry).
pub open spec fn size_mismatch_error(expected: int, actual: int) -> TextureError {
    TextureError::InvalidBufferSize {
        expected: if expected <= usize::MAX as int {
            expected as usize
        } else {
            usize::MAX
        },
        actual: actual as usize,
    }
}

/// Index into the source buffer that a vertically flipped buffer reads its
/// byte `i` from: the same position `i % stride` within the mirrored row
/// `height - 1 - i / stride`.
pub open spec fn flip_index(i: int, height: int, stride: int) -> int {
    (height - 1 - i / stride) * stride + i % stride
}

/// A buffer of `height` rows of `stride` bytes with the row order reversed.
pub open spec fn flip_rows(s: Seq<u8>, height: int, stride: int) -> Seq<u8>
    recommends
        s.len() == height * stride,
{
    Seq::new(s.len(), |i: int| s[flip_index(i, height, stride)])
}

/// A geometry with a zero component calls for an empty buffer.
proof fn lemma_zero_factor(w: int, h: int, c: int)
    by (nonlinear_arith)
    requires
        w == 0 || h == 0 || c == 0,
    ensures
        w * h * c == 0,
{
}

/// Bounds of the block of `st` bytes that row `y` occupies in a buffer of
/// `h` rows of `st` bytes, counted from the top or from the bottom.
proof fn lemma_row_block(y: int, h: int, st: int)
    by (nonlinear_arith)
    requires
        0 <= y < h,
        1 <= st,
    ensures
        0 <= y * st,
        y * st + st == (y + 1) * st,
        (y + 1) * st <= h * st,
        0 <= (h - 1 - y) * st,
        (h - 1 - y) * st + st == (h - y) * st,
        (h - y) * st <= h * st,
{
}

/// Flips the image vertically.
///
/// Returns a fresh buffer with the rows of `memory` in reversed vertical
/// order; the bytes within each row (pixel and channel order) are unchanged.
/// Fails with [`TextureError::InvalidBufferSize`] exactly when the length of
/// `memory` is not `width * height * channels`.
pub fn flip_vertical(memory: &[u8], width: u32, height: u32, channels: u8) -> (r: Result<
    Vec<u8>,
    TextureError,
>)
    ensures
        match r {
            Ok(out) => {
                &&& memory@.len() == packed_len(width as int, height as int, channels as int)
                &&& out@.len() == memory@.len()
                &&& out@ == flip_rows(
                    memory@,
                    height as int,
                    (width as int) * (channels as int),
                )
            },
            Err(e) => {
                &&& memory@.len() != packed_len(width as int, height as int, channels as int)
                &&& e == size_mismatch_error(
                    packed_len(width as int, height as int, channels as int),
                    memory@.len() as int,
                )
            },
        },
{
    let w = width as usize;
    let h = height as usize;
    let c = channels as usize;
    let actual = memory.len();
    let expected: Option<usize> = if w == 0 || h == 0 || c == 0 {
        proof {
            lemma_zero_factor(w as int, h as int, c as int);
        }
        Some(0)
    } else {
        match w.checked_mul(h) {
            Some(p) => {
                proof {
                    assert((w as int) * (h as int) * (c as int) >= (w as int) * (h as int) && (
                    w as int) * (h as int) * (c as int) <= (p as int) * (c as int))
                        by (nonlinear_arith)
                        requires
                            c >= 1,
                            p == (w as int) * (h as int),
                    ;
                }
                p.checked_mul(c)
            },
            None => {
                proof {
                    assert((w as int) * (h as int) * (c as int) > usize::MAX as int)
                        by (nonlinear_arith)
                        requires
                            c >= 1,
                            (w as int) * (h as int) > usize::MAX as int,
                    ;
                }
                None
            },
        }
    };
    match expected {
        Some(e) => {
            if e != actual {
                return Err(TextureError::InvalidBufferSize { expected: e, actual: actual });
            }
        },
        None => {
            return Err(TextureError::InvalidBufferSize { expected: usize::MAX, actual: actual });
        },
    }
    // From here on the buffer length matches the geometry exactly.
    if actual == 0 {
        let out: Vec<u8> = Vec::new();
        proof {
            assert(out@ =~= flip_rows(memory@, height as int, (width as int) * (channels as int)));
        }
        return Ok(out);
    }
    // A non-empty buffer means every geometry component is at least 1,
    // so the row stride w * c is bounded by the total length w * h * c.
    assert((w as int) * (c as int) <= actual && (h as int) * ((w as int) * (c as int)) == actual)
        by (nonlinear_arith)
        requires
            w >= 1,
            h >= 1,
            c >= 1,
            actual == (w as int) * (h as int) * (c as int),
    ;
    let stride = w * c;
    let ghost hh = h as int;
    let ghost st = stride as int;
    let mut res: Vec<u8> = Vec::new();
    let mut y: usize = 0;
    while y < h
        invariant
            0 <= y <= h,
            1 <= stride,
            st == stride as int,
            hh == h as int,
            memory@.len() == actual,
            actual == hh * st,
            actual <= usize::MAX,
            res@.len() == y * st,
            forall|j: int|
                0 <= j < y * st ==> res@[j] == memory@[flip_index(j, hh, st)],
        decreases h - y,
    {
        proof {
            lemma_row_block(y as int, hh, st);
            lemma_row_block(hh - 1 - y, hh, st);
        }
        let src_base = (h - 1 - y) * stride;
        let mut i: usize = 0;
        while i < stride
            invariant
                0 <= i <= stride,
                0 <= y < h,
                1 <= stride,
                st == stride as int,
                hh == h as int,
                memory@.len() == actual,
                actual == hh * st,
                actual <= usize::MAX,
                src_base == (hh - 1 - y) * st,
                src_base + st <= actual,
                res@.len() == y * st + i,
                forall|j: int|
                    0 <= j < y * st + i ==> res@[j] == memory@[flip_index(j, hh, st)],
            decreases stride - i,
        {
            res.push(memory[src_base + i]);
            proof {
                let j0 = y * st + i;
                lemma_fundamental_div_mod_converse(j0, st, y as int, i as int);
                assert(flip_index(j0, hh, st) == src_base + i);
            }
            i = i + 1;
        }
        proof {
            lemma_row_block(y as int, hh, st);
        }
        y = y + 1;
    }
    proof {
        assert(res@ =~= flip_rows(memory@, height as int, (width as int) * (channels as int)));
    }
    Ok(res)
}

/// Reading a flipped buffer's byte `i` through `flip_index` twice leads
/// back to byte `i`.
proof fn lemma_flip_index_involution(i: int, h: int, st: int)
    requires
        1 <= st,
        0 <= i < h * st,
    ensures
        0 <= flip_index(i, h, st) < h * st,
        flip_index(flip_index(i, h, st), h, st) == i,
{
    let q = i / st;
    let r = i % st;
    lemma_fundamental_div_mod(i, st);
    lemma_mod_bound(i, st);
    assert(0 <= q < h) by (nonlinear_arith)
        requires
            i == st * q + r,
            0 <= r < st,
            0 <= i < h * st,
            st >= 1,
    ;
    let j = (h - 1 - q) * st + r;
    lemma_fundamental_div_mod_converse(j, st, h - 1 - q, r);
    assert(0 <= j < h * st && (h - 1 - (h - 1 - q)) * st + r == i) by (nonlinear_arith)
        requires
            0 <= h - 1 - q < h,
            0 <= r < st,
            j == (h - 1 - q) * st + r,
            i == st * q + r,
            st >= 1,
    ;
}

/// Flipping a well-formed buffer vertically twice gives back the original
/// buffer, for every geometry `(width, height, channels)` whose packed
/// length the buffer has.
pub proof fn lemma_flip_vertical_involution(s: Seq<u8>, width: int, height: int, channels: int)
    requires
        0 <= width,
        0 <= height,
        0 <= channels,
        s.len() == packed_len(width, height, channels),
    ensures
        flip_rows(
            flip_rows(s, height, width * channels),
            height,
            width * channels,
        ) == s,
{
    let st = width * channels;
    assert(height * st == width * height * channels && 0 <= st) by (nonlinear_arith)
        requires
            st == width * channels,
            0 <= width,
            0 <= channels,
    ;
    let f = flip_rows(s, height, st);
    let g = flip_rows(f, height, st);
    assert forall|i: int| 0 <= i < s.len() implies g[i] == s[i] by {
        assert(st >= 1) by (nonlinear_arith)
            requires
                0 <= height,
                0 <= st,
                0 < height * st,
        ;
        lemma_flip_index_involution(i, height, st);
        lemma_flip_index_involution(flip_index(i, height, st), height, st);
    }
    assert(g =~= s);
}

/// Flipping a buffer of one row gives back the original buffer.
pub proof fn lemma_flip_vertical_single_row(s: Seq<u8>, width: int, channels: int)
    requires
        0 <= width,
        0 <= channels,
        s.len() == packed_len(width, 1, channels),
    ensures
        flip_rows(s, 1, width * channels) == s,
{
    let st = width * channels;
    assert(st == width * 1 * channels) by (nonlinear_arith)
        requires
            st == width * channels,
    ;
    let f = flip_rows(s, 1, st);
    assert forall|i: int| 0 <= i < s.len() implies f[i] == s[i] by {
        lemma_fundamental_div_mod_converse(i, st, 0, i);
    }
    assert(f =~= s);
}

/// Row `y` of the flipped buffer equals row `height - 1 - y` of the source
/// buffer, byte for byte.
pub proof fn lemma_flip_vertical_rows(
    s: Seq<u8>,
    width: int,
    height: int,
    channels: int,
    y: int,
)
    requires
        0 <= width,
        0 <= channels,
        0 <= y < height,
        s.len() == packed_len(width, height, channels),
    ensures
        flip_rows(s, height, width * channels).subrange(
            y * (width * channels),
            (y + 1) * (width * channels),
        ) == s.subrange(
            (height - 1 - y) * (width * channels),
            (height - y) * (width * channels),
        ),
{
    let st = width * channels;
    assert(height * st == width * height * channels && 0 <= st) by (nonlinear_arith)
        requires
            st == width * channels,
            0 <= width,
            0 <= channels,
    ;
    if st == 0 {
        assert(y * st == 0 && (y + 1) * st == 0 && (height - 1 - y) * st == 0 && (height - y) * st
            == 0) by (nonlinear_arith)
            requires
                st == 0,
        ;
        assert(flip_rows(s, height, st).subrange(y * st, (y + 1) * st) =~= s.subrange(
            (height - 1 - y) * st,
            (height - y) * st,
        ));
    } else {
        lemma_row_block(y, height, st);
        lemma_row_block(height - 1 - y, height, st);
        let lhs = flip_rows(s, height, st).subrange(y * st, (y + 1) * st);
        let rhs = s.subrange((height - 1 - y) * st, (height - y) * st);
        assert forall|k: int| 0 <= k < st implies lhs[k] == rhs[k] by {
            lemma_fundamental_div_mod_converse(y * st + k, st, y, k);
        }
        assert(lhs =~= rhs);
    }
}

/// The RGBA8 buffer that expanding an alpha-only buffer `s` yields: each
/// source byte becomes the four bytes `[255, 255, 255, source byte]`.
pub open spec fn alpha_expanded(s: Seq<u8>) -> Seq<u8> {
    Seq::new(s.len() * 4, |i: int| if i % 4 == 3 { s[i / 4] } else { 255u8 })
}

/// Converts from alpha to rgba8.
///
/// Returns a fresh buffer four times the length of `memory` in which every
/// pixel is opaque white with the source byte as its alpha channel, in the
/// same row-major order as the input.  Fails with
/// [`TextureError::InvalidBufferSize`] exactly when the length of `memory`
/// is not `width * height`.
pub fn alpha_to_rgba8(memory: &[u8], width: u32, height: u32) -> (r: Result<
    Vec<u8>,
    TextureError,
>)
    ensures
        match r {
            Ok(out) => {
                &&& memory@.len() == (width as int) * (height as int)
                &&& out@.len() == 4 * memory@.len()
                &&& out@ == alpha_expanded(memory@)
            },
            Err(e) => {
                &&& memory@.len() != (width as int) * (height as int)
                &&& e == size_mismatch_error(
                    (width as int) * (height as int),
                    memory@.len() as int,
                )
            },
        },
{
    let w = width as usize;
    let h = height as usize;
    let actual = memory.len();
    let expected: Option<usize> = if w == 0 || h == 0 {
        proof {
            assert((w as int) * (h as int) == 0) by (nonlinear_arith)
                requires
                    w == 0 || h == 0,
            ;
        }
        Some(0)
    } else {
        w.checked_mul(h)
    };
    match expected {
        Some(e) => {
            if e != actual {
                return Err(TextureError::InvalidBufferSize { expected: e, actual: actual });
            }
        },
        None => {
            return Err(TextureError::InvalidBufferSize { expected: usize::MAX, actual: actual });
        },
    }
    // From here on the buffer length matches the geometry exactly.
    let mut res: Vec<u8> = Vec::new();
    let mut k: usize = 0;
    while k < actual
        invariant
            0 <= k <= actual,
            memory@.len() == actual,
            res@.len() == 4 * k,
            forall|j: int|
                0 <= j < 4 * k ==> res@[j] == (if j % 4 == 3 {
                    memory@[j / 4]
                } else {
                    255u8
                }),
        decreases actual - k,
    {
        res.push(255);
        res.push(255);
        res.push(255);
        res.push(memory[k]);
        proof {
            let kk = k as int;
            lemma_fundamental_div_mod_converse(4 * kk, 4, kk, 0);
            lemma_fundamental_div_mod_converse(4 * kk + 1, 4, kk, 1);
            lemma_fundamental_div_mod_converse(4 * kk + 2, 4, kk, 2);
            lemma_fundamental_div_mod_converse(4 * kk + 3, 4, kk, 3);
        }
        k = k + 1;
    }
    proof {
        assert(res@ =~= alpha_expanded(memory@));
    }
    Ok(res)
}

/// The byte that position `i` of a flipped 4-channel buffer reads sits in
/// the same channel as `i` and belongs to the flipped position of the
/// 1-channel pixel `i / 4`.
proof fn lemma_expand_flip_indices(i: int, w: int, h: int)
    requires
        1 <= w,
        1 <= h,
        0 <= i < 4 * (w * h),
    ensures
        0 <= flip_index(i, h, w * 4) < 4 * (w * h),
        flip_index(i, h, w * 4) % 4 == i % 4,
        0 <= i / 4 < w * h,
        0 <= flip_index(i / 4, h, w) < w * h,
        flip_index(i, h, w * 4) / 4 == flip_index(i / 4, h, w),
{
    let w4 = w * 4;
    let y = i / w4;
    let r = i % w4;
    lemma_fundamental_div_mod(i, w4);
    lemma_mod_bound(i, w4);
    let x = r / 4;
    let k = r % 4;
    lemma_fundamental_div_mod(r, 4);
    lemma_mod_bound(r, 4);
    assert(0 <= y < h && 0 <= x < w && i == (y * w + x) * 4 + k) by (nonlinear_arith)
        requires
            i == w4 * y + r,
            0 <= r < w4,
            w4 == w * 4,
            0 <= i < 4 * (w * h),
            r == 4 * x + k,
            0 <= k < 4,
            1 <= w,
            1 <= h,
    ;
    lemma_fundamental_div_mod_converse(i, 4, y * w + x, k);
    let j = flip_index(i, h, w4);
    assert(j == 4 * ((h - 1 - y) * w + x) + k && 0 <= j < 4 * (w * h) && 0 <= (h - 1 - y) * w + x
        < w * h) by (nonlinear_arith)
        requires
            j == (h - 1 - y) * w4 + r,
            w4 == w * 4,
            r == 4 * x + k,
            0 <= y < h,
            0 <= x < w,
            0 <= k < 4,
            1 <= w,
            1 <= h,
    ;
    lemma_fundamental_div_mod_converse(j, 4, (h - 1 - y) * w + x, k);
    lemma_fundamental_div_mod_converse(y * w + x, w, y, x);
}

/// Flipping an alpha-only buffer and then expanding it to RGBA8 gives the
/// same buffer as expanding first and flipping the 4-channel result.
/// Channel count changes only how a row is laid out, not the row geometry.
pub proof fn lemma_flip_commutes_with_expand(s: Seq<u8>, width: int, height: int)
    requires
        0 <= width,
        0 <= height,
        s.len() == width * height,
    ensures
        flip_rows(alpha_expanded(s), height, width * 4) == alpha_expanded(
            flip_rows(s, height, width),
        ),
{
    let lhs = flip_rows(alpha_expanded(s), height, width * 4);
    let rhs = alpha_expanded(flip_rows(s, height, width));
    assert forall|i: int| 0 <= i < 4 * s.len() implies lhs[i] == rhs[i] by {
        assert(1 <= width && 1 <= height) by (nonlinear_arith)
            requires
                0 <= width,
                0 <= height,
                0 < 4 * (width * height),
        ;
        lemma_expand_flip_indices(i, width, height);
    }
    assert(lhs =~= rhs);
}

/// In the expanded buffer, the four bytes of pixel `(x, y)` under 4-channel
/// addressing are opaque white followed by the source byte of pixel
/// `(x, y)` under 1-channel addressing.
pub proof fn lemma_alpha_to_rgba8_pixel(s: Seq<u8>, width: int, height: int, x: int, y: int)
    requires
        0 <= x < width,
        0 <= y < height,
        s.len() == width * height,
    ensures
        alpha_expanded(s)[px_offset(x, y, 0, width, 4)] == 255,
        alpha_expanded(s)[px_offset(x, y, 1, width, 4)] == 255,
        alpha_expanded(s)[px_offset(x, y, 2, width, 4)] == 255,
        alpha_expanded(s)[px_offset(x, y, 3, width, 4)] == s[px_offset(x, y, 0, width, 1)],
{
    let p = x + y * width;
    assert(px_offset(x, y, 0, width, 1) == p && 0 <= p < width * height && forall|c: int|
        0 <= c < 4 ==> #[trigger] px_offset(x, y, c, width, 4) == 4 * p + c)
        by (nonlinear_arith)
        requires
            p == x + y * width,
            0 <= x < width,
            0 <= y < height,
    ;
    lemma_fundamental_div_mod_converse(4 * p, 4, p, 0);
    lemma_fundamental_div_mod_converse(4 * p + 1, 4, p, 1);
    lemma_fundamental_div_mod_converse(4 * p + 2, 4, p, 2);
    lemma_fundamental_div_mod_converse(4 * p + 3, 4, p, 3);
}

} // verus!

