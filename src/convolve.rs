use crate::image::{channel, get_pixel, lemma_cell, rgb_at, Image, Rgb};
use vstd::prelude::*;

verus! {

/// `i` moved to the nearest index of `0..n`.
pub open spec fn clamp_coord(i: int, n: int) -> int {
    if i < 0 {
        0
    } else if i > n - 1 {
        n - 1
    } else {
        i
    }
}

/// Kernel entry `(i, j)` times channel `c` of the source pixel it lies over
/// when the kernel is centred on `(x, y)`, edges clamped.
pub open spec fn tap(img: Image, m: [[i32; 3]; 3], x: int, y: int, i: int, j: int, c: int) -> int {
    m[i][j] as int * channel(
        img.pixel(clamp_coord(x + j - 1, img.width as int), clamp_coord(y + i - 1, img.height as int)),
        c,
    )
}

/// The weighted sum over kernel row `i`.
pub open spec fn row_sum(img: Image, m: [[i32; 3]; 3], x: int, y: int, i: int, c: int) -> int {
    tap(img, m, x, y, i, 0, c) + tap(img, m, x, y, i, 1, c) + tap(img, m, x, y, i, 2, c)
}

/// The weighted sum over the whole 3x3 neighbourhood of `(x, y)`.
pub open spec fn kernel_sum(img: Image, m: [[i32; 3]; 3], x: int, y: int, c: int) -> int {
    row_sum(img, m, x, y, 0, c) + row_sum(img, m, x, y, 1, c) + row_sum(img, m, x, y, 2, c)
}

pub open spec fn abs(a: int) -> int {
    if a < 0 {
        -a
    } else {
        a
    }
}

/// Integer division rounding toward zero, as Rust's `/` does.
pub open spec fn trunc_div(a: int, d: int) -> int {
    if (a < 0) == (d < 0) {
        abs(a) / abs(d)
    } else {
        -(abs(a) / abs(d))
    }
}

/// `v` saturated to `0..=255`.
pub open spec fn clamp_byte(v: int) -> u8 {
    if v < 0 {
        0
    } else if v > 255 {
        255
    } else {
        v as u8
    }
}

/// The filtered colour of pixel `(x, y)`.
pub open spec fn convolved(img: Image, m: [[i32; 3]; 3], d: int, x: int, y: int) -> Rgb {
    Rgb {
        r: clamp_byte(trunc_div(kernel_sum(img, m, x, y, 0), d)),
        g: clamp_byte(trunc_div(kernel_sum(img, m, x, y, 1), d)),
        b: clamp_byte(trunc_div(kernel_sum(img, m, x, y, 2), d)),
    }
}

/// The sharpening kernel.
pub open spec fn sharpen_kernel() -> [[i32; 3]; 3] {
    [[0i32, -1i32, 0i32], [-1i32, 5i32, -1i32], [0i32, -1i32, 0i32]]
}

/// The kernel that picks the centre pixel alone.
pub open spec fn identity_kernel() -> [[i32; 3]; 3] {
    [[0i32, 0i32, 0i32], [0i32, 1i32, 0i32], [0i32, 0i32, 0i32]]
}

/// Index `base + off - 1` clamped to `0..n`.
fn clamped(base: usize, off: usize, n: usize) -> (r: usize)
    requires
        base < n,
        off < 3,
    ensures
        r == clamp_coord(base + off - 1, n as int),
        r < n,
{
    if off == 0 {
        if base == 0 {
            0
        } else {
            base - 1
        }
    } else if off == 1 {
        base
    } else if base + 1 < n {
        base + 1
    } else {
        n - 1
    }
}

/// One kernel entry applied to its source pixel, per channel.
fn apply_tap(img: &Image, m: &[[i32; 3]; 3], x: usize, y: usize, i: usize, j: usize) -> (r: (
    i64,
    i64,
    i64,
))
    requires
        img.wf(),
        x < img.width,
        y < img.height,
        i < 3,
        j < 3,
    ensures
        r.0 == tap(*img, *m, x as int, y as int, i as int, j as int, 0),
        r.1 == tap(*img, *m, x as int, y as int, i as int, j as int, 1),
        r.2 == tap(*img, *m, x as int, y as int, i as int, j as int, 2),
        -0x80_0000_0000 <= r.0 <= 0x80_0000_0000,
        -0x80_0000_0000 <= r.1 <= 0x80_0000_0000,
        -0x80_0000_0000 <= r.2 <= 0x80_0000_0000,
{
    let cx = clamped(x, j, img.width);
    let cy = clamped(y, i, img.height);
    let p = get_pixel(img, cx, cy);
    let k = m[i][j] as i64;
    assert(-0x80_0000_0000 <= k * (p.r as i64) <= 0x80_0000_0000) by (nonlinear_arith)
        requires
            -0x8000_0000 <= k < 0x8000_0000,
            0 <= p.r < 256,
    ;
    assert(-0x80_0000_0000 <= k * (p.g as i64) <= 0x80_0000_0000) by (nonlinear_arith)
        requires
            -0x8000_0000 <= k < 0x8000_0000,
            0 <= p.g < 256,
    ;
    assert(-0x80_0000_0000 <= k * (p.b as i64) <= 0x80_0000_0000) by (nonlinear_arith)
        requires
            -0x8000_0000 <= k < 0x8000_0000,
            0 <= p.b < 256,
    ;
    (k * (p.r as i64), k * (p.g as i64), k * (p.b as i64))
}

/// The weighted sums of the neighbourhood of `(x, y)`, per channel.
fn apply_kernel(img: &Image, m: &[[i32; 3]; 3], x: usize, y: usize) -> (r: (i64, i64, i64))
    requires
        img.wf(),
        x < img.width,
        y < img.height,
    ensures
        r.0 == kernel_sum(*img, *m, x as int, y as int, 0),
        r.1 == kernel_sum(*img, *m, x as int, y as int, 1),
        r.2 == kernel_sum(*img, *m, x as int, y as int, 2),
        -0x1000_0000_0000 <= r.0 <= 0x1000_0000_0000,
        -0x1000_0000_0000 <= r.1 <= 0x1000_0000_0000,
        -0x1000_0000_0000 <= r.2 <= 0x1000_0000_0000,
{
    let t00 = apply_tap(img, m, x, y, 0, 0);
    let t01 = apply_tap(img, m, x, y, 0, 1);
    let t02 = apply_tap(img, m, x, y, 0, 2);
    let t10 = apply_tap(img, m, x, y, 1, 0);
    let t11 = apply_tap(img, m, x, y, 1, 1);
    let t12 = apply_tap(img, m, x, y, 1, 2);
    let t20 = apply_tap(img, m, x, y, 2, 0);
    let t21 = apply_tap(img, m, x, y, 2, 1);
    let t22 = apply_tap(img, m, x, y, 2, 2);
    (
        t00.0 + t01.0 + t02.0 + t10.0 + t11.0 + t12.0 + t20.0 + t21.0 + t22.0,
        t00.1 + t01.1 + t02.1 + t10.1 + t11.1 + t12.1 + t20.1 + t21.1 + t22.1,
        t00.2 + t01.2 + t02.2 + t10.2 + t11.2 + t12.2 + t20.2 + t21.2 + t22.2,
    )
}

/// `s / d` rounded toward zero, then saturated to a byte.
fn scale_channel(s: i64, d: i32) -> (r: u8)
    requires
        d != 0,
        -0x1000_0000_0000 <= s <= 0x1000_0000_0000,
    ensures
        r == clamp_byte(trunc_div(s as int, d as int)),
{
    let sa: u64 = if s < 0 {
        (-s) as u64
    } else {
        s as u64
    };
    let da: u64 = if d < 0 {
        (-(d as i64)) as u64
    } else {
        d as u64
    };
    let q: u64 = sa / da;
    assert(q <= sa) by (nonlinear_arith)
        requires
            q == sa / da,
            da >= 1,
    ;
    let v: i64 = if (s < 0) == (d < 0) {
        q as i64
    } else {
        -(q as i64)
    };
    if v < 0 {
        0
    } else if v > 255 {
        255
    } else {
        v as u8
    }
}

/// Convolves `image` with the 3x3 kernel `matrix`: each channel of each
/// output pixel is the kernel-weighted sum over the pixel's neighbourhood
/// (coordinates past an edge clamped to that edge), divided by `divisor`
/// rounding toward zero, and saturated to `0..=255`.
pub fn convolver(image: &Image, matrix: [[i32; 3]; 3], divisor: i32) -> (r: Image)
    requires
        image.wf(),
        divisor != 0,
    ensures
        r.wf(),
        r.width == image.width,
        r.height == image.height,
        forall|x: int, y: int|
            0 <= x < image.width && 0 <= y < image.height ==> #[trigger] r.pixel(x, y)
                == convolved(*image, matrix, divisor as int, x, y),
{
    let w = image.width;
    let h = image.height;
    let _len = image.data.len();
    let n = w * h;
    let mut data: Vec<u8> = Vec::new();
    let mut k: usize = 0;
    while k < n
        invariant
            image.wf(),
            w == image.width,
            h == image.height,
            n == w * h,
            divisor != 0,
            k <= n,
            data@.len() == 3 * k,
            forall|kk: int|
                0 <= kk < k ==> #[trigger] rgb_at(data@, kk) == convolved(
                    *image,
                    matrix,
                    divisor as int,
                    kk % (w as int),
                    kk / (w as int),
                ),
        decreases n - k,
    {
        assert(w > 0) by (nonlinear_arith)
            requires
                k < n,
                n == w * h,
        ;
        let x = k % w;
        let y = k / w;
        assert(y < h) by (nonlinear_arith)
            requires
                k < w * h,
                y == k / w,
                w > 0,
        ;
        let s = apply_kernel(image, &matrix, x, y);
        let p = Rgb {
            r: scale_channel(s.0, divisor),
            g: scale_channel(s.1, divisor),
            b: scale_channel(s.2, divisor),
        };
        let ghost before = data@;
        data.push(p.r);
        data.push(p.g);
        data.push(p.b);
        assert(rgb_at(data@, k as int) == p);
        assert forall|kk: int| 0 <= kk < k implies #[trigger] rgb_at(data@, kk) == rgb_at(before, kk) by {}
        k = k + 1;
    }
    let r = Image { width: w, height: h, data };
    assert forall|x: int, y: int| 0 <= x < w && 0 <= y < h implies #[trigger] r.pixel(x, y)
        == convolved(*image, matrix, divisor as int, x, y) by {
        lemma_cell(x, y, w as int, h as int);
        assert(rgb_at(r.data@, y * w + x) == convolved(
            *image,
            matrix,
            divisor as int,
            (y * w + x) % (w as int),
            (y * w + x) / (w as int),
        ));
    }
    r
}

/// Sharpens `image`: the convolution with the kernel
/// `[[0, -1, 0], [-1, 5, -1], [0, -1, 0]]` and divisor 1.
pub fn sharpen_filter(image: &Image) -> (r: Image)
    requires
        image.wf(),
    ensures
        r.wf(),
        r.width == image.width,
        r.height == image.height,
        forall|x: int, y: int|
            0 <= x < image.width && 0 <= y < image.height ==> #[trigger] r.pixel(x, y)
                == convolved(*image, sharpen_kernel(), 1, x, y),
{
    let matrix: [[i32; 3]; 3] = [[0, -1, 0], [-1, 5, -1], [0, -1, 0]];
    assert(matrix == sharpen_kernel());
    convolver(image, matrix, 1)
}

/// A byte divided by 1 and saturated is the byte itself.
proof fn lemma_byte_unchanged(v: u8)
    ensures
        clamp_byte(trunc_div(v as int, 1)) == v,
{
    assert(abs(1) == 1);
    assert((v as int) / 1 == v as int) by (nonlinear_arith);
}

/// Convolving with the identity kernel and divisor 1 leaves every pixel
/// unchanged.
pub proof fn lemma_identity_kernel_keeps_image(img: Image)
    requires
        img.wf(),
    ensures
        forall|x: int, y: int|
            0 <= x < img.width && 0 <= y < img.height ==> #[trigger] convolved(
                img,
                identity_kernel(),
                1,
                x,
                y,
            ) == img.pixel(x, y),
{
    assert forall|x: int, y: int| 0 <= x < img.width && 0 <= y < img.height implies #[trigger] convolved(
        img,
        identity_kernel(),
        1,
        x,
        y,
    ) == img.pixel(x, y) by {
        let m = identity_kernel();
        let p = img.pixel(x, y);
        assert(m[0][0] == 0 && m[0][1] == 0 && m[0][2] == 0);
        assert(m[1][0] == 0 && m[1][1] == 1 && m[1][2] == 0);
        assert(m[2][0] == 0 && m[2][1] == 0 && m[2][2] == 0);
        assert(kernel_sum(img, m, x, y, 0) == p.r as int);
        assert(kernel_sum(img, m, x, y, 1) == p.g as int);
        assert(kernel_sum(img, m, x, y, 2) == p.b as int);
        lemma_byte_unchanged(p.r);
        lemma_byte_unchanged(p.g);
        lemma_byte_unchanged(p.b);
    }
}

/// On a one-pixel image every clamped neighbour is the pixel itself, so the
/// sharpening kernel gives `5p - 4p = p`.
pub proof fn lemma_sharpen_single_pixel(img: Image)
    requires
        img.wf(),
        img.width == 1,
        img.height == 1,
    ensures
        convolved(img, sharpen_kernel(), 1, 0, 0) == img.pixel(0, 0),
{
    let m = sharpen_kernel();
    let p = img.pixel(0, 0);
    assert(m[0][0] == 0 && m[0][1] == -1 && m[0][2] == 0);
    assert(m[1][0] == -1 && m[1][1] == 5 && m[1][2] == -1);
    assert(m[2][0] == 0 && m[2][1] == -1 && m[2][2] == 0);
    assert(kernel_sum(img, m, 0, 0, 0) == p.r as int);
    assert(kernel_sum(img, m, 0, 0, 1) == p.g as int);
    assert(kernel_sum(img, m, 0, 0, 2) == p.b as int);
    lemma_byte_unchanged(p.r);
    lemma_byte_unchanged(p.g);
    lemma_byte_unchanged(p.b);
}

} // verus!
