use crate::image::{channel, lemma_cell, rgb_at, Image, Rgb};
use vstd::prelude::*;

verus! {

/// The size of the coarse grid: one cell per source block.
#[derive(Clone, Copy, Debug, PartialEq, Eq, Structural)]
pub struct TargetGrid {
    pub width: usize,
    pub height: usize,
}

/// Why an image cannot be processed.
#[derive(Clone, Copy, Debug, PartialEq, Eq, Structural)]
pub enum PixelError {
    /// An empty image or sample set, a zero block size or palette size, or a
    /// degenerate clustering score.
    InvalidInput,
    /// The blocks are too large to leave a grid of more than 2x2 cells.
    PixelSizeTooLarge,
}

/// The grid that `calc_target_size` gives for a `width` by `height` source
/// and blocks of `pixel_size` pixels a side.
pub open spec fn target_size_spec(width: int, height: int, pixel_size: int) -> Result<
    TargetGrid,
    PixelError,
> {
    if pixel_size == 0 || width == 0 || height == 0 {
        Err(PixelError::InvalidInput)
    } else if width <= 2 * pixel_size || height <= 2 * pixel_size {
        Err(PixelError::PixelSizeTooLarge)
    } else {
        Ok(TargetGrid { width: (width / pixel_size) as usize, height: (height / pixel_size) as usize })
    }
}

/// Sizes the coarse grid for blocks of `pixel_size` pixels a side:
/// `floor(width / pixel_size)` by `floor(height / pixel_size)`. Fails with
/// `PixelSizeTooLarge` unless both sides exceed twice the block size, and with
/// `InvalidInput` on an empty image or a zero block size.
pub fn calc_target_size(image: &Image, pixel_size: usize) -> (r: Result<TargetGrid, PixelError>)
    ensures
        r == target_size_spec(image.width as int, image.height as int, pixel_size as int),
{
    if pixel_size == 0 || image.width == 0 || image.height == 0 {
        return Err(PixelError::InvalidInput);
    }
    if pixel_size > usize::MAX / 2 {
        return Err(PixelError::PixelSizeTooLarge);
    }
    if image.width <= 2 * pixel_size || image.height <= 2 * pixel_size {
        return Err(PixelError::PixelSizeTooLarge);
    }
    Ok(TargetGrid { width: image.width / pixel_size, height: image.height / pixel_size })
}

/// Channel `c` summed over the `n` pixels `(x0, y) .. (x0 + n - 1, y)`.
pub open spec fn line_sum(img: Image, x0: int, y: int, n: nat, c: int) -> int
    decreases n,
{
    if n == 0 {
        0
    } else {
        line_sum(img, x0, y, (n - 1) as nat, c) + channel(img.pixel(x0 + n - 1, y), c)
    }
}

/// Channel `c` summed over the `side`-wide, `rows`-high block whose top-left
/// pixel is `(x0, y0)`.
pub open spec fn block_sum(img: Image, x0: int, y0: int, side: nat, rows: nat, c: int) -> int
    decreases rows,
{
    if rows == 0 {
        0
    } else {
        block_sum(img, x0, y0, side, (rows - 1) as nat, c) + line_sum(
            img,
            x0,
            y0 + rows - 1,
            side,
            c,
        )
    }
}

/// The mean colour, each channel truncated, of grid cell `(gx, gy)`: the
/// `pixel_size`-square block whose top-left pixel is
/// `(gx * pixel_size, gy * pixel_size)`.
pub open spec fn block_mean(img: Image, pixel_size: nat, gx: int, gy: int) -> Rgb {
    let n: int = (pixel_size * pixel_size) as int;
    let x0 = gx * pixel_size;
    let y0 = gy * pixel_size;
    Rgb {
        r: (block_sum(img, x0, y0, pixel_size, pixel_size, 0) / n) as u8,
        g: (block_sum(img, x0, y0, pixel_size, pixel_size, 1) / n) as u8,
        b: (block_sum(img, x0, y0, pixel_size, pixel_size, 2) / n) as u8,
    }
}

/// The mean colour of the block that begins at `(x0, y0)`.
fn average_block(img: &Image, pixel_size: usize, x0: usize, y0: usize) -> (r: Rgb)
    requires
        img.wf(),
        pixel_size > 0,
        x0 + pixel_size <= img.width,
        y0 + pixel_size <= img.height,
    ensures
        r.r == block_sum(*img, x0 as int, y0 as int, pixel_size as nat, pixel_size as nat, 0) / (
        pixel_size * pixel_size),
        r.g == block_sum(*img, x0 as int, y0 as int, pixel_size as nat, pixel_size as nat, 1) / (
        pixel_size * pixel_size),
        r.b == block_sum(*img, x0 as int, y0 as int, pixel_size as nat, pixel_size as nat, 2) / (
        pixel_size * pixel_size),
{
    let ghost side = pixel_size as nat;
    let _len = img.data.len();
    assert(img.width * img.height <= 0x1_0000_0000_0000_0000);
    let mut sr: u128 = 0;
    let mut sg: u128 = 0;
    let mut sb: u128 = 0;
    let mut l: usize = 0;
    while l < pixel_size
        invariant
            img.wf(),
            pixel_size > 0,
            x0 + pixel_size <= img.width,
            y0 + pixel_size <= img.height,
            l <= pixel_size,
            side == pixel_size,
            img.width * img.height <= 0x1_0000_0000_0000_0000,
            sr == block_sum(*img, x0 as int, y0 as int, side, l as nat, 0),
            sg == block_sum(*img, x0 as int, y0 as int, side, l as nat, 1),
            sb == block_sum(*img, x0 as int, y0 as int, side, l as nat, 2),
            sr <= 255 * side * l,
            sg <= 255 * side * l,
            sb <= 255 * side * l,
        decreases pixel_size - l,
    {
        let y = y0 + l;
        let mut lr: u128 = 0;
        let mut lg: u128 = 0;
        let mut lb: u128 = 0;
        let mut k: usize = 0;
        while k < pixel_size
            invariant
                img.wf(),
                x0 + pixel_size <= img.width,
                y < img.height,
                l < pixel_size,
                side == pixel_size,
                k <= pixel_size,
                lr == line_sum(*img, x0 as int, y as int, k as nat, 0),
                lg == line_sum(*img, x0 as int, y as int, k as nat, 1),
                lb == line_sum(*img, x0 as int, y as int, k as nat, 2),
                lr <= 255 * k,
                lg <= 255 * k,
                lb <= 255 * k,
            decreases pixel_size - k,
        {
            let p = crate::image::get_pixel(img, x0 + k, y);
            lr = lr + p.r as u128;
            lg = lg + p.g as u128;
            lb = lb + p.b as u128;
            k = k + 1;
        }
        assert(255 * side * l + 255 * side == 255 * side * (l + 1)) by (nonlinear_arith);
        assert(255 * side * (l + 1) <= 255 * 0x1_0000_0000_0000_0000) by (nonlinear_arith)
            requires
                l + 1 <= side,
                side <= img.width,
                side <= img.height,
                img.width * img.height <= 0x1_0000_0000_0000_0000,
        ;
        sr = sr + lr;
        sg = sg + lg;
        sb = sb + lb;
        l = l + 1;
    }
    assert(pixel_size as int * pixel_size as int <= u128::MAX) by (nonlinear_arith)
        requires
            pixel_size <= 0xffff_ffff_ffff_ffff,
    ;
    let n: u128 = pixel_size as u128 * pixel_size as u128;
    assert(n > 0) by (nonlinear_arith)
        requires
            n == pixel_size * pixel_size,
            pixel_size > 0,
    ;
    assert(sr / n <= 255 && sg / n <= 255 && sb / n <= 255) by (nonlinear_arith)
        requires
            n == side * side,
            side > 0,
            sr <= 255 * side * side,
            sg <= 255 * side * side,
            sb <= 255 * side * side,
    ;
    Rgb { r: (sr / n) as u8, g: (sg / n) as u8, b: (sb / n) as u8 }
}

/// Shrinks `image` to `grid`: cell `(gx, gy)` of the result is the mean
/// colour, each channel truncated, of the `pixel_size`-square source block at
/// `(gx * pixel_size, gy * pixel_size)`. Source pixels past the last whole
/// block are left out.
pub fn downsample(image: &Image, pixel_size: usize, grid: TargetGrid) -> (r: Image)
    requires
        image.wf(),
        pixel_size > 0,
        grid.width * pixel_size <= image.width,
        grid.height * pixel_size <= image.height,
    ensures
        r.wf(),
        r.width == grid.width,
        r.height == grid.height,
        forall|x: int, y: int|
            0 <= x < grid.width && 0 <= y < grid.height ==> #[trigger] r.pixel(x, y)
                == block_mean(*image, pixel_size as nat, x, y),
{
    let gw = grid.width;
    let gh = grid.height;
    let _len = image.data.len();
    assert(gw * gh <= image.width * image.height) by (nonlinear_arith)
        requires
            gw * pixel_size <= image.width,
            gh * pixel_size <= image.height,
            pixel_size > 0,
    ;
    let n = gw * gh;
    let mut data: Vec<u8> = Vec::new();
    let mut k: usize = 0;
    while k < n
        invariant
            image.wf(),
            pixel_size > 0,
            gw * pixel_size <= image.width,
            gh * pixel_size <= image.height,
            n == gw * gh,
            k <= n,
            data@.len() == 3 * k,
            forall|kk: int|
                0 <= kk < k ==> #[trigger] rgb_at(data@, kk) == block_mean(
                    *image,
                    pixel_size as nat,
                    kk % (gw as int),
                    kk / (gw as int),
                ),
        decreases n - k,
    {
        assert(gw > 0) by (nonlinear_arith)
            requires
                k < n,
                n == gw * gh,
        ;
        let gx = k % gw;
        let gy = k / gw;
        assert(gy < gh) by (nonlinear_arith)
            requires
                k < gw * gh,
                gy == k / gw,
                gw > 0,
        ;
        assert(gx * pixel_size + pixel_size <= image.width && gy * pixel_size + pixel_size
            <= image.height) by (nonlinear_arith)
            requires
                gx < gw,
                gy < gh,
                gw * pixel_size <= image.width,
                gh * pixel_size <= image.height,
        ;
        let p = average_block(image, pixel_size, gx * pixel_size, gy * pixel_size);
        assert(p == block_mean(*image, pixel_size as nat, gx as int, gy as int));
        let ghost before = data@;
        data.push(p.r);
        data.push(p.g);
        data.push(p.b);
        assert(rgb_at(data@, k as int) == p);
        assert forall|kk: int| 0 <= kk < k implies #[trigger] rgb_at(data@, kk) == rgb_at(before, kk) by {}
        k = k + 1;
    }
    let r = Image { width: gw, height: gh, data };
    assert forall|x: int, y: int| 0 <= x < gw && 0 <= y < gh implies #[trigger] r.pixel(x, y)
        == block_mean(*image, pixel_size as nat, x, y) by {
        lemma_cell(x, y, gw as int, gh as int);
        assert(rgb_at(r.data@, y * gw + x) == block_mean(
            *image,
            pixel_size as nat,
            (y * gw + x) % (gw as int),
            (y * gw + x) / (gw as int),
        ));
    }
    r
}

} // verus!
