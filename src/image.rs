use vstd::arithmetic::div_mod::lemma_fundamental_div_mod_converse;
use vstd::prelude::*;

verus! {

/// One 8-bit RGB colour.
#[derive(Clone, Copy, Debug, PartialEq, Eq, Structural)]
pub struct Rgb {
    pub r: u8,
    pub g: u8,
    pub b: u8,
}

/// A raster of RGB8 pixels, row-major, origin top-left: pixel `(x, y)`
/// occupies bytes `3 * (y * width + x) ..= 3 * (y * width + x) + 2`.
#[derive(Clone, Debug)]
pub struct Image {
    pub width: usize,
    pub height: usize,
    pub data: Vec<u8>,
}

/// Channel `c` (0 red, 1 green, 2 blue) of a colour.
pub open spec fn channel(p: Rgb, c: int) -> int {
    if c == 0 {
        p.r as int
    } else if c == 1 {
        p.g as int
    } else {
        p.b as int
    }
}

/// The colour held by bytes `3 * k ..= 3 * k + 2` of a row-major RGB8 buffer.
pub open spec fn rgb_at(data: Seq<u8>, k: int) -> Rgb {
    Rgb { r: data[3 * k], g: data[3 * k + 1], b: data[3 * k + 2] }
}

/// Where `(x, y)` and `y * w + x` sit in a `w` by `h` raster.
pub proof fn lemma_cell(x: int, y: int, w: int, h: int)
    requires
        0 <= x < w,
        0 <= y < h,
    ensures
        0 <= y * w + x < w * h,
        (y * w + x) % w == x,
        (y * w + x) / w == y,
        3 * (y * w + x) + 2 < 3 * (w * h),
{
    assert(0 <= y * w + x < w * h) by (nonlinear_arith)
        requires
            0 <= x < w,
            0 <= y < h,
    ;
    lemma_fundamental_div_mod_converse(y * w + x, w, y, x);
}

impl Image {
    /// The buffer holds exactly three bytes per pixel.
    pub open spec fn wf(&self) -> bool {
        self.data@.len() == 3 * (self.width * self.height)
    }

    /// The colour stored at flat index `k` (`k = y * width + x`).
    pub open spec fn at(&self, k: int) -> Rgb {
        rgb_at(self.data@, k)
    }

    /// The colour of pixel `(x, y)`.
    pub open spec fn pixel(&self, x: int, y: int) -> Rgb {
        self.at(y * self.width + x)
    }

    /// An image of the given size over a row-major RGB8 buffer; `None` when
    /// the buffer does not hold exactly three bytes per pixel.
    pub fn from_raw(width: usize, height: usize, data: Vec<u8>) -> (r: Option<Image>)
        ensures
            r is Some <==> data@.len() == 3 * (width * height),
            r matches Some(img) ==> img.wf() && img.width == width && img.height == height
                && img.data@ == data@,
    {
        let len_given = data.len();
        match width.checked_mul(height) {
            Some(n) => match n.checked_mul(3) {
                Some(len) => {
                    if len_given == len {
                        Some(Image { width, height, data })
                    } else {
                        None
                    }
                },
                None => None,
            },
            None => None,
        }
    }
}

/// The colour of pixel `(x, y)`.
pub fn get_pixel(image: &Image, x: usize, y: usize) -> (r: Rgb)
    requires
        image.wf(),
        x < image.width,
        y < image.height,
    ensures
        r == image.pixel(x as int, y as int),
{
    let _len = image.data.len();
    proof {
        lemma_cell(x as int, y as int, image.width as int, image.height as int);
    }
    let k = 3 * (y * image.width + x);
    Rgb { r: image.data[k], g: image.data[k + 1], b: image.data[k + 2] }
}

} // verus!
