use crate::image::{Image, Rgb, rgb_at};
use palette::{FromColor, IntoColor};
use vstd::prelude::*;

verus! {

/// A colour in CIE L*a*b* under the D65 white point, as palette holds it.
/// Verus sees no further than the name: what the library knows of a value
/// comes from the functions below that make or read one.
#[verifier::external_body]
pub struct LabColor(pub palette::Lab);

/// The CIE L*a*b* colour (D65 white point) of an sRGB colour.
pub uninterp spec fn lab_of(p: Rgb) -> LabColor;

/// The sRGB colour of a L*a*b* colour, each channel saturated to `0..=255`.
pub uninterp spec fn rgb_of(c: LabColor) -> Rgb;

/// A key that orders pairs of L*a*b* colours by their squared Euclidean
/// distance `(dL)^2 + (da)^2 + (db)^2`.
pub uninterp spec fn lab_distance(a: LabColor, b: LabColor) -> u32;

/// Relies on palette's `Srgb::into_format` and `IntoColor`: the 8-bit sRGB
/// colour is linearised and converted to L*a*b* under D65.
#[verifier::external_body]
pub(crate) fn rgb_to_lab(p: Rgb) -> (r: LabColor)
    ensures
        r == lab_of(p),
{
    LabColor(palette::Srgb::new(p.r, p.g, p.b).into_format().into_color())
}

/// Relies on palette's `FromColor` and `Srgb::into_format`: the L*a*b* colour
/// is converted to sRGB, re-encoded, and each channel scaled, rounded and
/// clamped to a byte.
#[verifier::external_body]
pub(crate) fn lab_to_rgb(c: &LabColor) -> (r: Rgb)
    ensures
        r == rgb_of(*c),
{
    let s: palette::Srgb<u8> = palette::Srgb::from_color(c.0).into_format();
    Rgb { r: s.red, g: s.green, b: s.blue }
}

/// Relies on kmeans_colors' `Calculate::difference` for `Lab`, which returns
/// `(dL)^2 + (da)^2 + (db)^2` without the square root. The value is handed
/// back as the bit pattern of the IEEE-754 single; for the non-negative
/// values that a sum of squares takes, the bit patterns order as the values.
#[verifier::external_body]
pub(crate) fn lab_distance_key(a: &LabColor, b: &LabColor) -> (r: u32)
    ensures
        r == lab_distance(*a, *b),
{
    <palette::Lab as kmeans_colors::Calculate>::difference(&a.0, &b.0).to_bits()
}

/// Every pixel of `image` in L*a*b*, in row-major order.
pub fn image_to_lab(image: &Image) -> (r: Vec<LabColor>)
    requires
        image.wf(),
    ensures
        r@.len() == image.width * image.height,
        forall|k: int| 0 <= k < r@.len() ==> #[trigger] r@[k] == lab_of(image.at(k)),
{
    let _len = image.data.len();
    let n = image.width * image.height;
    let mut out: Vec<LabColor> = Vec::new();
    let mut k: usize = 0;
    while k < n
        invariant
            image.wf(),
            n == image.width * image.height,
            3 * n <= usize::MAX,
            k <= n,
            out@.len() == k,
            forall|kk: int| 0 <= kk < k ==> #[trigger] out@[kk] == lab_of(image.at(kk)),
        decreases n - k,
    {
        let p = Rgb { r: image.data[3 * k], g: image.data[3 * k + 1], b: image.data[3 * k + 2] };
        assert(p == rgb_at(image.data@, k as int));
        out.push(rgb_to_lab(p));
        k = k + 1;
    }
    out
}

/// Each L*a*b* colour of `colors` in sRGB, in the same order.
pub fn lab_to_palette(colors: &Vec<LabColor>) -> (r: Vec<Rgb>)
    ensures
        r@.len() == colors@.len(),
        forall|i: int| 0 <= i < r@.len() ==> #[trigger] r@[i] == rgb_of(colors@[i]),
{
    let mut out: Vec<Rgb> = Vec::new();
    let mut i: usize = 0;
    while i < colors.len()
        invariant
            i <= colors@.len(),
            out@.len() == i,
            forall|j: int| 0 <= j < i ==> #[trigger] out@[j] == rgb_of(colors@[j]),
        decreases colors@.len() - i,
    {
        out.push(lab_to_rgb(&colors[i]));
        i = i + 1;
    }
    out
}

} // verus!
