use crate::color::{lab_distance, lab_distance_key, lab_of, lab_to_rgb, rgb_of, rgb_to_lab, LabColor};
use crate::downsample::{block_mean, downsample, TargetGrid};
use crate::image::{lemma_cell, rgb_at, Image, Rgb};
use vstd::prelude::*;

verus! {

/// `i` indexes an entry of `colors` at the least distance from `p`, and no
/// earlier entry is as near.
pub open spec fn is_nearest(p: LabColor, colors: Seq<LabColor>, i: int) -> bool {
    &&& 0 <= i < colors.len()
    &&& forall|j: int|
        0 <= j < colors.len() ==> lab_distance(p, colors[i]) <= lab_distance(p, #[trigger] colors[j])
    &&& forall|j: int| 0 <= j < i ==> lab_distance(p, colors[i]) < lab_distance(p, #[trigger] colors[j])
}

/// The first entry of `colors` nearest to `p`.
pub open spec fn nearest_index(p: LabColor, colors: Seq<LabColor>) -> int {
    choose|i: int| is_nearest(p, colors, i)
}

/// What an sRGB colour becomes against the palette `colors`: the palette
/// entry nearest to it in L*a*b*, ties going to the earlier entry, in sRGB.
pub open spec fn quantized(p: Rgb, colors: Seq<LabColor>) -> Rgb {
    rgb_of(colors[nearest_index(lab_of(p), colors)])
}

/// At most one index is the first nearest one.
pub proof fn lemma_nearest_unique(p: LabColor, colors: Seq<LabColor>, i: int)
    requires
        is_nearest(p, colors, i),
    ensures
        nearest_index(p, colors) == i,
{
    let c = nearest_index(p, colors);
    assert(is_nearest(p, colors, c));
    assert(lab_distance(p, colors[c]) <= lab_distance(p, colors[i]));
    assert(lab_distance(p, colors[i]) <= lab_distance(p, colors[c]));
}

/// The first index of `colors` nearest to `p`, by a linear scan.
fn nearest(p: &LabColor, colors: &Vec<LabColor>) -> (r: usize)
    requires
        colors@.len() > 0,
    ensures
        is_nearest(*p, colors@, r as int),
{
    let mut best: usize = 0;
    let mut best_key = lab_distance_key(p, &colors[0]);
    let mut j: usize = 1;
    while j < colors.len()
        invariant
            1 <= j <= colors@.len(),
            best < j,
            best_key == lab_distance(*p, colors@[best as int]),
            forall|jj: int| 0 <= jj < j ==> best_key <= lab_distance(*p, #[trigger] colors@[jj]),
            forall|jj: int| 0 <= jj < best ==> best_key < lab_distance(*p, #[trigger] colors@[jj]),
        decreases colors@.len() - j,
    {
        let key = lab_distance_key(p, &colors[j]);
        if key < best_key {
            best = j;
            best_key = key;
        }
        j = j + 1;
    }
    best
}

/// Maps `pixel` to the palette: the entry of `colors` nearest to it in
/// L*a*b* by squared Euclidean distance (the earlier entry on a tie),
/// converted back to sRGB.
pub fn choose_closest_color(pixel: Rgb, colors: &Vec<LabColor>) -> (r: Rgb)
    requires
        colors@.len() > 0,
    ensures
        r == quantized(pixel, colors@),
{
    let lab = rgb_to_lab(pixel);
    let i = nearest(&lab, colors);
    proof {
        lemma_nearest_unique(lab, colors@, i as int);
    }
    lab_to_rgb(&colors[i])
}

/// Renders `image` as pixel art on `size`: each cell is the mean colour of
/// its `pixel_size`-square source block, mapped to the nearest entry of the
/// palette `colors`.
pub fn generate_image(image: &Image, pixel_size: usize, size: TargetGrid, colors: &Vec<LabColor>) -> (r:
    Image)
    requires
        image.wf(),
        pixel_size > 0,
        size.width * pixel_size <= image.width,
        size.height * pixel_size <= image.height,
        colors@.len() > 0,
    ensures
        r.wf(),
        r.width == size.width,
        r.height == size.height,
        forall|x: int, y: int|
            0 <= x < size.width && 0 <= y < size.height ==> #[trigger] r.pixel(x, y) == quantized(
                block_mean(*image, pixel_size as nat, x, y),
                colors@,
            ),
{
    let blocks = downsample(image, pixel_size, size);
    let w = blocks.width;
    let h = blocks.height;
    let _len = blocks.data.len();
    let n = w * h;
    let mut data: Vec<u8> = Vec::new();
    let mut k: usize = 0;
    while k < n
        invariant
            blocks.wf(),
            w == blocks.width,
            h == blocks.height,
            n == w * h,
            3 * n <= usize::MAX,
            colors@.len() > 0,
            k <= n,
            data@.len() == 3 * k,
            forall|kk: int|
                0 <= kk < k ==> #[trigger] rgb_at(data@, kk) == quantized(blocks.at(kk), colors@),
        decreases n - k,
    {
        let p = Rgb { r: blocks.data[3 * k], g: blocks.data[3 * k + 1], b: blocks.data[3 * k + 2] };
        assert(p == blocks.at(k as int));
        let q = choose_closest_color(p, colors);
        let ghost before = data@;
        data.push(q.r);
        data.push(q.g);
        data.push(q.b);
        assert(rgb_at(data@, k as int) == q);
        assert forall|kk: int| 0 <= kk < k implies #[trigger] rgb_at(data@, kk) == rgb_at(before, kk) by {}
        k = k + 1;
    }
    let r = Image { width: w, height: h, data };
    assert forall|x: int, y: int| 0 <= x < w && 0 <= y < h implies #[trigger] r.pixel(x, y)
        == quantized(block_mean(*image, pixel_size as nat, x, y), colors@) by {
        lemma_cell(x, y, w as int, h as int);
        assert(blocks.pixel(x, y) == block_mean(*image, pixel_size as nat, x, y));
    }
    r
}

} // verus!
