use pixelite::downsample::{calc_target_size, downsample, PixelError, TargetGrid};
use pixelite::image::{get_pixel, Image, Rgb};

fn solid(width: usize, height: usize, c: Rgb) -> Image {
    let mut data = Vec::new();
    for _ in 0..width * height {
        data.push(c.r);
        data.push(c.g);
        data.push(c.b);
    }
    Image::from_raw(width, height, data).unwrap()
}

fn gradient(width: usize, height: usize) -> Image {
    let mut data = Vec::new();
    for y in 0..height {
        for x in 0..width {
            data.push((x * 10 + y) as u8);
            data.push((y * 10 + x) as u8);
            data.push((x * y) as u8);
        }
    }
    Image::from_raw(width, height, data).unwrap()
}

#[test]
fn target_size_of_hundred_square_with_ten() {
    let img = solid(100, 100, Rgb { r: 1, g: 2, b: 3 });
    assert_eq!(calc_target_size(&img, 10), Ok(TargetGrid { width: 10, height: 10 }));
}

#[test]
fn target_size_rejects_sixty() {
    let img = solid(100, 100, Rgb { r: 1, g: 2, b: 3 });
    assert_eq!(calc_target_size(&img, 60), Err(PixelError::PixelSizeTooLarge));
}

#[test]
fn target_size_rejects_fifty_one() {
    let img = solid(100, 100, Rgb { r: 1, g: 2, b: 3 });
    assert_eq!(calc_target_size(&img, 51), Err(PixelError::PixelSizeTooLarge));
}

#[test]
fn target_size_at_the_boundary() {
    let img = solid(100, 100, Rgb { r: 0, g: 0, b: 0 });
    assert_eq!(calc_target_size(&img, 50), Err(PixelError::PixelSizeTooLarge));
    assert_eq!(calc_target_size(&img, 49), Ok(TargetGrid { width: 2, height: 2 }));
}

#[test]
fn target_size_floors_each_side() {
    let img = solid(105, 47, Rgb { r: 0, g: 0, b: 0 });
    assert_eq!(calc_target_size(&img, 7), Ok(TargetGrid { width: 15, height: 6 }));
}

#[test]
fn target_size_checks_height_too() {
    let img = solid(200, 20, Rgb { r: 0, g: 0, b: 0 });
    assert_eq!(calc_target_size(&img, 10), Err(PixelError::PixelSizeTooLarge));
}

#[test]
fn target_size_rejects_zero_block_and_empty_image() {
    let img = solid(100, 100, Rgb { r: 0, g: 0, b: 0 });
    assert_eq!(calc_target_size(&img, 0), Err(PixelError::InvalidInput));
    let empty = Image::from_raw(0, 10, Vec::new()).unwrap();
    assert_eq!(calc_target_size(&empty, 1), Err(PixelError::InvalidInput));
}

#[test]
fn from_raw_checks_length() {
    assert!(Image::from_raw(2, 2, vec![0; 12]).is_some());
    assert!(Image::from_raw(2, 2, vec![0; 11]).is_none());
    assert!(Image::from_raw(2, 2, vec![0; 13]).is_none());
    assert!(Image::from_raw(usize::MAX, 2, Vec::new()).is_none());
}

#[test]
fn get_pixel_reads_row_major() {
    let img = gradient(4, 3);
    assert_eq!(get_pixel(&img, 0, 0), Rgb { r: 0, g: 0, b: 0 });
    assert_eq!(get_pixel(&img, 3, 1), Rgb { r: 31, g: 13, b: 3 });
    assert_eq!(get_pixel(&img, 2, 2), Rgb { r: 22, g: 22, b: 4 });
}

#[test]
fn downsample_averages_blocks() {
    // 4x2 image: left block all (10, 20, 30), right block mixed.
    let data = vec![
        10, 20, 30, 10, 20, 30, 0, 0, 0, 255, 255, 255, //
        10, 20, 30, 10, 20, 30, 100, 50, 0, 1, 2, 3,
    ];
    let img = Image::from_raw(4, 2, data).unwrap();
    let out = downsample(&img, 2, TargetGrid { width: 2, height: 1 });
    assert_eq!(out.width, 2);
    assert_eq!(out.height, 1);
    assert_eq!(get_pixel(&out, 0, 0), Rgb { r: 10, g: 20, b: 30 });
    // (0 + 255 + 100 + 1) / 4 = 89, (0 + 255 + 50 + 2) / 4 = 76, (0 + 255 + 0 + 3) / 4 = 64
    assert_eq!(get_pixel(&out, 1, 0), Rgb { r: 89, g: 76, b: 64 });
}

#[test]
fn downsample_truncates() {
    let data = vec![1, 0, 0, 2, 0, 0, 2, 0, 0, 2, 0, 0];
    let img = Image::from_raw(2, 2, data).unwrap();
    let out = downsample(&img, 2, TargetGrid { width: 1, height: 1 });
    // 7 / 4 = 1.75 truncates to 1
    assert_eq!(get_pixel(&out, 0, 0), Rgb { r: 1, g: 0, b: 0 });
}

#[test]
fn downsample_ignores_remainder() {
    let mut img = solid(5, 5, Rgb { r: 40, g: 40, b: 40 });
    // Paint the last row and column white: they lie past the whole blocks.
    for i in 0..5 {
        for c in 0..3 {
            img.data[3 * (4 * 5 + i) + c] = 255;
            img.data[3 * (i * 5 + 4) + c] = 255;
        }
    }
    let out = downsample(&img, 2, TargetGrid { width: 2, height: 2 });
    for y in 0..2 {
        for x in 0..2 {
            assert_eq!(get_pixel(&out, x, y), Rgb { r: 40, g: 40, b: 40 });
        }
    }
}

#[test]
fn downsample_cell_order() {
    let img = gradient(6, 4);
    let out = downsample(&img, 2, TargetGrid { width: 3, height: 2 });
    // Cell (2, 1) covers x 4..6, y 2..4.
    let mut sum = [0usize; 3];
    for y in 2..4 {
        for x in 4..6 {
            let p = get_pixel(&img, x, y);
            sum[0] += p.r as usize;
            sum[1] += p.g as usize;
            sum[2] += p.b as usize;
        }
    }
    let want = Rgb { r: (sum[0] / 4) as u8, g: (sum[1] / 4) as u8, b: (sum[2] / 4) as u8 };
    assert_eq!(get_pixel(&out, 2, 1), want);
    assert_eq!(want, Rgb { r: 47, g: 29, b: 11 });
}
