use pixelite::color::{image_to_lab, lab_to_palette, LabColor};
use pixelite::downsample::TargetGrid;
use pixelite::image::{get_pixel, Image, Rgb};
use pixelite::quantize::{choose_closest_color, generate_image};

fn labs(colors: &[Rgb]) -> Vec<LabColor> {
    let mut data = Vec::new();
    for c in colors {
        data.push(c.r);
        data.push(c.g);
        data.push(c.b);
    }
    let img = Image::from_raw(colors.len(), 1, data).unwrap();
    image_to_lab(&img)
}

const BLACK: Rgb = Rgb { r: 0, g: 0, b: 0 };
const WHITE: Rgb = Rgb { r: 255, g: 255, b: 255 };

#[test]
fn dark_grey_quantizes_to_black() {
    let palette = labs(&[BLACK, WHITE]);
    assert_eq!(choose_closest_color(Rgb { r: 10, g: 10, b: 10 }, &palette), BLACK);
}

#[test]
fn light_grey_quantizes_to_white() {
    let palette = labs(&[BLACK, WHITE]);
    assert_eq!(choose_closest_color(Rgb { r: 250, g: 250, b: 250 }, &palette), WHITE);
}

#[test]
fn palette_order_does_not_change_nearest() {
    let palette = labs(&[WHITE, BLACK]);
    assert_eq!(choose_closest_color(Rgb { r: 10, g: 10, b: 10 }, &palette), BLACK);
    assert_eq!(choose_closest_color(Rgb { r: 250, g: 250, b: 250 }, &palette), WHITE);
}

#[test]
fn tie_goes_to_first_entry() {
    let red = Rgb { r: 255, g: 0, b: 0 };
    let palette = labs(&[red, red, BLACK]);
    // Both red entries are equally near; either gives red, and a single-entry
    // palette maps everything to that entry.
    assert_eq!(choose_closest_color(Rgb { r: 200, g: 10, b: 10 }, &palette), red);
    let single = labs(&[Rgb { r: 0, g: 128, b: 0 }]);
    assert_eq!(choose_closest_color(WHITE, &single), Rgb { r: 0, g: 128, b: 0 });
}

#[test]
fn nearest_is_chosen_in_lab_not_by_first_entry() {
    let red = Rgb { r: 255, g: 0, b: 0 };
    let blue = Rgb { r: 0, g: 0, b: 255 };
    let palette = labs(&[red, BLACK, blue]);
    assert_eq!(choose_closest_color(Rgb { r: 10, g: 20, b: 240 }, &palette), blue);
    assert_eq!(choose_closest_color(Rgb { r: 20, g: 20, b: 20 }, &palette), BLACK);
}

#[test]
fn lab_conversion_is_not_identity() {
    let l = labs(&[WHITE]);
    let v = l[0].0;
    assert!((v.l - 100.0).abs() < 0.01);
    assert!(v.a.abs() < 0.01);
    assert!(v.b.abs() < 0.01);
    let l = labs(&[Rgb { r: 255, g: 0, b: 0 }]);
    assert!(l[0].0.a > 70.0);
}

#[test]
fn round_trip_within_one() {
    let mut colors = Vec::new();
    for r in (0..=255u32).step_by(5) {
        for g in (0..=255u32).step_by(5) {
            for b in (0..=255u32).step_by(5) {
                colors.push(Rgb { r: r as u8, g: g as u8, b: b as u8 });
            }
        }
    }
    colors.push(Rgb { r: 1, g: 254, b: 128 });
    let back = lab_to_palette(&labs(&colors));
    assert_eq!(back.len(), colors.len());
    for (c, d) in colors.iter().zip(back.iter()) {
        assert!((c.r as i32 - d.r as i32).abs() <= 1, "{:?} -> {:?}", c, d);
        assert!((c.g as i32 - d.g as i32).abs() <= 1, "{:?} -> {:?}", c, d);
        assert!((c.b as i32 - d.b as i32).abs() <= 1, "{:?} -> {:?}", c, d);
    }
}

#[test]
fn image_to_lab_keeps_pixel_order() {
    let img = Image::from_raw(2, 1, vec![0, 0, 0, 255, 255, 255]).unwrap();
    let l = image_to_lab(&img);
    assert_eq!(l.len(), 2);
    assert!(l[0].0.l < 0.01);
    assert!(l[1].0.l > 99.9);
}

#[test]
fn generate_image_maps_blocks_to_palette() {
    // 4x2 image: left 2x2 block dark, right 2x2 block light.
    let data = vec![
        5, 5, 5, 20, 20, 20, 240, 240, 240, 250, 250, 250, //
        10, 10, 10, 0, 0, 0, 255, 255, 255, 230, 230, 230,
    ];
    let img = Image::from_raw(4, 2, data).unwrap();
    let palette = labs(&[BLACK, WHITE]);
    let out = generate_image(&img, 2, TargetGrid { width: 2, height: 1 }, &palette);
    assert_eq!(out.width, 2);
    assert_eq!(out.height, 1);
    assert_eq!(get_pixel(&out, 0, 0), BLACK);
    assert_eq!(get_pixel(&out, 1, 0), WHITE);
}

#[test]
fn generate_image_uses_block_mean() {
    // One 2x2 block whose mean (127) is nearer mid grey than either extreme.
    let data = vec![0, 0, 0, 255, 255, 255, 255, 255, 255, 0, 0, 0];
    let img = Image::from_raw(2, 2, data).unwrap();
    let grey = Rgb { r: 128, g: 128, b: 128 };
    let palette = labs(&[BLACK, WHITE, grey]);
    let out = generate_image(&img, 2, TargetGrid { width: 1, height: 1 }, &palette);
    assert_eq!(get_pixel(&out, 0, 0), grey);
}
