use pathtracer::camera::Camera;
use pathtracer::color::{linear_to_gamma, quantize, write_color, Color, OutputImage, LEVELS_PER_UNIT};
use pathtracer::vec3::Vec3;

#[test]
fn black_is_zero_and_white_is_255() {
    assert_eq!(quantize(0), 0);
    assert_eq!(quantize(LEVELS_PER_UNIT), 255);
}

#[test]
fn quantize_is_the_square_root_on_the_scale_of_256() {
    // A quarter of the unit has the root one half, which is 128 of 256.
    assert_eq!(quantize(LEVELS_PER_UNIT / 4), 128);
    assert_eq!(quantize(LEVELS_PER_UNIT / 16), 64);
    assert_eq!(quantize(1), 1);
    assert_eq!(quantize(3), 1);
    assert_eq!(quantize(4), 2);
    assert_eq!(quantize(8), 2);
    assert_eq!(quantize(9), 3);
    assert_eq!(quantize(100 * 100 - 1), 99);
    assert_eq!(quantize(100 * 100), 100);
}

#[test]
fn quantize_holds_the_root_below_256() {
    assert_eq!(quantize(254 * 254), 254);
    assert_eq!(quantize(255 * 255 - 1), 254);
    assert_eq!(quantize(255 * 255), 255);
    assert_eq!(quantize(256 * 256 - 1), 255);
    assert_eq!(quantize(256 * 256 + 1), 255);
    assert_eq!(quantize(1 << 40), 255);
    assert_eq!(quantize(i64::MAX), 255);
}

#[test]
fn quantize_takes_what_is_below_black_for_black() {
    assert_eq!(quantize(-1), 0);
    assert_eq!(quantize(i64::MIN), 0);
}

#[test]
fn quantize_never_falls_as_the_intensity_rises() {
    let mut last = 0u8;
    for level in 0..70000i64 {
        let byte = quantize(level);
        assert!(byte >= last);
        assert!((byte as i64) * (byte as i64) <= level);
        last = byte;
    }
    assert_eq!(last, 255);
}

#[test]
fn linear_to_gamma_is_the_root() {
    assert_eq!(linear_to_gamma(0), 0);
    assert_eq!(linear_to_gamma(-7), 0);
    assert_eq!(linear_to_gamma(1), 1);
    assert_eq!(linear_to_gamma(LEVELS_PER_UNIT), 256);
    assert_eq!(linear_to_gamma(4 * LEVELS_PER_UNIT), 512);
    assert_eq!(linear_to_gamma(i64::MAX), 3037000499);
}

#[test]
fn a_new_image_is_black() {
    let img = OutputImage::new(3, 2).unwrap();
    assert_eq!(img.width(), 3);
    assert_eq!(img.height(), 2);
    assert_eq!(img.into_raw(), vec![0u8; 18]);
}

#[test]
fn an_image_without_pixels_has_no_bytes() {
    assert_eq!(OutputImage::new(0, 5).unwrap().into_raw(), Vec::<u8>::new());
    assert_eq!(OutputImage::new(5, 0).unwrap().width(), 5);
}

#[test]
fn an_image_beyond_memory_is_refused() {
    assert!(OutputImage::new(u32::MAX, u32::MAX).is_none());
}

#[test]
fn write_color_sets_the_three_bytes_of_its_pixel() {
    let mut img = OutputImage::new(3, 2).unwrap();
    let color: Color = Vec3::new(LEVELS_PER_UNIT, LEVELS_PER_UNIT / 4, 0);
    write_color(1, 0, &color, &mut img);
    write_color(2, 1, &Vec3::new(100, -3, 1 << 50), &mut img);
    assert_eq!(img.width(), 3);
    assert_eq!(img.height(), 2);
    assert_eq!(
        img.into_raw(),
        vec![0, 0, 0, 255, 128, 0, 0, 0, 0, 0, 0, 0, 0, 0, 0, 10, 0, 255]
    );
}

#[test]
fn write_color_writes_over_what_was_there() {
    let mut img = OutputImage::new(1, 1).unwrap();
    write_color(0, 0, &Vec3::new(16, 25, 36), &mut img);
    write_color(0, 0, &Vec3::new(1, 4, 9), &mut img);
    assert_eq!(img.into_raw(), vec![1, 2, 3]);
}

fn camera(image_width: u32, image_height: u32, spp: u32) -> Camera {
    let mut cam = Camera {
        image_width,
        aspect_width: image_width,
        aspect_height: image_height,
        samples_per_pixel: spp,
        max_depth: 10,
        image_height: 0,
        sqrt_spp: 0,
    };
    cam.initialize();
    assert_eq!(cam.image_height, image_height);
    cam
}

#[test]
fn render_divides_by_the_samples_taken() {
    // Ten samples asked, nine strata sampled: the sums are divided by nine.
    let cam = camera(2, 2, 10);
    assert_eq!(cam.sample_count(), 9);
    let sums = vec![
        Vec3::new(9 * 16, 9 * 25, 9 * 36),
        Vec3::new(9 * LEVELS_PER_UNIT, 0, 9 * 100 + 8),
        Vec3::new(9 * 101 * 101 - 1, -9, 9),
        Vec3::new(8, 17, i64::MAX),
    ];
    let img = cam.render(&sums).unwrap();
    assert_eq!(img.width(), 2);
    assert_eq!(img.height(), 2);
    assert_eq!(img.into_raw(), vec![4, 5, 6, 255, 0, 10, 100, 0, 1, 0, 1, 255]);
}

#[test]
fn render_of_no_samples_is_black() {
    let cam = camera(2, 1, 0);
    assert_eq!(cam.sample_count(), 0);
    let img = cam.render(&vec![Vec3::new(5000, 5000, 5000); 2]).unwrap();
    assert_eq!(img.into_raw(), vec![0; 6]);
}

#[test]
fn render_follows_the_order_of_the_pixels() {
    let cam = camera(3, 2, 1);
    let pixels = cam.pixels();
    let sums: Vec<Color> = pixels
        .iter()
        .map(|&(i, j)| Vec3::new((i as i64) * (i as i64), (j as i64) * (j as i64), 49))
        .collect();
    let raw = cam.render(&sums).unwrap().into_raw();
    for (k, &(i, j)) in pixels.iter().enumerate() {
        assert_eq!(raw[3 * k..3 * k + 3], [i as u8, j as u8, 7]);
    }
}

#[test]
fn render_wants_one_sum_for_each_pixel() {
    let cam = camera(3, 2, 1);
    assert!(cam.render(&vec![Vec3::new(0, 0, 0); 5]).is_none());
    assert!(cam.render(&vec![Vec3::new(0, 0, 0); 7]).is_none());
    assert!(cam.render(&Vec::new()).is_none());
    assert!(cam.render(&vec![Vec3::new(0, 0, 0); 6]).is_some());
}
