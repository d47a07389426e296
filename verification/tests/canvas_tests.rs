use raytracer::canvas::encode_picture;
use raytracer::scalar::Scalar;
use raytracer::vector::Vector3;

fn colour(red: f64, green: f64, blue: f64) -> Vector3 {
    Vector3::new(
        Scalar::from_bits(red.to_bits()),
        Scalar::from_bits(green.to_bits()),
        Scalar::from_bits(blue.to_bits()),
    )
}

#[test]
fn encode_picture_writes_three_bytes_per_pixel_row_by_row() {
    let colours = vec![
        colour(0.0, 0.5, 1.0),
        colour(0.25, 0.75, 0.999),
        colour(2.0, -1.0, 0.7),
        colour(0.1, 0.2, 0.3),
        colour(1.0, 1.0, 1.0),
        colour(0.0, 0.0, 0.0),
    ];
    let samples = encode_picture(3, 2, &colours);
    assert_eq!(
        samples,
        vec![0, 128, 255, 64, 192, 255, 255, 0, 179, 25, 51, 76, 255, 255, 255, 0, 0, 0]
    );
}

#[test]
fn encode_picture_is_what_the_image_crate_holds() {
    let width = 5;
    let height = 4;
    let mut colours = Vec::new();
    let mut expected = image::RgbImage::new(width, height);
    for (x, y, pixel) in expected.enumerate_pixels_mut() {
        let c = ((x * 7 + y * 13) % 31) as f64 / 30.0;
        let rgb = (c, 1.0 - c, c * c);
        colours.push(colour(rgb.0, rgb.1, rgb.2));
        *pixel = image::Rgb([
            (256.0 * rgb.0.clamp(0.0, 0.999)) as u8,
            (256.0 * rgb.1.clamp(0.0, 0.999)) as u8,
            (256.0 * rgb.2.clamp(0.0, 0.999)) as u8,
        ]);
    }
    let samples = encode_picture(width, height, &colours);
    assert_eq!(samples, expected.into_raw());
}

#[test]
fn encode_picture_of_no_pixels_is_empty() {
    assert_eq!(encode_picture(0, 0, &Vec::new()), Vec::<u8>::new());
    assert_eq!(encode_picture(0, 9, &Vec::new()), Vec::<u8>::new());
}
