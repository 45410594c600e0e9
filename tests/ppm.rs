use raytracer::ppm::{to_ppm, Rgb8};

#[test]
fn header_of_empty_image() {
    let bytes = to_ppm(&Vec::new(), 400, 225);
    assert_eq!(String::from_utf8(bytes).unwrap(), "P3\n# Raytraced image generated by Maiks raytracer\n400 225\n255\n\n");
}

#[test]
fn pixels_one_per_line() {
    let pixels = vec![
        Rgb8 { r: 0, g: 9, b: 10 },
        Rgb8 { r: 255, g: 128, b: 7 },
    ];
    let bytes = to_ppm(&pixels, 2, 1);
    assert_eq!(
        String::from_utf8(bytes).unwrap(),
        "P3\n# Raytraced image generated by Maiks raytracer\n2 1\n255\n\n0 9 10\n255 128 7\n"
    );
}

#[test]
fn large_dimensions_in_decimal() {
    let bytes = to_ppm(&Vec::new(), 1234567, 0);
    assert_eq!(String::from_utf8(bytes).unwrap(), "P3\n# Raytraced image generated by Maiks raytracer\n1234567 0\n255\n\n");
}

#[test]
fn two_pixel_image_bytes() {
    let pixels = vec![Rgb8 { r: 0, g: 0, b: 0 }, Rgb8 { r: 255, g: 127, b: 0 }];
    assert_eq!(
        to_ppm(&pixels, 2, 1),
        b"P3\n# Raytraced image generated by Maiks raytracer\n2 1\n255\n\n0 0 0\n255 127 0\n".to_vec()
    );
}
