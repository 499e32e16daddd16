use face_tracker::error::AppError;
use face_tracker::face_detection::convert_rgba_to_luma;

fn uniform_buffer(r: u8, g: u8, b: u8, a: u8, pixels: usize) -> Vec<u8> {
    let mut buffer = Vec::with_capacity(pixels * 4);
    for _ in 0..pixels {
        buffer.push(r);
        buffer.push(g);
        buffer.push(b);
        buffer.push(a);
    }
    buffer
}

#[test]
fn uniform_red_maps_to_76() {
    // floor(0.299 * 255) = floor(76.245) = 76, alpha ignored.
    let (w, h) = (4u32, 3u32);
    let buffer = uniform_buffer(255, 0, 0, 255, (w * h) as usize);
    let luma = convert_rgba_to_luma(&buffer, w, h).unwrap();
    assert_eq!(luma.len(), (w * h) as usize);
    assert!(luma.iter().all(|&v| v == 76));
}

#[test]
fn channel_weights_are_exact() {
    // One pixel per case: floor of 0.299R + 0.587G + 0.114B.
    let cases: [([u8; 4], u8); 5] = [
        ([255, 0, 0, 0], 76),      // floor(76.245)
        ([0, 255, 0, 0], 149),     // floor(149.685)
        ([0, 0, 255, 0], 29),      // floor(29.07)
        ([255, 255, 255, 7], 255), // exactly 255
        ([10, 20, 30, 40], 18),    // floor(2.99 + 11.74 + 3.42) = floor(18.15)
    ];
    for (pixel, expected) in cases {
        let luma = convert_rgba_to_luma(&pixel.to_vec(), 1, 1).unwrap();
        assert_eq!(luma, vec![expected]);
    }
}

#[test]
fn short_buffer_is_rejected() {
    let (w, h) = (4u32, 3u32);
    let mut buffer = uniform_buffer(255, 0, 0, 255, (w * h) as usize);
    buffer.pop();
    let result = convert_rgba_to_luma(&buffer, w, h);
    assert_eq!(
        result,
        Err(AppError::InvalidBufferSize { expected: 48, actual: 47 })
    );
}

#[test]
fn long_buffer_is_rejected() {
    let buffer = uniform_buffer(1, 2, 3, 4, 5);
    let result = convert_rgba_to_luma(&buffer, 2, 2);
    assert_eq!(
        result,
        Err(AppError::InvalidBufferSize { expected: 16, actual: 20 })
    );
}

#[test]
fn empty_image_converts_to_empty_buffer() {
    let buffer: Vec<u8> = Vec::new();
    assert_eq!(convert_rgba_to_luma(&buffer, 0, 0).unwrap(), Vec::<u8>::new());
    // With zero width, any height gives an expected length of zero.
    assert_eq!(convert_rgba_to_luma(&buffer, 0, 7).unwrap(), Vec::<u8>::new());
}

#[test]
fn pixels_convert_row_major_independently() {
    let buffer = vec![
        255, 0, 0, 255, // red -> 76
        0, 255, 0, 255, // green -> 149
        0, 0, 255, 255, // blue -> 29
        0, 0, 0, 255,   // black -> 0
    ];
    let luma = convert_rgba_to_luma(&buffer, 2, 2).unwrap();
    assert_eq!(luma, vec![76, 149, 29, 0]);
}
