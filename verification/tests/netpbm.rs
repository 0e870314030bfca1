use voronoi::canvas::Canvas;
use voronoi::netpbm::encode_netpbm;

#[test]
fn encodes_header_and_rgb_records() {
    let pixels: Vec<u32> = vec![0x11223344, 0xAABBCCDD];
    let bytes = encode_netpbm(2, 1, &pixels);
    let mut expected: Vec<u8> = b"P6\n2 1 255\n".to_vec();
    expected.extend([0x11, 0x22, 0x33, 0xAA, 0xBB, 0xCC]);
    assert_eq!(bytes, expected);
}

#[test]
fn alpha_channel_is_dropped() {
    let pixels: Vec<u32> = vec![0x010203FF];
    let bytes = encode_netpbm(1, 1, &pixels);
    let mut expected: Vec<u8> = b"P6\n1 1 255\n".to_vec();
    expected.extend([1, 2, 3]);
    assert_eq!(bytes, expected);
}

#[test]
fn multi_digit_dimensions_in_header() {
    let pixels: Vec<u32> = vec![0; 120];
    let bytes = encode_netpbm(12, 10, &pixels);
    assert!(bytes.starts_with(b"P6\n12 10 255\n"));
    assert_eq!(bytes.len(), b"P6\n12 10 255\n".len() + 3 * 120);
    assert!(bytes[b"P6\n12 10 255\n".len()..].iter().all(|&b| b == 0));
}

#[test]
fn encodes_rasterized_canvas() {
    let mut c = Canvas::new(1, 1);
    assert_eq!(c.point((0, 0), 1, 0xAABBCC00), Ok(()));
    assert_eq!(c.fill_voronoi_areas(), Ok(()));
    let buf = c.pixels();
    let bytes = encode_netpbm(1, 1, &buf);
    let mut expected: Vec<u8> = b"P6\n1 1 255\n".to_vec();
    expected.extend([0xAA, 0xBB, 0xCC]);
    assert_eq!(bytes, expected);
}
