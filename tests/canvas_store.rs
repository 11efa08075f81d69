use pixel_canvas::canvas::{init_pixel_file, Canvas, CanvasSize};
use pixel_canvas::codec::{hex_string, nibble_to_hex, offset_of, pack, unpack};
use pixel_canvas::error::CanvasError;

fn blank(width: u32, height: u32) -> Canvas {
    Canvas::new(CanvasSize { width, height }).unwrap()
}

fn pixel(c: &Canvas, x: u32, y: u32) -> u8 {
    c.read_region(x, y, x, y).unwrap()[0]
}

#[test]
fn offset_of_maps_row_major_two_per_byte() {
    assert_eq!(offset_of(0, 0, 4), (0, true));
    assert_eq!(offset_of(1, 0, 4), (0, false));
    assert_eq!(offset_of(2, 0, 4), (1, true));
    assert_eq!(offset_of(3, 1, 4), (3, false));
    assert_eq!(offset_of(5, 7, 80), (282, false));
}

#[test]
fn pack_unpack_round_trip_every_byte() {
    for b in 0..=255u8 {
        let (hi, lo) = unpack(b);
        assert_eq!(hi, b >> 4);
        assert_eq!(lo, b & 0x0f);
        for v in 0..16u8 {
            let h = pack(b, v, true);
            assert_eq!(unpack(h), (v, lo));
            let l = pack(b, v, false);
            assert_eq!(unpack(l), (hi, v));
        }
    }
    assert_eq!(pack(0xab, 0x3, true), 0x3b);
    assert_eq!(pack(0xab, 0x3, false), 0xa3);
}

#[test]
fn nibble_to_hex_digits() {
    assert_eq!(nibble_to_hex(0), '0');
    assert_eq!(nibble_to_hex(9), '9');
    assert_eq!(nibble_to_hex(10), 'a');
    assert_eq!(nibble_to_hex(15), 'f');
    assert_eq!(nibble_to_hex(16), '?');
}

#[test]
fn hex_string_one_digit_per_nibble() {
    assert_eq!(hex_string(&vec![5, 9, 0, 15, 10]), "590fa");
    assert_eq!(hex_string(&vec![]), "");
}

#[test]
fn init_pixel_file_is_zeroed_and_sized() {
    assert_eq!(init_pixel_file(&CanvasSize { width: 4, height: 2 }).unwrap(), vec![0u8; 4]);
    assert_eq!(init_pixel_file(&CanvasSize { width: 80, height: 80 }).unwrap().len(), 3200);
    assert_eq!(init_pixel_file(&CanvasSize { width: 3, height: 2 }), Err(CanvasError::InvalidDimensions));
    assert_eq!(init_pixel_file(&CanvasSize { width: 4, height: 5 }), Err(CanvasError::InvalidDimensions));
}

#[test]
fn new_canvas_rejects_odd_and_oversized() {
    assert!(matches!(Canvas::new(CanvasSize { width: 5, height: 4 }), Err(CanvasError::InvalidDimensions)));
    assert!(matches!(
        Canvas::new(CanvasSize { width: 0x10000, height: 0x10000 }),
        Err(CanvasError::InvalidDimensions)
    ));
    let c = blank(0, 0);
    assert_eq!(c.read_all(), Vec::<u8>::new());
}

#[test]
fn from_bytes_checks_length() {
    let size = CanvasSize { width: 4, height: 2 };
    assert!(matches!(Canvas::from_bytes(size, vec![0u8; 3]), Err(CanvasError::StorageUnavailable)));
    assert!(matches!(
        Canvas::from_bytes(CanvasSize { width: 3, height: 2 }, vec![0u8; 3]),
        Err(CanvasError::InvalidDimensions)
    ));
    let c = Canvas::from_bytes(size, vec![0x59, 0x00, 0x00, 0x02]).unwrap();
    assert_eq!(c.read_all(), vec![5, 9, 0, 0, 0, 0, 0, 2]);
}

#[test]
fn write_then_read_back_leaves_others() {
    let mut c = blank(6, 4);
    for y in 0..4u32 {
        for x in 0..6u32 {
            let color = ((x + 3 * y) % 16) as u8;
            let before = c.read_all();
            c.write_pixel(x, y, color).unwrap();
            assert_eq!(pixel(&c, x, y), color);
            let after = c.read_all();
            for i in 0..24usize {
                if i != (y * 6 + x) as usize {
                    assert_eq!(after[i], before[i]);
                }
            }
        }
    }
}

#[test]
fn write_pixel_errors_leave_canvas() {
    let mut c = blank(4, 2);
    c.write_pixel(1, 1, 7).unwrap();
    let before = c.as_bytes().clone();
    assert_eq!(c.write_pixel(4, 0, 1), Err(CanvasError::OutOfBounds));
    assert_eq!(c.write_pixel(0, 2, 1), Err(CanvasError::OutOfBounds));
    assert_eq!(c.write_pixel(0, 0, 16), Err(CanvasError::InvalidColor));
    assert_eq!(c.as_bytes(), &before);
}

#[test]
fn shared_byte_pixels_written_independently() {
    let mut c = blank(4, 2);
    c.write_pixel(2, 1, 0xa).unwrap();
    c.write_pixel(3, 1, 0x5).unwrap();
    assert_eq!(c.as_bytes()[3], 0xa5);
    c.write_pixel(2, 1, 0x1).unwrap();
    assert_eq!(c.as_bytes()[3], 0x15);
    c.write_pixel(3, 1, 0xf).unwrap();
    assert_eq!(c.as_bytes()[3], 0x1f);
    assert_eq!(pixel(&c, 2, 1), 1);
    assert_eq!(pixel(&c, 3, 1), 15);
}

#[test]
fn end_to_end_four_by_two() {
    let mut c = blank(4, 2);
    c.write_pixel(0, 0, 5).unwrap();
    c.write_pixel(1, 0, 9).unwrap();
    c.write_pixel(3, 1, 2).unwrap();
    assert_eq!(c.read_all(), vec![5, 9, 0, 0, 0, 0, 0, 2]);
    assert_eq!(c.as_bytes(), &vec![0x59, 0x00, 0x00, 0x02]);
}

#[test]
fn full_region_equals_read_all() {
    let mut c = blank(6, 4);
    for (i, (x, y)) in [(0u32, 0u32), (5, 0), (2, 1), (3, 3), (4, 2)].iter().enumerate() {
        c.write_pixel(*x, *y, (i + 3) as u8).unwrap();
    }
    assert_eq!(c.read_region(0, 0, 5, 3).unwrap(), c.read_all());
}

#[test]
fn region_read_row_major() {
    let mut c = blank(4, 4);
    c.write_pixel(1, 1, 1).unwrap();
    c.write_pixel(2, 1, 2).unwrap();
    c.write_pixel(1, 2, 3).unwrap();
    c.write_pixel(2, 2, 4).unwrap();
    assert_eq!(c.read_region(1, 1, 2, 2).unwrap(), vec![1, 2, 3, 4]);
    assert_eq!(c.read_region(2, 1, 3, 1).unwrap(), vec![2, 0]);
}

#[test]
fn region_read_rejects_bad_rectangles() {
    let c = blank(4, 4);
    assert_eq!(c.read_region(2, 0, 1, 0), Err(CanvasError::InvalidRegion));
    assert_eq!(c.read_region(0, 2, 0, 1), Err(CanvasError::InvalidRegion));
    assert_eq!(c.read_region(0, 0, 4, 0), Err(CanvasError::InvalidRegion));
    assert_eq!(c.read_region(0, 0, 0, 4), Err(CanvasError::InvalidRegion));
}

#[test]
fn whiten_top_left_square_of_80() {
    let mut c = blank(80, 80);
    for y in 0..2u32 {
        for x in 0..4u32 {
            c.write_pixel(x, y, 7).unwrap();
        }
    }
    c.whiten_area(0, 0, 1, 1).unwrap();
    let bytes = c.as_bytes();
    assert_eq!(bytes[0], 0x00);
    assert_eq!(bytes[40], 0x00);
    assert_eq!(bytes[1], 0x77);
    assert_eq!(bytes[41], 0x77);
    assert_eq!(pixel(&c, 2, 0), 7);
    assert_eq!(pixel(&c, 0, 0), 0);
    assert_eq!(pixel(&c, 1, 1), 0);
}

#[test]
fn whiten_odd_left_edge_clears_by_byte() {
    let mut c = blank(8, 2);
    for x in 0..8u32 {
        c.write_pixel(x, 0, 9).unwrap();
    }
    c.whiten_area(1, 0, 2, 0).unwrap();
    assert_eq!(c.read_region(0, 0, 7, 0).unwrap(), vec![0, 0, 9, 9, 9, 9, 9, 9]);
    c.whiten_area(3, 0, 6, 0).unwrap();
    assert_eq!(c.read_region(0, 0, 7, 0).unwrap(), vec![0, 0, 0, 0, 0, 0, 9, 9]);
}

#[test]
fn whiten_rejects_bad_rectangles() {
    let mut c = blank(4, 4);
    c.write_pixel(0, 0, 3).unwrap();
    assert_eq!(c.whiten_area(1, 0, 0, 0), Err(CanvasError::InvalidRegion));
    assert_eq!(c.whiten_area(0, 0, 4, 0), Err(CanvasError::InvalidRegion));
    assert_eq!(c.whiten_area(0, 0, 0, 4), Err(CanvasError::InvalidRegion));
    assert_eq!(pixel(&c, 0, 0), 3);
}

#[test]
fn resize_keeps_pixels_and_zeroes_new_area() {
    let mut c = blank(4, 2);
    c.write_pixel(0, 0, 5).unwrap();
    c.write_pixel(1, 0, 9).unwrap();
    c.write_pixel(3, 1, 2).unwrap();
    c.resize(6, 4).unwrap();
    assert_eq!(c.dimensions(), CanvasSize { width: 6, height: 4 });
    assert_eq!(
        c.read_all(),
        vec![5, 9, 0, 0, 0, 0, 0, 0, 0, 2, 0, 0, 0, 0, 0, 0, 0, 0, 0, 0, 0, 0, 0, 0]
    );
    assert_eq!(c.as_bytes().len(), 12);
    c.write_pixel(5, 3, 4).unwrap();
    assert_eq!(pixel(&c, 5, 3), 4);
}

#[test]
fn resize_to_same_size_changes_nothing() {
    let mut c = blank(4, 2);
    c.write_pixel(2, 1, 6).unwrap();
    let before = c.as_bytes().clone();
    c.resize(4, 2).unwrap();
    assert_eq!(c.as_bytes(), &before);
}

#[test]
fn resize_rejects_shrink_and_odd() {
    let mut c = blank(6, 4);
    c.write_pixel(1, 1, 8).unwrap();
    let before = c.as_bytes().clone();
    assert_eq!(c.resize(4, 4), Err(CanvasError::ShrinkNotAllowed));
    assert_eq!(c.resize(6, 2), Err(CanvasError::ShrinkNotAllowed));
    assert_eq!(c.resize(7, 4), Err(CanvasError::InvalidDimensions));
    assert_eq!(c.resize(8, 5), Err(CanvasError::InvalidDimensions));
    assert_eq!(c.resize(3, 4), Err(CanvasError::InvalidDimensions));
    assert_eq!(c.resize(0x10000, 0x10000), Err(CanvasError::ResizeFailed));
    assert_eq!(c.as_bytes(), &before);
    assert_eq!(c.dimensions(), CanvasSize { width: 6, height: 4 });
}
