use tank_engine::texture::{clamped_neighbors, Neighbors};
use tank_engine::texture::{Color4, TextureBuffer};

#[test]
fn new_buffer_is_transparent_black() {
    let buf = TextureBuffer::new(4, 3);
    assert_eq!(buf.width, 4);
    assert_eq!(buf.height, 3);
    assert_eq!(buf.data.len(), 48);
    assert!(buf.data.iter().all(|&b| b == 0));
    assert_eq!(buf.get_pixel(3, 2), Color4::new(0, 0, 0, 0));
}

#[test]
fn color_new_sets_channels() {
    let c = Color4::new(1, 2, 3, 4);
    assert_eq!((c.r, c.g, c.b, c.a), (1, 2, 3, 4));
}

#[test]
fn set_then_get_returns_the_color() {
    let mut buf = TextureBuffer::new(8, 8);
    let c = Color4::new(10, 20, 30, 255);
    buf.set_pixel(5, 3, c);
    assert_eq!(buf.get_pixel(5, 3), c);
    let idx = (3 * 8 + 5) * 4;
    assert_eq!(&buf.data[idx..idx + 4], &[10, 20, 30, 255]);
}

#[test]
fn set_pixel_leaves_other_pixels() {
    let mut buf = TextureBuffer::new(4, 4);
    buf.set_pixel(1, 1, Color4::new(9, 9, 9, 9));
    buf.set_pixel(2, 1, Color4::new(7, 7, 7, 7));
    assert_eq!(buf.get_pixel(1, 1), Color4::new(9, 9, 9, 9));
    assert_eq!(buf.get_pixel(2, 1), Color4::new(7, 7, 7, 7));
    assert_eq!(buf.get_pixel(0, 1), Color4::new(0, 0, 0, 0));
    let nonzero = buf.data.iter().filter(|&&b| b != 0).count();
    assert_eq!(nonzero, 8);
}

#[test]
fn set_pixel_outside_is_ignored() {
    let mut buf = TextureBuffer::new(2, 2);
    buf.set_pixel(2, 0, Color4::new(1, 1, 1, 1));
    buf.set_pixel(0, 2, Color4::new(1, 1, 1, 1));
    buf.set_pixel(u32::MAX, u32::MAX, Color4::new(1, 1, 1, 1));
    assert!(buf.data.iter().all(|&b| b == 0));
}

#[test]
fn get_pixel_past_row_end_reads_next_row() {
    let mut buf = TextureBuffer::new(3, 2);
    buf.set_pixel(0, 1, Color4::new(5, 6, 7, 8));
    assert_eq!(buf.get_pixel(3, 0), Color4::new(5, 6, 7, 8));
}

#[test]
fn empty_buffer() {
    let buf = TextureBuffer::new(0, 5);
    assert!(buf.data.is_empty());
}

#[test]
fn normal_map_neighbors_clamp_at_borders() {
    assert_eq!(clamped_neighbors(0, 0, 3, 2), Neighbors { left: 0, right: 1, up: 0, down: 3 });
    assert_eq!(clamped_neighbors(2, 1, 3, 2), Neighbors { left: 4, right: 5, up: 2, down: 5 });
    assert_eq!(clamped_neighbors(1, 1, 3, 3), Neighbors { left: 3, right: 5, up: 1, down: 7 });
    assert_eq!(clamped_neighbors(0, 0, 1, 1), Neighbors { left: 0, right: 0, up: 0, down: 0 });
}
