use rashamon::draw::{
    draw_icon_add, draw_icon_close, draw_icon_lock, draw_icon_star, draw_rounded_rect_outline,
};
use rashamon::framebuffer::{Framebuffer, Pixel};
use rashamon::ppm::PpmOutput;

const RED: Pixel = Pixel { r: 200, g: 10, b: 20 };

#[test]
fn pixels_are_stored_and_read_back() {
    let mut fb = Framebuffer::new(3, 2);
    assert_eq!(fb.stride, 12);
    assert_eq!(fb.data.len(), 24);
    fb.set_pixel(1, 1, Pixel { r: 1, g: 2, b: 3 });
    assert_eq!(fb.get_pixel(1, 1), Pixel { r: 1, g: 2, b: 3 });
    assert_eq!(&fb.data[12 + 3..12 + 6], &[3, 2, 1]);
    fb.set_pixel(9, 9, RED);
    assert_eq!(fb.get_pixel(9, 9), Pixel::black());
}

#[test]
fn fill_rect_is_clipped() {
    let mut fb = Framebuffer::new(4, 4);
    fb.fill_rect(2, 2, 10, 10, RED);
    assert_eq!(fb.get_pixel(3, 3), RED);
    assert_eq!(fb.get_pixel(1, 3), Pixel::black());
    fb.clear(Pixel::white());
    assert_eq!(fb.get_pixel(3, 3), Pixel::white());
}

#[test]
fn blit_copies_a_rectangle() {
    let mut src = Framebuffer::new(2, 2);
    src.fill_rect(0, 0, 2, 2, RED);
    let mut dst = Framebuffer::new(4, 4);
    dst.blit_dirty_rect(&src, 1, 1, 0, 0, 2, 2);
    assert_eq!(dst.get_pixel(1, 1), RED);
    assert_eq!(dst.get_pixel(2, 2), RED);
    assert_eq!(dst.get_pixel(3, 3), Pixel::black());
}

#[test]
fn plus_icon_crosses_at_centre() {
    let mut fb = Framebuffer::new(20, 20);
    draw_icon_add(&mut fb, 10, 10, 8, RED);
    assert_eq!(fb.get_pixel(10, 10), RED);
    assert_eq!(fb.get_pixel(6, 10), RED);
    assert_eq!(fb.get_pixel(10, 14), RED);
    assert_eq!(fb.get_pixel(6, 6), Pixel::black());
}

#[test]
fn close_icon_is_an_x() {
    let mut fb = Framebuffer::new(20, 20);
    draw_icon_close(&mut fb, 10, 10, 8, RED);
    assert_eq!(fb.get_pixel(6, 6), RED);
    assert_eq!(fb.get_pixel(14, 6), RED);
    assert_eq!(fb.get_pixel(10, 6), Pixel::black());
}

#[test]
fn lock_and_star_paint_their_shapes() {
    let mut fb = Framebuffer::new(30, 30);
    draw_icon_lock(&mut fb, 15, 15, RED);
    assert_eq!(fb.get_pixel(15, 18), RED);
    assert_eq!(fb.get_pixel(15, 10), RED);
    assert_eq!(fb.get_pixel(11, 12), RED);
    assert_eq!(fb.get_pixel(15, 12), Pixel::black());
    let mut fb2 = Framebuffer::new(30, 30);
    draw_icon_star(&mut fb2, 15, 15, 12, RED, true);
    assert_eq!(fb2.get_pixel(15, 15), RED);
}

#[test]
fn ppm_frames_and_encoding() {
    let out = PpmOutput::new(2, 1);
    let _ = out;
    assert!(PpmOutput::writes_frame(1));
    assert!(PpmOutput::writes_frame(61));
    assert!(!PpmOutput::writes_frame(60));
    assert_eq!(PpmOutput::frame_path(7), "frame_0007.ppm");
    assert_eq!(PpmOutput::frame_path(123456), "frame_123456.ppm");
    let mut fb = Framebuffer::new(2, 1);
    fb.set_pixel(0, 0, Pixel { r: 1, g: 2, b: 3 });
    fb.set_pixel(1, 0, Pixel { r: 4, g: 5, b: 6 });
    let mut expect = b"P6\n2 1\n255\n".to_vec();
    expect.extend_from_slice(&[1, 2, 3, 4, 5, 6]);
    assert_eq!(PpmOutput::encode(&fb), expect);
}

#[test]
fn rounded_outline_follows_midpoint_arcs() {
    let mut fb = Framebuffer::new(20, 20);
    draw_rounded_rect_outline(&mut fb, 2, 2, 10, 8, 3, RED);
    assert_eq!(fb.get_pixel(6, 2), RED);
    assert_eq!(fb.get_pixel(6, 9), RED);
    assert_eq!(fb.get_pixel(2, 6), RED);
    assert_eq!(fb.get_pixel(11, 6), RED);
    assert_eq!(fb.get_pixel(3, 3), RED);
    assert_eq!(fb.get_pixel(4, 2), RED);
    assert_eq!(fb.get_pixel(2, 2), Pixel::black());
    assert_eq!(fb.get_pixel(6, 6), Pixel::black());
    let mut clipped = Framebuffer::new(4, 4);
    draw_rounded_rect_outline(&mut clipped, -3, -3, 5, 5, 0, RED);
    assert_eq!(clipped.get_pixel(1, 0), RED);
    assert_eq!(clipped.get_pixel(0, 1), RED);
    assert_eq!(clipped.get_pixel(0, 0), Pixel::black());
    assert_eq!(clipped.get_pixel(2, 2), Pixel::black());
}
