//! Pixel writes, compositing, clearing and geometry validation.

use linht_gui::CapabilityMismatch;
use linht_gui::Color;
use linht_gui::DeviceInfo;
use linht_gui::FontId;
use linht_gui::Framebuffer;
use linht_gui::FramebufferError;
use linht_gui::DISPLAY_HEIGHT;
use linht_gui::DISPLAY_WIDTH;

fn fresh() -> Framebuffer {
    Framebuffer::new_offscreen(DeviceInfo::fallback()).expect("offscreen surface")
}

#[test]
fn set_pixel_opaque_reads_back_exactly() {
    let mut fb = fresh();
    fb.clear_screen(Color::black()).unwrap();
    let c = Color::new(12, 200, 77, 255);
    fb.set_pixel(33, 47, c).unwrap();
    assert_eq!(fb.get_pixel(33, 47).unwrap(), c);
}

#[test]
fn set_pixel_blends_exactly_over_known_background() {
    let mut fb = fresh();
    fb.clear_screen(Color::black()).unwrap();
    let bg = Color::new(100, 150, 200, 255);
    fb.set_pixel(5, 6, bg).unwrap();
    let fg = Color::new(255, 0, 40, 128);
    fb.set_pixel(5, 6, fg).unwrap();
    let expect = |f: u8, b: u8| -> u8 {
        ((f as u32 * 128 + b as u32 * 127) / 255) as u8
    };
    let got = fb.get_pixel(5, 6).unwrap();
    assert_eq!(got.r, expect(255, 100));
    assert_eq!(got.g, expect(0, 150));
    assert_eq!(got.b, expect(40, 200));
    assert_eq!(got.a, 255);
}

#[test]
fn set_pixel_zero_alpha_changes_nothing() {
    let mut fb = fresh();
    fb.clear_screen(Color::black()).unwrap();
    let bg = Color::new(9, 8, 7, 255);
    fb.set_pixel(90, 100, bg).unwrap();
    fb.set_pixel(90, 100, Color::new(255, 255, 255, 0)).unwrap();
    assert_eq!(fb.get_pixel(90, 100).unwrap(), bg);
}

#[test]
fn set_pixel_out_of_bounds_is_rejected_and_harmless() {
    let mut fb = fresh();
    fb.clear_screen(Color::black()).unwrap();
    let r1 = fb.set_pixel(DISPLAY_WIDTH, 0, Color::white());
    assert!(matches!(
        r1,
        Err(FramebufferError::InvalidCoordinate { x: 160, y: 0 })
    ));
    let r2 = fb.set_pixel(0, DISPLAY_HEIGHT, Color::white());
    assert!(matches!(
        r2,
        Err(FramebufferError::InvalidCoordinate { x: 0, y: 128 })
    ));
    let r3 = fb.set_pixel(65535, 65535, Color::white());
    assert!(r3.is_err());
    for y in 0..DISPLAY_HEIGHT {
        for x in 0..DISPLAY_WIDTH {
            assert_eq!(fb.get_pixel(x, y).unwrap(), Color::black());
        }
    }
}

#[test]
fn clear_fills_every_pixel_with_opaque_color() {
    let mut fb = fresh();
    fb.set_pixel(10, 10, Color::white()).unwrap();
    let c = Color::new(1, 2, 3, 255);
    fb.clear_screen(c).unwrap();
    for y in 0..DISPLAY_HEIGHT {
        for x in 0..DISPLAY_WIDTH {
            let got = fb.get_pixel(x, y).unwrap();
            assert_eq!(got, c);
            assert_eq!(got.a, 255);
        }
    }
}

#[test]
fn device_info_mismatches_are_rejected() {
    let mut info = DeviceInfo::fallback();
    info.width = 159;
    assert!(matches!(
        info.validate(),
        Err(FramebufferError::InvalidDeviceCapabilities(
            CapabilityMismatch::Width { expected: 160, actual: 159 }
        ))
    ));
    assert!(Framebuffer::new_offscreen(info.clone()).is_err());

    let mut info = DeviceInfo::fallback();
    info.height = 64;
    assert!(matches!(
        info.validate(),
        Err(FramebufferError::InvalidDeviceCapabilities(
            CapabilityMismatch::Height { expected: 128, actual: 64 }
        ))
    ));
    assert!(Framebuffer::new_offscreen(info.clone()).is_err());

    let mut info = DeviceInfo::fallback();
    info.bits_per_pixel = 16;
    assert!(matches!(
        info.validate(),
        Err(FramebufferError::InvalidDeviceCapabilities(
            CapabilityMismatch::BitsPerPixel { expected: 32, actual: 16 }
        ))
    ));
    assert!(Framebuffer::new_offscreen(info.clone()).is_err());

    let mut info = DeviceInfo::fallback();
    info.buffer_size = 100;
    assert!(matches!(
        info.validate(),
        Err(FramebufferError::BufferSizeMismatch { expected: 81920, actual: 100 })
    ));
    assert!(Framebuffer::new_offscreen(info).is_err());

    assert!(DeviceInfo::fallback().validate().is_ok());
}

#[test]
fn clear_forces_the_stored_alpha_to_opaque() {
    let mut fb = fresh();
    let c = Color::new(40, 50, 60, 128);
    fb.clear_screen(c).unwrap();
    for y in 0..DISPLAY_HEIGHT {
        for x in 0..DISPLAY_WIDTH {
            assert_eq!(fb.get_pixel(x, y).unwrap(), Color::new(40, 50, 60, 255));
        }
    }
}

#[test]
fn clear_reports_a_row_that_leaves_the_mapping() {
    // a pitch smaller than a row of pixels is accepted at construction;
    // the clear then stops at the first row whose span leaves the mapping
    let mut info = DeviceInfo::fallback();
    info.line_length = 100;
    info.buffer_size = 12800;
    assert!(info.validate().is_ok());
    let mut fb = Framebuffer::new_offscreen(info).unwrap();
    let r = fb.clear_screen(Color::black());
    // rows fit while 100 * y + 640 <= 12800, so row 122 is the first to fail
    assert!(matches!(
        r,
        Err(FramebufferError::BufferSizeMismatch { expected: 12840, actual: 12800 })
    ));
}

#[test]
fn color_helpers_and_bytes() {
    assert_eq!(Color::black(), Color::new(0, 0, 0, 255));
    assert_eq!(Color::white(), Color::new(255, 255, 255, 255));
    assert_eq!(Color::green(), Color::new(0, 255, 0, 255));
    assert_eq!(Color::new(1, 2, 3, 4).to_bytes(), [1, 2, 3, 4]);
    assert_eq!(FontId::Regular.default_path(), "fonts/DidactGothic-Regular.ttf");
}

#[test]
fn flush_never_fails() {
    let fb = fresh();
    assert!(fb.flush().is_ok());
}
