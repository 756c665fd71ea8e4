use sprite_render::bitmap::Bitmap;
use sprite_render::entities::{Button, Container, Interactive, SimpleObject};
use sprite_render::renderer::{Position, Render, RenderContext, RenderError};
use sprite_render::window::WindowOptions;

fn white_2x2() -> Bitmap {
    let mut data = vec![b'S', b'P', b'R', b'T', 2, 2, 4, 0, 0, 0];
    for _ in 0..4 {
        data.extend_from_slice(&0xFFFFu16.to_le_bytes());
    }
    Bitmap::load_res(&data).unwrap()
}

fn white_block_at_1_1() -> Vec<u8> {
    let mut want = vec![0u8; 4 * 4 * 4];
    for y in 1..3 {
        for x in 1..3 {
            let i = (y * 4 + x) * 4;
            want[i..i + 4].copy_from_slice(&[255, 255, 255, 255]);
        }
    }
    want
}

#[test]
fn button_draws_bitmap_at_position() {
    let button = Button::new(white_2x2(), Position::Absolute(1, 1));
    let mut buf = vec![0u8; 4 * 4 * 4];
    {
        let mut ctx = RenderContext::new(&mut buf, 4, 4);
        assert_eq!(button.render(&mut ctx), Ok(()));
    }
    assert_eq!(buf, white_block_at_1_1());
}

#[test]
fn button_outside_surface_fails() {
    let button = Button::new(white_2x2(), Position::Absolute(0, 3));
    let mut buf = vec![0u8; 4 * 4 * 4];
    {
        let mut ctx = RenderContext::new(&mut buf, 4, 4);
        assert_eq!(button.render(&mut ctx), Err(RenderError::PixelOutOfBounds(16)));
    }
    let mut want = vec![0u8; 64];
    want[48..56].copy_from_slice(&[255; 8]);
    assert_eq!(buf, want);
}

#[test]
fn button_is_clickable_but_not_routed() {
    let mut button = Button::new(white_2x2(), Position::Absolute(0, 0));
    button.on_click();
    assert!(button.is_clickable());
    assert!(!button.is_interactive());
}

#[test]
fn simple_object_forwards_render() {
    let obj = SimpleObject::new(Button::new(white_2x2(), Position::Absolute(1, 1)));
    let mut buf = vec![0u8; 64];
    {
        let mut ctx = RenderContext::new(&mut buf, 4, 4);
        assert_eq!(obj.render(&mut ctx), Ok(()));
    }
    assert_eq!(buf, white_block_at_1_1());
    assert!(!obj.is_interactive());
}

#[test]
fn container_composites_child_at_its_position() {
    let child = Button::new(white_2x2(), Position::Absolute(0, 0));
    let container = Container::new(child, 2, 2, Position::Absolute(1, 1));
    let mut buf = vec![0u8; 64];
    {
        let mut ctx = RenderContext::new(&mut buf, 4, 4);
        assert_eq!(container.render(&mut ctx), Ok(()));
    }
    assert_eq!(buf, white_block_at_1_1());
}

#[test]
fn container_child_failure_leaves_parent_untouched() {
    let child = Button::new(white_2x2(), Position::Absolute(1, 1));
    let container = Container::new(child, 2, 2, Position::Absolute(0, 0));
    let mut buf = vec![3u8; 64];
    {
        let mut ctx = RenderContext::new(&mut buf, 4, 4);
        assert_eq!(container.render(&mut ctx), Err(RenderError::PixelOutOfBounds(3)));
    }
    assert_eq!(buf, vec![3u8; 64]);
}

#[test]
fn window_options_default() {
    let o = WindowOptions::default();
    assert_eq!(o.title(), "Application");
    assert_eq!(o.width(), 64);
    assert_eq!(o.height(), 32);
}
