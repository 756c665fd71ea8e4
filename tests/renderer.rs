use sprite_render::renderer::{Position, PositionRel, RenderContext, RenderError};

#[test]
fn absolute_offset_is_row_major() {
    assert_eq!(Position::Absolute(3, 2).as_offset(10), 23);
    assert_eq!(Position::Absolute(0, 0).as_offset(10), 0);
    assert_eq!(Position::Absolute(9, 4).as_offset(10), 49);
}

#[test]
fn relative_offset_is_zero() {
    assert_eq!(Position::Relative(PositionRel::Top(5)).as_offset(10), 0);
    assert_eq!(PositionRel::Left(3).as_offset(7), 0);
}

#[test]
fn checked_offset_reports_overflow() {
    assert_eq!(Position::Absolute(1, 2).checked_offset(4), Some(9));
    assert_eq!(Position::Absolute(0, usize::MAX).checked_offset(2), None);
}

#[test]
fn draw_pixel_writes_red_first() {
    let mut buf = vec![0u8; 8];
    {
        let mut ctx = RenderContext::new(&mut buf, 2, 1);
        assert_eq!(ctx.draw_pixel(1, 0x11223344), Ok(()));
    }
    assert_eq!(buf, vec![0, 0, 0, 0, 0x11, 0x22, 0x33, 0x44]);
}

#[test]
fn fill_pixel_widens_nibbles() {
    let mut buf = vec![0u8; 4];
    {
        let mut ctx = RenderContext::new(&mut buf, 1, 1);
        assert_eq!(ctx.fill_pixel(0, 0xF0F0), Ok(()));
    }
    assert_eq!(buf, vec![255, 0, 255, 0]);
    {
        let mut ctx = RenderContext::new(&mut buf, 1, 1);
        assert_eq!(ctx.fill_pixel(0, 0x1234), Ok(()));
    }
    assert_eq!(buf, vec![17, 34, 51, 68]);
}

#[test]
fn out_of_bounds_writes_fail_and_leave_buffer() {
    let mut buf = vec![7u8; 16];
    {
        let mut ctx = RenderContext::new(&mut buf, 2, 2);
        assert_eq!(ctx.draw_pixel(4, 0xFFFFFFFF), Err(RenderError::PixelOutOfBounds(4)));
        assert_eq!(ctx.fill_pixel(9, 0xFFFF), Err(RenderError::PixelOutOfBounds(9)));
        assert_eq!(ctx.fill_pixels(3, &[1u8; 8]), Err(RenderError::PixelOutOfBounds(3)));
        assert_eq!(ctx.draw_pixel(usize::MAX, 1), Err(RenderError::PixelOutOfBounds(usize::MAX)));
    }
    assert_eq!(buf, vec![7u8; 16]);
}

#[test]
fn partial_pixel_at_the_end_is_out_of_bounds() {
    let mut buf = vec![0u8; 6];
    let mut ctx = RenderContext::new(&mut buf, 1, 1);
    assert_eq!(ctx.draw_pixel(1, 1), Err(RenderError::PixelOutOfBounds(1)));
}

#[test]
fn fill_pixels_copies_at_pixel_offset() {
    let mut buf = vec![0u8; 12];
    {
        let mut ctx = RenderContext::new(&mut buf, 3, 1);
        assert_eq!(ctx.fill_pixels(1, &[1, 2, 3, 4, 5, 6, 7, 8]), Ok(()));
    }
    assert_eq!(buf, vec![0, 0, 0, 0, 1, 2, 3, 4, 5, 6, 7, 8]);
}

#[test]
fn draw_slice_draws_only_marked_pixels() {
    let mut buf = vec![0u8; 16];
    {
        let mut ctx = RenderContext::new(&mut buf, 4, 1);
        assert_eq!(ctx.draw_slice(&[1, 0, 1, 0], 0, 0xAABBCCDD), Ok(()));
    }
    assert_eq!(
        buf,
        vec![0xAA, 0xBB, 0xCC, 0xDD, 0, 0, 0, 0, 0xAA, 0xBB, 0xCC, 0xDD, 0, 0, 0, 0]
    );
}

#[test]
fn draw_slice_ignores_values_other_than_one() {
    let mut buf = vec![0u8; 8];
    {
        let mut ctx = RenderContext::new(&mut buf, 2, 1);
        assert_eq!(ctx.draw_slice(&[2, 255], 0, 0xFFFFFFFF), Ok(()));
    }
    assert_eq!(buf, vec![0u8; 8]);
}

#[test]
fn draw_slice_stops_at_first_marked_pixel_outside() {
    let mut buf = vec![0u8; 8];
    {
        let mut ctx = RenderContext::new(&mut buf, 2, 1);
        assert_eq!(
            ctx.draw_slice(&[0, 1, 0, 1], 0, 0x01020304),
            Err(RenderError::PixelOutOfBounds(3))
        );
    }
    assert_eq!(buf, vec![0, 0, 0, 0, 1, 2, 3, 4]);
}

#[test]
fn fill_slice_keeps_pixels_before_failure() {
    let mut buf = vec![0u8; 8];
    {
        let mut ctx = RenderContext::new(&mut buf, 2, 1);
        assert_eq!(
            ctx.fill_slice(&[0xFFFF, 0x0F0F, 0x1111], 0),
            Err(RenderError::PixelOutOfBounds(2))
        );
    }
    assert_eq!(buf, vec![255, 255, 255, 255, 0, 255, 0, 255]);
}

#[test]
fn fill_slice_error_names_first_pixel_outside() {
    let mut buf = vec![0u8; 8];
    let mut ctx = RenderContext::new(&mut buf, 2, 1);
    assert_eq!(ctx.fill_slice(&[1, 2], 5), Err(RenderError::PixelOutOfBounds(5)));
}

#[test]
fn blit_copies_rows_at_stride() {
    let mut buf = vec![0u8; 4 * 3 * 4];
    {
        let mut ctx = RenderContext::new(&mut buf, 3, 4);
        let src: Vec<u8> = (1..=8).collect();
        assert_eq!(ctx.blit(&src, 1, 4), Ok(()));
    }
    let mut want = vec![0u8; 48];
    want[16..20].copy_from_slice(&[1, 2, 3, 4]);
    want[28..32].copy_from_slice(&[5, 6, 7, 8]);
    assert_eq!(buf, want);
}

#[test]
fn blit_stops_at_first_row_outside() {
    let mut buf = vec![0u8; 8];
    {
        let mut ctx = RenderContext::new(&mut buf, 1, 2);
        let src = vec![9u8; 12];
        assert_eq!(ctx.blit(&src, 1, 1), Err(RenderError::PixelOutOfBounds(2)));
    }
    assert_eq!(buf, vec![0, 0, 0, 0, 9, 9, 9, 9]);
}

#[test]
fn draw_letter_advances_one_surface_row_per_glyph_row() {
    let mut buf = vec![0u8; 3 * 2 * 4];
    {
        let mut ctx = RenderContext::new(&mut buf, 3, 2);
        assert_eq!(ctx.draw_letter::<2>(&[1, 0, 0, 1], 0, 0x01010101), Ok(()));
    }
    let mut want = vec![0u8; 24];
    want[0..4].copy_from_slice(&[1, 1, 1, 1]);
    want[16..20].copy_from_slice(&[1, 1, 1, 1]);
    assert_eq!(buf, want);
}

#[test]
fn scale_leaves_buffer_unchanged() {
    let mut v = vec![1u8, 2, 3];
    RenderContext::scale(&mut v, (2, 2));
    assert_eq!(v, vec![1, 2, 3]);
}
