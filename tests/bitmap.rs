use sprite_render::bitmap::Bitmap;
use sprite_render::renderer::{RenderError, Renderable, Resizable, Scalable};

fn sprite_bytes(width: u8, height: u8, mask: Option<&[u8]>, pixels: &[u16]) -> Vec<u8> {
    let mut out = vec![b'S', b'P', b'R', b'T', width, height, 4, 0];
    out.push(if mask.is_some() { 1 } else { 0 });
    out.push(0);
    if let Some(m) = mask {
        out.extend_from_slice(m);
    }
    for p in pixels {
        out.extend_from_slice(&p.to_le_bytes());
    }
    out
}

#[test]
fn load_reads_header_mask_and_pixels() {
    let data = sprite_bytes(2, 1, Some(&[1, 0]), &[0x1234, 0xABCD]);
    let b = Bitmap::load_res(&data).unwrap();
    assert_eq!(b.get_width(), 2);
    assert_eq!(b.get_height(), 1);
    assert_eq!(b.get_render_width(), 2);
    assert_eq!(b.get_render_height(), 1);
    assert_eq!(b.pixel_data(), &[0x1234, 0xABCD]);
    assert_eq!(b.bitmask(), Some(&vec![1u8, 0]));
}

#[test]
fn load_ignores_trailing_odd_byte() {
    let mut data = sprite_bytes(1, 1, None, &[0x0102]);
    data.push(0x77);
    let b = Bitmap::load_res(&data).unwrap();
    assert_eq!(b.pixel_data(), &[0x0102]);
    assert_eq!(b.bitmask(), None);
}

#[test]
fn load_rejects_short_header_bad_magic_and_cut_mask() {
    assert_eq!(Bitmap::load_res(&[b'S', b'P', b'R']).err(), Some(RenderError::ResourceLoadFailure));
    let mut bad = sprite_bytes(1, 1, None, &[1]);
    bad[0] = b'X';
    assert_eq!(Bitmap::load_res(&bad).err(), Some(RenderError::ResourceLoadFailure));
    let mut cut = sprite_bytes(2, 2, None, &[]);
    cut[8] = 1;
    cut.extend_from_slice(&[1, 1, 1]);
    assert_eq!(Bitmap::load_res(&cut).err(), Some(RenderError::ResourceLoadFailure));
}

#[test]
fn round_trip_keeps_size_pixels_and_mask() {
    let data = sprite_bytes(2, 2, Some(&[1, 0, 0, 1]), &[0xF00F, 0x0F0F, 0x1234, 0xFFFF]);
    let b = Bitmap::load_res(&data).unwrap();
    let written = b.to_bytes();
    assert_eq!(written, data);
    let again = Bitmap::load_res(&written).unwrap();
    assert_eq!(again.get_width(), 2);
    assert_eq!(again.get_height(), 2);
    assert_eq!(again.pixel_data(), b.pixel_data());
    assert_eq!(again.bitmask(), b.bitmask());
}

#[test]
fn round_trip_without_mask() {
    let data = sprite_bytes(3, 1, None, &[1, 2, 3]);
    let b = Bitmap::load_res(&data).unwrap();
    let again = Bitmap::load_res(&b.to_bytes()).unwrap();
    assert_eq!(again.pixel_data(), &[1, 2, 3]);
    assert_eq!(again.bitmask(), None);
    assert_eq!(again.get_width(), 3);
}

#[test]
fn white_sprite_decodes_to_opaque_white() {
    let data = sprite_bytes(2, 2, None, &[0xFFFF; 4]);
    let b = Bitmap::load_res(&data).unwrap();
    let px = b.get_pixels().unwrap();
    assert_eq!(px.len(), 16);
    assert!(px.iter().all(|&v| v == 255));
}

#[test]
fn decode_leaves_missing_pixels_zero() {
    let data = sprite_bytes(2, 2, None, &[0xF0F0, 0xF0F0, 0xFFFF]);
    let b = Bitmap::load_res(&data).unwrap();
    let px = b.get_pixels().unwrap();
    assert_eq!(px, vec![255, 0, 255, 0, 255, 0, 255, 0, 0, 0, 0, 0, 0, 0, 0, 0]);
}

#[test]
fn decode_fails_when_rows_exceed_height() {
    let data = sprite_bytes(1, 1, None, &[1, 2]);
    let b = Bitmap::load_res(&data).unwrap();
    assert_eq!(b.get_pixels(), Err(RenderError::PixelOutOfBounds(1)));
}

#[test]
fn new_bitmap_is_transparent() {
    let mut b = Bitmap::new(3, 2);
    assert_eq!(b.get_width(), 3);
    assert_eq!(b.get_height(), 2);
    assert_eq!(b.get_render_width(), 3);
    assert_eq!(b.get_render_height(), 2);
    assert_eq!(b.pixel_data(), &[0u16; 6]);
    assert_eq!(b.bitmask(), None);
    assert_eq!(b.get_pixels().unwrap(), vec![0u8; 24]);
    b.with_bitmask(vec![1, 1]);
    assert_eq!(b.bitmask(), Some(&vec![1u8, 1]));
}

#[test]
fn scale_by_one_is_identity() {
    let data = sprite_bytes(2, 1, None, &[5, 6, 7]);
    let mut b = Bitmap::load_res(&data).unwrap();
    assert_eq!(b.with_scale(1), Ok(()));
    assert_eq!(b.pixel_data(), &[5, 6, 7]);
    assert_eq!(b.get_render_width(), 2);
    assert_eq!(b.get_render_height(), 1);
}

#[test]
fn scale_by_two_replicates_pixels() {
    let data = sprite_bytes(2, 1, None, &[0xA, 0xB]);
    let mut b = Bitmap::load_res(&data).unwrap();
    assert_eq!(b.with_scale(2), Ok(()));
    assert_eq!(b.get_render_width(), 4);
    assert_eq!(b.get_render_height(), 2);
    assert_eq!(b.get_width(), 2);
    assert_eq!(b.get_height(), 1);
    assert_eq!(b.pixel_data(), &[0xA, 0xA, 0xB, 0xB, 0xA, 0xA, 0xB, 0xB]);
}

#[test]
fn scale_by_three_maps_each_pixel_to_its_source() {
    let data = sprite_bytes(2, 2, None, &[1, 2, 3, 4]);
    let mut b = Bitmap::load_res(&data).unwrap();
    assert_eq!(b.with_scale(3), Ok(()));
    let w = b.get_render_width() as usize;
    assert_eq!(w, 6);
    assert_eq!(b.get_render_height(), 6);
    let src = [1u16, 2, 3, 4];
    for y in 0..6 {
        for x in 0..6 {
            assert_eq!(b.pixel_data()[y * w + x], src[(y / 3) * 2 + x / 3]);
        }
    }
}

#[test]
fn scale_past_u16_is_refused() {
    let data = sprite_bytes(255, 1, None, &[]);
    let mut b = Bitmap::load_res(&data).unwrap();
    assert_eq!(b.with_scale(300), Err(RenderError::InvalidScale));
    assert_eq!(b.get_render_width(), 255);
}

#[test]
fn resize_uses_difference_plus_one_as_factor() {
    let data = sprite_bytes(2, 1, None, &[0xA, 0xB]);
    let mut b = Bitmap::load_res(&data).unwrap();
    assert_eq!(b.with_size(3, 2), Ok(()));
    assert_eq!(b.get_render_width(), 4);
    assert_eq!(b.get_render_height(), 2);
    assert_eq!(b.pixel_data(), &[0xA, 0xA, 0xB, 0xB, 0xA, 0xA, 0xB, 0xB]);
}

#[test]
fn resize_below_current_size_is_refused() {
    let data = sprite_bytes(2, 2, None, &[1, 2, 3, 4]);
    let mut b = Bitmap::load_res(&data).unwrap();
    assert_eq!(b.with_size(1, 2), Err(RenderError::InvalidScale));
    assert_eq!(b.pixel_data(), &[1, 2, 3, 4]);
    assert_eq!(b.get_render_width(), 2);
}

#[test]
fn scale_by_zero_is_refused() {
    let data = sprite_bytes(2, 1, None, &[0xA, 0xB]);
    let mut b = Bitmap::load_res(&data).unwrap();
    assert_eq!(b.with_scale(0), Err(RenderError::InvalidScale));
    assert_eq!(b.pixel_data(), &[0xA, 0xB]);
    assert_eq!(b.get_render_width(), 2);
    assert_eq!(b.get_render_height(), 1);
}

#[test]
fn scale_of_empty_size_by_zero_stays_empty() {
    let mut b = Bitmap::new(0, 0);
    assert_eq!(b.with_scale(0), Ok(()));
    assert_eq!(b.get_render_width(), 0);
    assert_eq!(b.pixel_data().len(), 0);
}
