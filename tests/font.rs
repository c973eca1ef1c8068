use obj_viewer::font::{Font, FontError};

fn header(length: u32, height: u32, width: u32) -> Vec<u8> {
    let mut b = vec![0x72, 0xb5, 0x4a, 0x86];
    for field in [0u32, 32, 0, length, height, height, width] {
        b.extend_from_slice(&field.to_le_bytes());
    }
    b
}

#[test]
fn glyph_bits_become_bytes() {
    let mut b = header(2, 1, 8);
    b.extend_from_slice(&[0b1000_0001, 0b0101_0000]);
    let font = Font::from_psf2(&b).unwrap();
    assert_eq!(font.length, 2);
    assert_eq!(font.height, 1);
    assert_eq!(font.width, 8);
    assert_eq!(
        font.data,
        vec![255, 0, 0, 0, 0, 0, 0, 255, 0, 255, 0, 255, 0, 0, 0, 0]
    );
}

#[test]
fn bitmap_starts_at_declared_header_size() {
    let mut b = header(1, 1, 8);
    b[8..12].copy_from_slice(&36u32.to_le_bytes());
    b.extend_from_slice(&[0, 0, 0, 0, 0xff]);
    let font = Font::from_psf2(&b).unwrap();
    assert_eq!(font.data, vec![255; 8]);
}

#[test]
fn other_width_is_refused_with_width_error() {
    let mut b = header(1, 16, 16);
    b.extend_from_slice(&[0; 32]);
    assert_eq!(Font::from_psf2(&b), Err(FontError::UnsupportedWidth { width: 16 }));
}

#[test]
fn bad_magic_is_not_this_format() {
    let mut b = header(1, 1, 8);
    b[0] = 0x36;
    b.push(0);
    assert_eq!(Font::from_psf2(&b), Err(FontError::NotPsf2));
}

#[test]
fn truncated_resources_fail() {
    let b = header(2, 8, 8);
    assert_eq!(Font::from_psf2(&b), Err(FontError::Truncated));
    assert_eq!(Font::from_psf2(&b[..20]), Err(FontError::Truncated));
}

#[test]
fn resource_shorter_than_signature_is_not_this_format() {
    assert_eq!(Font::from_psf2(&[0x72, 0xb5]), Err(FontError::NotPsf2));
    assert_eq!(Font::from_psf2(&[]), Err(FontError::NotPsf2));
}
