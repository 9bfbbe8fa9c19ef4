use inky_display::{EPDType, InkyError, PascalString};

fn block(variant: u8) -> Vec<u8> {
    let mut b = vec![0x20, 0x03, 0xE0, 0x01, 6, 3, variant, 4];
    b.extend_from_slice(b"2024");
    b.resize(29, 0);
    b
}

#[test]
fn short_block_is_rejected() {
    let b = block(22);
    assert!(matches!(EPDType::from_bytes(&b[..28]), Err(InkyError::ShortRead)));
    assert!(matches!(EPDType::from_bytes(&[]), Err(InkyError::ShortRead)));
}

#[test]
fn wrong_variant_is_rejected() {
    assert!(matches!(EPDType::from_bytes(&block(21)), Err(InkyError::UnsupportedPanel(21))));
}

#[test]
fn well_formed_block_parses() {
    let t = EPDType::from_bytes(&block(22)).unwrap();
    assert_eq!(t.width, 800);
    assert_eq!(t.height, 480);
    assert_eq!(t.colour, 6);
    assert_eq!(t.pcb_variant, 3);
    assert_eq!(t.display_variant, 22);
    assert_eq!(t.eeprom_write_time.len, 4);
    assert_eq!(&t.eeprom_write_time.chars[..4], b"2024");
    assert_eq!(t.eeprom_write_time.chars.len(), 255);
    assert!(t.eeprom_write_time.chars[4..].iter().all(|&c| c == 0));
}

#[test]
fn longer_block_fills_label() {
    let mut b = block(22);
    b.extend_from_slice(b"XYZ");
    let t = EPDType::from_bytes(&b).unwrap();
    assert_eq!(&t.eeprom_write_time.chars[21..24], b"XYZ");
}

#[test]
fn pascal_string_with_len() {
    let s = PascalString::with_len(7);
    assert_eq!(s.len, 7);
    assert_eq!(s.chars, vec![0u8; 255]);
}
