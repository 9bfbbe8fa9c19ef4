use inky_display::{
    pack_buffer, EPDType, Inky, InkyColour, InkyError, LedState, RgbRaster, HEIGHT, WIDTH,
};

fn identity() -> EPDType {
    let mut b = vec![0x20, 0x03, 0xE0, 0x01, 6, 3, 22, 0];
    b.resize(29, 0);
    EPDType::from_bytes(&b).unwrap()
}

fn inky() -> Inky {
    Inky::from_eeprom(identity(), 500).unwrap()
}

#[test]
fn new_panel_is_white() {
    let i = inky();
    assert_eq!(i.buf.len(), WIDTH * HEIGHT);
    assert!(i.buf.iter().all(|&c| c == InkyColour::White));
}

#[test]
fn new_panel_rejects_bad_saturation() {
    assert!(matches!(Inky::from_eeprom(identity(), 1500), Err(InkyError::InvalidSaturation(1500))));
}

#[test]
fn set_image_wrong_size_leaves_buffer() {
    let mut i = inky();
    i.set_stripes();
    let before = i.buf.clone();
    let mut img = RgbRaster::from_pixel(10, 10, [255, 0, 0]);
    let r = i.set_image(&mut img, false);
    assert_eq!(r, Err(InkyError::InvalidDimensions(10, 10)));
    assert_eq!(i.buf, before);
    assert_eq!(img.pixels, vec![[255, 0, 0]; 100]);
}

#[test]
fn set_image_sets_indices() {
    let mut i = Inky::from_eeprom(identity(), 0).unwrap();
    let mut img = RgbRaster::from_pixel(800, 480, [250, 5, 5]);
    img.pixels[1] = [5, 5, 5];
    img.pixels[2] = [5, 250, 5];
    assert_eq!(i.set_image(&mut img, false), Ok(()));
    assert_eq!(i.buf[0], InkyColour::Red);
    assert_eq!(i.buf[1], InkyColour::Black);
    assert_eq!(i.buf[2], InkyColour::Green);
    assert_eq!(img.pixels[0], [255, 0, 0]);
}

#[test]
fn set_image_with_dither() {
    let mut i = Inky::from_eeprom(identity(), 0).unwrap();
    let mut img = RgbRaster::from_pixel(800, 480, [255, 255, 255]);
    assert_eq!(i.set_image(&mut img, true), Ok(()));
    // White is at index 1 and 5 of the palette; the first exact match wins.
    assert!(i.buf.iter().all(|&c| c == InkyColour::Blue));
}

#[test]
fn stripes_pattern() {
    let mut i = inky();
    i.set_stripes();
    for k in [0usize, 1, 2, 3, 1000, WIDTH * HEIGHT - 1] {
        let v = ((k * WIDTH / 6) % 6) as u8;
        assert_eq!(i.buf[k], InkyColour::from(v));
    }
    assert_eq!(i.buf[0], InkyColour::Black);
    assert_eq!(i.buf[1], InkyColour::Blue);
}

#[test]
fn saturation_change() {
    let mut i = inky();
    assert_eq!(i.set_saturation(-5), Err(InkyError::InvalidSaturation(-5)));
    assert_eq!(i.palette.get_colours()[1], [208, 210, 210]);
    assert_eq!(i.set_saturation(1000), Ok(()));
    assert_eq!(i.palette.get_colours()[1], [161, 164, 165]);
    assert!(i.buf.iter().all(|&c| c == InkyColour::White));
}

#[test]
fn pack_two_per_byte() {
    let buf = [InkyColour::Yellow, InkyColour::White, InkyColour::Black, InkyColour::Red];
    assert_eq!(pack_buffer(&buf), vec![0x25, 0x03]);
}

#[test]
fn packed_panel_buffer() {
    let i = inky();
    let p = i.packed_buffer();
    assert_eq!(p.len(), WIDTH * HEIGHT / 2);
    assert!(p.iter().all(|&b| b == 0x55));
}

#[test]
fn colour_indices() {
    assert_eq!(InkyColour::from(3), InkyColour::Red);
    assert_eq!(InkyColour::from(9), InkyColour::White);
    assert_eq!(InkyColour::Green.as_index(), 4);
    assert_eq!(LedState::On.level(), 1);
    assert_eq!(LedState::Off.level(), 0);
}
