use inky_display::{ColourSpace, InkyError, Palette};

const DESAT: [[u8; 3]; 6] = [
    [0, 0, 0],
    [255, 255, 255],
    [255, 255, 0],
    [255, 0, 0],
    [0, 255, 0],
    [255, 255, 255],
];

const SAT: [[u8; 3]; 6] = [
    [0, 0, 0],
    [161, 164, 165],
    [208, 190, 71],
    [156, 72, 75],
    [58, 91, 70],
    [255, 255, 255],
];

#[test]
fn blend_at_zero_is_desaturated() {
    let p = Palette::from_blend(&DESAT, &SAT, 0).unwrap();
    assert_eq!(p.get_colours(), &DESAT[..]);
}

#[test]
fn blend_at_one_is_saturated() {
    let p = Palette::from_blend(&DESAT, &SAT, 1000).unwrap();
    assert_eq!(p.get_colours(), &SAT[..]);
}

#[test]
fn blend_halfway_rounds() {
    let p = Palette::from_blend(&DESAT, &SAT, 500).unwrap();
    // (255 + 161) / 2 = 208, (255 + 164) / 2 = 209.5 -> 210, (255 + 165) / 2 = 210
    assert_eq!(p.get_colours()[1], [208, 210, 210]);
    assert_eq!(p.get_colours()[0], [0, 0, 0]);
}

#[test]
fn blend_rejects_out_of_range() {
    assert!(matches!(
        Palette::from_blend(&DESAT, &SAT, -1),
        Err(InkyError::InvalidSaturation(-1))
    ));
    assert!(matches!(
        Palette::from_blend(&DESAT, &SAT, 1001),
        Err(InkyError::InvalidSaturation(1001))
    ));
}

#[test]
fn closest_colour_of_member_is_member() {
    for sat in [0, 500, 1000] {
        let p = Palette::from_blend(&DESAT, &SAT, sat).unwrap();
        for space in [ColourSpace::RGB, ColourSpace::CIELAB] {
            for c in p.get_colours() {
                let r = p.closest_colour(space, c);
                assert_eq!(r, *c);
                assert_eq!(space.distance_sq(r, *c), 0);
            }
        }
    }
}

#[test]
fn closest_colour_picks_nearest() {
    let p = Palette::from_blend(&DESAT, &SAT, 0).unwrap();
    assert_eq!(p.closest_colour(ColourSpace::RGB, &[200, 30, 20]), [255, 0, 0]);
    assert_eq!(p.closest_colour(ColourSpace::RGB, &[20, 30, 20]), [0, 0, 0]);
    assert_eq!(p.closest_colour(ColourSpace::CIELAB, &[250, 240, 30]), [255, 255, 0]);
    assert_eq!(p.closest_colour(ColourSpace::CIELAB, &[10, 200, 10]), [0, 255, 0]);
}

#[test]
fn closest_colour_ties_go_to_first() {
    let cols = [
        [0, 0, 0],
        [0, 0, 254],
        [255, 255, 255],
        [255, 255, 255],
        [255, 255, 255],
        [255, 255, 255],
    ];
    let p = Palette::from_blend(&cols, &cols, 300).unwrap();
    // [0, 0, 127] is 127^2 from both black and [0, 0, 254].
    assert_eq!(p.closest_colour(ColourSpace::RGB, &[0, 0, 127]), [0, 0, 0]);
    assert_eq!(p.closest_colour(ColourSpace::RGB, &[0, 0, 128]), [0, 0, 254]);
}

#[test]
fn to_idx_exact_and_fallback() {
    let p = Palette::from_blend(&DESAT, &SAT, 0).unwrap();
    assert_eq!(p.to_idx(&[255, 0, 0]), 3);
    assert_eq!(p.to_idx(&[0, 255, 0]), 4);
    // White is at 1 and 5: the first match wins.
    assert_eq!(p.to_idx(&[255, 255, 255]), 1);
    // Not a palette colour: index 0.
    assert_eq!(p.to_idx(&[1, 2, 3]), 0);
}

#[test]
fn palette_from_colours() {
    let p = Palette::from_colours(SAT);
    assert_eq!(p.get_colours(), &SAT[..]);
    assert_eq!(p.to_idx(&[156, 72, 75]), 3);
    assert_eq!(p.closest_colour(ColourSpace::CIELAB, &[160, 70, 70]), [156, 72, 75]);
}
