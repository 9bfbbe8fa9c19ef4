use inky_display::{quantise_and_dither_image, quantise_image, ColourSpace, Palette, RgbRaster};

const DESAT: [[u8; 3]; 6] = [
    [0, 0, 0],
    [255, 255, 255],
    [255, 255, 0],
    [255, 0, 0],
    [0, 255, 0],
    [255, 255, 255],
];

fn palette() -> Palette {
    Palette::from_blend(&DESAT, &DESAT, 0).unwrap()
}

fn raster(width: u32, height: u32, pixels: Vec<[u8; 3]>) -> RgbRaster {
    assert_eq!(pixels.len(), (width * height) as usize);
    RgbRaster { width, height, pixels }
}

#[test]
fn from_pixel_fills() {
    let r = RgbRaster::from_pixel(3, 2, [1, 2, 3]);
    assert_eq!(r.width, 3);
    assert_eq!(r.height, 2);
    assert_eq!(r.pixels, vec![[1, 2, 3]; 6]);
}

#[test]
fn quantise_maps_each_pixel() {
    let mut img = raster(2, 2, vec![[250, 10, 10], [10, 10, 10], [240, 240, 240], [30, 220, 40]]);
    quantise_image(&mut img, &palette(), ColourSpace::RGB);
    assert_eq!(img.pixels, vec![[255, 0, 0], [0, 0, 0], [255, 255, 255], [0, 255, 0]]);
    assert_eq!((img.width, img.height), (2, 2));
}

#[test]
fn quantise_is_idempotent() {
    for space in [ColourSpace::RGB, ColourSpace::CIELAB] {
        let mut img = raster(
            3,
            2,
            vec![[12, 143, 208], [200, 200, 20], [90, 90, 90], [1, 2, 3], [255, 128, 0], [70, 200, 120]],
        );
        quantise_image(&mut img, &palette(), space);
        let once = img.pixels.clone();
        quantise_image(&mut img, &palette(), space);
        assert_eq!(img.pixels, once);
    }
}

#[test]
fn dither_grey_square() {
    let mut img = raster(3, 3, vec![[100, 100, 100]; 9]);
    quantise_and_dither_image(&mut img, &palette(), ColourSpace::RGB);
    assert_eq!(
        img.pixels,
        vec![
            [0, 0, 0],
            [0, 0, 0],
            [255, 255, 255],
            [19, 19, 19],
            [255, 255, 255],
            [0, 0, 0],
            [0, 0, 0],
            [0, 0, 0],
            [0, 0, 0],
        ]
    );
}

#[test]
fn dither_red_block() {
    let mut img = raster(4, 3, vec![[200, 50, 50]; 12]);
    quantise_and_dither_image(&mut img, &palette(), ColourSpace::RGB);
    assert_eq!(
        img.pixels,
        vec![
            [255, 0, 0],
            [255, 0, 0],
            [255, 0, 0],
            [255, 0, 0],
            [245, 9, 9],
            [240, 14, 14],
            [255, 0, 0],
            [255, 0, 0],
            [242, 12, 12],
            [234, 20, 20],
            [255, 0, 0],
            [255, 0, 0],
        ]
    );
}

#[test]
fn dither_edges_only_quantise() {
    // In a single row or a two-column image every pixel is on an edge: nothing
    // is propagated, so dithering is plain quantisation.
    let row = vec![[100, 100, 100], [200, 60, 60], [30, 30, 200], [128, 128, 128]];
    let mut a = raster(4, 1, row.clone());
    let mut b = raster(4, 1, row);
    quantise_and_dither_image(&mut a, &palette(), ColourSpace::CIELAB);
    quantise_image(&mut b, &palette(), ColourSpace::CIELAB);
    assert_eq!(a.pixels, b.pixels);

    let cols = vec![[100, 100, 100], [200, 60, 60], [30, 30, 200], [128, 128, 128]];
    let mut a = raster(2, 2, cols.clone());
    let mut b = raster(2, 2, cols);
    quantise_and_dither_image(&mut a, &palette(), ColourSpace::RGB);
    quantise_image(&mut b, &palette(), ColourSpace::RGB);
    assert_eq!(a.pixels, b.pixels);
}

#[test]
fn dither_empty_image() {
    let mut img = raster(0, 5, vec![]);
    quantise_and_dither_image(&mut img, &palette(), ColourSpace::RGB);
    assert!(img.pixels.is_empty());
}

#[test]
fn dither_edge_pixel_changes_nothing_else() {
    let base: Vec<[u8; 3]> = (0..12u8).map(|i| [20 * i, 200 - 10 * i, 100]).collect();
    for edge in [4usize, 7, 9] {
        // (0, 1), (3, 1) and (1, 2) of a 4 by 3 image.
        let mut other = base.clone();
        other[edge] = [255 - other[edge][0], 3, 250];
        let mut a = raster(4, 3, base.clone());
        let mut b = raster(4, 3, other);
        quantise_and_dither_image(&mut a, &palette(), ColourSpace::RGB);
        quantise_and_dither_image(&mut b, &palette(), ColourSpace::RGB);
        for j in 0..12 {
            if j != edge {
                assert_eq!(a.pixels[j], b.pixels[j], "edge {edge}, pixel {j}");
            }
        }
    }
}
