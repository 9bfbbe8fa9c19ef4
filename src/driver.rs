use crate::error::InkyError;
use crate::identity::EPDType;
use crate::palette::{is_blend, Palette, SATURATION_SCALE};
use crate::raster::{
    dithered, quantise_and_dither_image, quantise_image, quantised, RgbRaster,
};
use crate::space::ColourSpace;
use vstd::prelude::*;

verus! {

/// The colours the panel can show, by their index on the wire.
#[derive(Debug, Clone, Copy, PartialEq, Eq, Hash)]
pub enum InkyColour {
    Black,
    Blue,
    Yellow,
    Red,
    Green,
    White,
}

impl InkyColour {
    /// The index of the colour on the wire.
    pub open spec fn index(self) -> int {
        match self {
            InkyColour::Black => 0,
            InkyColour::Blue => 1,
            InkyColour::Yellow => 2,
            InkyColour::Red => 3,
            InkyColour::Green => 4,
            InkyColour::White => 5,
        }
    }

    /// The colour of a wire index; anything out of range is white.
    pub open spec fn of_index(v: int) -> InkyColour {
        if v == 0 {
            InkyColour::Black
        } else if v == 1 {
            InkyColour::Blue
        } else if v == 2 {
            InkyColour::Yellow
        } else if v == 3 {
            InkyColour::Red
        } else if v == 4 {
            InkyColour::Green
        } else {
            InkyColour::White
        }
    }

    /// The index of the colour on the wire.
    pub fn as_index(self) -> (r: u8)
        ensures
            r == self.index(),
    {
        match self {
            InkyColour::Black => 0,
            InkyColour::Blue => 1,
            InkyColour::Yellow => 2,
            InkyColour::Red => 3,
            InkyColour::Green => 4,
            InkyColour::White => 5,
        }
    }
}

impl From<u8> for InkyColour {
    fn from(value: u8) -> (r: Self) {
        if value == 0 {
            InkyColour::Black
        } else if value == 1 {
            InkyColour::Blue
        } else if value == 2 {
            InkyColour::Yellow
        } else if value == 3 {
            InkyColour::Red
        } else if value == 4 {
            InkyColour::Green
        } else {
            InkyColour::White
        }
    }
}

impl vstd::std_specs::convert::FromSpecImpl<u8> for InkyColour {
    open spec fn obeys_from_spec() -> bool {
        true
    }

    open spec fn from_spec(v: u8) -> InkyColour {
        InkyColour::of_index(v as int)
    }
}

/// State of the indicator LED.
#[derive(Debug, Clone, Copy)]
pub enum LedState {
    Off,
    On,
}

impl LedState {
    /// The level to drive the LED line to.
    pub fn level(self) -> (r: u8)
        ensures
            r == (if self is On {
                1u8
            } else {
                0u8
            }),
    {
        match self {
            LedState::Off => 0,
            LedState::On => 1,
        }
    }
}

/// Panel width in pixels.
pub const WIDTH: usize = 800;

/// Panel height in pixels.
pub const HEIGHT: usize = 480;

/// The desaturated reference palette, by wire index.
pub open spec fn desaturated_colours() -> Seq<[u8; 3]> {
    seq![[0, 0, 0], [255, 255, 255], [255, 255, 0], [255, 0, 0], [0, 255, 0], [255, 255, 255]]
}

/// The saturated reference palette, by wire index.
pub open spec fn saturated_colours() -> Seq<[u8; 3]> {
    seq![[0, 0, 0], [161, 164, 165], [208, 190, 71], [156, 72, 75], [58, 91, 70], [255, 255, 255]]
}

fn desaturated_palette() -> (r: Vec<[u8; 3]>)
    ensures
        r@ == desaturated_colours(),
{
    let r = vec![[0, 0, 0], [255, 255, 255], [255, 255, 0], [255, 0, 0], [0, 255, 0], [255, 255, 255]];
    proof {
        assert(r@ =~= desaturated_colours());
    }
    r
}

fn saturated_palette() -> (r: Vec<[u8; 3]>)
    ensures
        r@ == saturated_colours(),
{
    let r = vec![[0, 0, 0], [161, 164, 165], [208, 190, 71], [156, 72, 75], [58, 91, 70], [255, 255, 255]];
    proof {
        assert(r@ =~= saturated_colours());
    }
    r
}

/// The panel's palette at saturation `s` (in thousandths) is the blend of the two
/// reference palettes.
pub open spec fn is_panel_palette(p: Palette, s: int) -> bool {
    &&& p.wf()
    &&& forall|i: int|
        0 <= i < 6 ==> is_blend(#[trigger] p@[i], desaturated_colours()[i], saturated_colours()[i], s)
}

/// The panel: its identity, the palette and colour space used to reduce images,
/// and one palette index per pixel, row by row.
#[derive(Debug)]
pub struct Inky {
    pub eeprom: EPDType,
    pub buf: Vec<InkyColour>,
    pub palette: Palette,
    pub colour_space: ColourSpace,
}

impl Inky {
    /// One buffer entry per pixel and a six-colour palette.
    pub open spec fn wf(&self) -> bool {
        &&& self.buf@.len() == WIDTH * HEIGHT
        &&& self.palette.wf()
    }

    /// A panel with the given identity, its palette blended at `saturation`
    /// (thousandths), CIELAB as colour space, and every pixel white.
    ///
    /// Fails with `InvalidSaturation` when the saturation is outside `0..=1000`.
    pub fn from_eeprom(eeprom: EPDType, saturation: i32) -> (r: Result<Self, InkyError>)
        ensures
            r is Ok <==> 0 <= saturation <= SATURATION_SCALE,
            r is Err ==> r == Err::<Self, InkyError>(InkyError::InvalidSaturation(saturation)),
            r is Ok ==> {
                let inky = r->Ok_0;
                &&& inky.wf()
                &&& inky.eeprom == eeprom
                &&& is_panel_palette(inky.palette, saturation as int)
                &&& inky.colour_space == ColourSpace::CIELAB
                &&& forall|i: int| 0 <= i < WIDTH * HEIGHT ==> #[trigger] inky.buf@[i] == InkyColour::White
            },
    {
        let desat = desaturated_palette();
        let sat = saturated_palette();
        let palette = match Palette::from_blend(desat.as_slice(), sat.as_slice(), saturation) {
            Ok(p) => p,
            Err(e) => {
                return Err(e);
            },
        };
        let n = WIDTH * HEIGHT;
        let mut buf: Vec<InkyColour> = Vec::new();
        let mut i: usize = 0;
        while i < n
            invariant
                i <= n == WIDTH * HEIGHT,
                buf@.len() == i,
                forall|j: int| 0 <= j < i ==> #[trigger] buf@[j] == InkyColour::White,
            decreases n - i,
        {
            buf.push(InkyColour::White);
            i = i + 1;
        }
        Ok(Inky { eeprom, buf, palette, colour_space: ColourSpace::CIELAB })
    }

    /// Reduces `image` to the palette, with Floyd–Steinberg dithering when asked,
    /// and sets the buffer to the palette index of each resulting pixel.
    ///
    /// Fails with `InvalidDimensions`, changing nothing, when the image is not
    /// exactly the panel's size.
    pub fn set_image(&mut self, image: &mut RgbRaster, should_dither: bool) -> (r: Result<(), InkyError>)
        requires
            old(self).wf(),
            old(image).wf(),
        ensures
            (old(image).width != WIDTH || old(image).height != HEIGHT) ==> {
                &&& r == Err::<(), InkyError>(InkyError::InvalidDimensions(old(image).width, old(image).height))
                &&& *final(self) == *old(self)
                &&& *final(image) == *old(image)
            },
            (old(image).width == WIDTH && old(image).height == HEIGHT) ==> {
                &&& r is Ok
                &&& final(self).wf()
                &&& final(self).eeprom == old(self).eeprom
                &&& final(self).palette == old(self).palette
                &&& final(self).colour_space == old(self).colour_space
                &&& final(image).width == old(image).width
                &&& final(image).height == old(image).height
                &&& final(image).pixels@ == if should_dither {
                    dithered(old(image).pixels@, WIDTH as int, HEIGHT as int, old(self).palette, old(self).colour_space)
                } else {
                    quantised(old(image).pixels@, old(self).palette, old(self).colour_space)
                }
                &&& forall|i: int| 0 <= i < WIDTH * HEIGHT ==> #[trigger] final(self).buf@[i]
                    == InkyColour::of_index(old(self).palette.index_of(final(image).pixels@[i]))
            },
    {
        if image.width as usize != WIDTH || image.height as usize != HEIGHT {
            return Err(InkyError::InvalidDimensions(image.width, image.height));
        }
        if should_dither {
            quantise_and_dither_image(image, &self.palette, self.colour_space);
        } else {
            quantise_image(image, &self.palette, self.colour_space);
        }
        let n = WIDTH * HEIGHT;
        let mut i: usize = 0;
        while i < n
            invariant
                n == WIDTH * HEIGHT,
                i <= n,
                self.buf@.len() == n,
                image.pixels@.len() == n,
                self.palette.wf(),
                self.palette == old(self).palette,
                self.eeprom == old(self).eeprom,
                self.colour_space == old(self).colour_space,
                forall|j: int| 0 <= j < i ==> #[trigger] self.buf@[j]
                    == InkyColour::of_index(self.palette.index_of(image.pixels@[j])),
            decreases n - i,
        {
            let idx = self.palette.to_idx(&image.pixels[i]);
            self.buf.set(i, InkyColour::from(idx));
            i = i + 1;
        }
        Ok(())
    }

    /// Fills the buffer with a diagonal stripe test pattern: pixel `i` gets index
    /// `(i * WIDTH / 6) mod 6`.
    pub fn set_stripes(&mut self)
        requires
            old(self).wf(),
        ensures
            final(self).wf(),
            final(self).eeprom == old(self).eeprom,
            final(self).palette == old(self).palette,
            final(self).colour_space == old(self).colour_space,
            forall|i: int| 0 <= i < WIDTH * HEIGHT ==> #[trigger] final(self).buf@[i]
                == InkyColour::of_index((i * WIDTH as int / 6) % 6),
    {
        let total = HEIGHT * WIDTH;
        let mut i: usize = 0;
        while i < total
            invariant
                total == WIDTH * HEIGHT,
                i <= total,
                self.buf@.len() == total,
                self.palette.wf(),
                self.palette == old(self).palette,
                self.eeprom == old(self).eeprom,
                self.colour_space == old(self).colour_space,
                forall|j: int| 0 <= j < i ==> #[trigger] self.buf@[j]
                    == InkyColour::of_index((j * WIDTH as int / 6) % 6),
            decreases total - i,
        {
            let v = ((i * WIDTH / 6) % 6) as u8;
            self.buf.set(i, InkyColour::from(v));
            i = i + 1;
        }
    }

    /// Rebuilds the palette at a new saturation (thousandths); the buffer keeps its
    /// contents until the next image.
    ///
    /// Fails with `InvalidSaturation`, changing nothing, when the saturation is
    /// outside `0..=1000`.
    pub fn set_saturation(&mut self, saturation: i32) -> (r: Result<(), InkyError>)
        requires
            old(self).wf(),
        ensures
            r is Ok <==> 0 <= saturation <= SATURATION_SCALE,
            r is Err ==> r == Err::<(), InkyError>(InkyError::InvalidSaturation(saturation))
                && *final(self) == *old(self),
            r is Ok ==> {
                &&& final(self).wf()
                &&& is_panel_palette(final(self).palette, saturation as int)
                &&& final(self).buf == old(self).buf
                &&& final(self).eeprom == old(self).eeprom
                &&& final(self).colour_space == old(self).colour_space
            },
    {
        let desat = desaturated_palette();
        let sat = saturated_palette();
        match Palette::from_blend(desat.as_slice(), sat.as_slice(), saturation) {
            Ok(p) => {
                self.palette = p;
                Ok(())
            },
            Err(e) => Err(e),
        }
    }

    /// The buffer packed two pixels per byte.
    pub fn packed_buffer(&self) -> (r: Vec<u8>)
        requires
            self.wf(),
        ensures
            r@ == packed(self.buf@),
    {
        pack_buffer(self.buf.as_slice())
    }
}

/// Two pixels per byte: the even-indexed pixel in the high nibble, the next one in
/// the low nibble.
pub open spec fn packed(buf: Seq<InkyColour>) -> Seq<u8> {
    Seq::new(
        (buf.len() / 2) as nat,
        |k: int| (16 * buf[2 * k].index() + buf[2 * k + 1].index()) as u8,
    )
}

/// Packs palette indices two pixels per byte, the first of each pair in the high
/// nibble.
pub fn pack_buffer(buf: &[InkyColour]) -> (r: Vec<u8>)
    requires
        buf@.len() % 2 == 0,
    ensures
        r@ == packed(buf@),
{
    let len = buf.len();
    let n = len / 2;
    let mut res: Vec<u8> = Vec::new();
    let mut k: usize = 0;
    while k < n
        invariant
            len == buf@.len(),
            n == len / 2,
            buf@.len() % 2 == 0,
            k <= n,
            res@.len() == k,
            forall|j: int| 0 <= j < k ==> #[trigger] res@[j] == packed(buf@)[j],
        decreases n - k,
    {
        assert(2 * k + 1 < buf@.len());
        let l = buf[2 * k].as_index();
        let r = buf[2 * k + 1].as_index();
        res.push(l * 16 + r);
        k = k + 1;
    }
    proof {
        assert(res@ =~= packed(buf@));
    }
    res
}

} // verus!
