use crate::error::InkyError;
use vstd::prelude::*;

verus! {

/// Size in bytes of the identity block.
pub const EEPROM_SIZE: usize = 29;

/// The display variant of the supported panel (Spectra 6, 7.3", 800 x 480).
pub const SUPPORTED_DISPLAY_VARIANT: u8 = 22;

/// Room for the characters of a length-prefixed string.
pub const PASCAL_CAPACITY: usize = 255;

/// A length-prefixed string: `len` followed by room for 255 characters.
#[derive(Debug, Clone)]
pub struct PascalString {
    pub len: u8,
    pub chars: Vec<u8>,
}

impl PascalString {
    /// The characters that the length covers.
    pub open spec fn text(&self) -> Seq<u8> {
        self.chars@.take(self.len as int)
    }

    /// An empty string of the given length: every character is zero.
    pub fn with_len(len: u8) -> (r: Self)
        ensures
            r.len == len,
            r.chars@ == Seq::new(PASCAL_CAPACITY as nat, |_i: int| 0u8),
    {
        let mut chars: Vec<u8> = Vec::new();
        let mut i: usize = 0;
        while i < PASCAL_CAPACITY
            invariant
                i <= PASCAL_CAPACITY,
                chars@ == Seq::new(i as nat, |_i: int| 0u8),
            decreases PASCAL_CAPACITY - i,
        {
            chars.push(0);
            i = i + 1;
            proof {
                assert(chars@ =~= Seq::new(i as nat, |_i: int| 0u8));
            }
        }
        PascalString { len, chars }
    }
}

/// The little-endian 16-bit integer of two bytes.
pub open spec fn le_u16(lo: u8, hi: u8) -> int {
    lo as int + 256 * hi as int
}

/// The characters of the label: the bytes after the length byte, as many as fit,
/// then zeros.
pub open spec fn label_chars(data: Seq<u8>) -> Seq<u8> {
    Seq::new(
        PASCAL_CAPACITY as nat,
        |j: int|
            if 8 + j < data.len() {
                data[8 + j]
            } else {
                0u8
            },
    )
}

/// Geometry and revision of the attached panel, as read from its identity block.
#[derive(Debug, Clone)]
pub struct EPDType {
    pub width: u16,
    pub height: u16,
    pub colour: u8,
    pub pcb_variant: u8,
    pub display_variant: u8,
    pub eeprom_write_time: PascalString,
}

/// Reads a little-endian 16-bit integer.
fn read_u16_le(lo: u8, hi: u8) -> (r: u16)
    ensures
        r == le_u16(lo, hi),
{
    (lo as u16) + (hi as u16) * 256
}

impl EPDType {
    /// Parses an identity block: width and height (little-endian 16-bit), colour
    /// count, PCB variant, display variant, then a length byte and the label.
    ///
    /// Fails with `ShortRead` on fewer than 29 bytes and with `UnsupportedPanel`
    /// when the display variant is not the supported one.
    pub fn from_bytes(data: &[u8]) -> (r: Result<Self, InkyError>)
        ensures
            data@.len() < EEPROM_SIZE ==> r == Err::<Self, InkyError>(InkyError::ShortRead),
            data@.len() >= EEPROM_SIZE && data@[6] != SUPPORTED_DISPLAY_VARIANT ==> r == Err::<
                Self,
                InkyError,
            >(InkyError::UnsupportedPanel(data@[6])),
            r is Ok <==> data@.len() >= EEPROM_SIZE && data@[6] == SUPPORTED_DISPLAY_VARIANT,
            r is Ok ==> {
                let t = r->Ok_0;
                &&& t.width == le_u16(data@[0], data@[1])
                &&& t.height == le_u16(data@[2], data@[3])
                &&& t.colour == data@[4]
                &&& t.pcb_variant == data@[5]
                &&& t.display_variant == data@[6]
                &&& t.eeprom_write_time.len == data@[7]
                &&& t.eeprom_write_time.chars@ == label_chars(data@)
            },
    {
        if data.len() < EEPROM_SIZE {
            return Err(InkyError::ShortRead);
        }
        let width = read_u16_le(data[0], data[1]);
        let height = read_u16_le(data[2], data[3]);
        let colour = data[4];
        let pcb_variant = data[5];
        let display_variant = data[6];
        if display_variant != SUPPORTED_DISPLAY_VARIANT {
            return Err(InkyError::UnsupportedPanel(display_variant));
        }
        let mut eeprom_write_time = PascalString::with_len(data[7]);
        let mut j: usize = 0;
        while j < PASCAL_CAPACITY && 8 + j < data.len()
            invariant
                j <= PASCAL_CAPACITY,
                8 + j <= data@.len(),
                data@.len() >= EEPROM_SIZE,
                eeprom_write_time.len == data@[7],
                eeprom_write_time.chars@.len() == PASCAL_CAPACITY,
                forall|i: int| 0 <= i < j ==> #[trigger] eeprom_write_time.chars@[i] == data@[8 + i],
                forall|i: int| j <= i < PASCAL_CAPACITY ==> #[trigger] eeprom_write_time.chars@[i] == 0u8,
            decreases PASCAL_CAPACITY - j,
        {
            eeprom_write_time.chars.set(j, data[8 + j]);
            j = j + 1;
        }
        proof {
            assert forall|i: int| 0 <= i < PASCAL_CAPACITY implies eeprom_write_time.chars@[i]
                == label_chars(data@)[i] by {
                if i < j {
                    assert(eeprom_write_time.chars@[i] == data@[8 + i]);
                } else {
                    assert(eeprom_write_time.chars@[i] == 0u8);
                }
            }
            assert(eeprom_write_time.chars@ =~= label_chars(data@));
        }
        Ok(EPDType { width, height, colour, pcb_variant, display_variant, eeprom_write_time })
    }
}

} // verus!
