use vstd::prelude::*;

verus! {

/// What can go wrong while identifying, configuring or feeding the panel.
///
/// Bus and line failures belong to whoever drives the hardware.
#[derive(Debug, Clone, Copy, PartialEq, Eq)]
pub enum InkyError {
    /// The identity block is shorter than its fixed size.
    ShortRead,
    /// The identity block names a display variant other than the supported one.
    UnsupportedPanel(u8),
    /// A saturation (in thousandths) outside `0..=1000`.
    InvalidSaturation(i32),
    /// An image whose width and height differ from the panel's.
    InvalidDimensions(u32, u32),
}

} // verus!
