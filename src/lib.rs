//! Driver logic and colour reduction for a six-colour e-paper panel.
//!
//! The library identifies the panel from its identity block, builds its palette,
//! reduces RGB images to that palette (optionally with Floyd–Steinberg
//! dithering), and plans every bus and line operation of a display update; the
//! caller owns the hardware and carries the plans out.
//!
//! Colour values are fixed-point integers: linear light in millionths, CIE XYZ
//! in thousandths and CIELAB in millionths of a unit.
mod driver;
mod error;
mod identity;
mod palette;
mod protocol;
mod raster;
mod sources;
mod space;

pub use driver::{
    desaturated_colours, is_panel_palette, pack_buffer, packed, saturated_colours, Inky,
    InkyColour, LedState, HEIGHT, WIDTH,
};
pub use error::InkyError;
pub use identity::{
    label_chars, le_u16, EPDType, PascalString, EEPROM_SIZE, PASCAL_CAPACITY,
    SUPPORTED_DISPLAY_VARIANT,
};
pub use palette::{
    blend_channel, find_from, is_blend, lemma_blend_at_ends, lemma_closest_idempotent,
    lemma_closest_of_member, lemma_find_from, lemma_nearest_index, nearest_index, Palette,
    PALETTE_LEN, SATURATION_SCALE,
};
pub use protocol::{
    busy_next, busy_wait_next, chunk_at, command_signals, command_signals_spec, payload_chunks,
    payload_writes, setup_steps, update_plan, update_steps, views, BusyAction, BusyPhase, Signal,
    Step, StepSpec, BUSY_POLL_MS, COMMAND_SETTLE_MS, SPI_CHUNK_SIZE,
};
pub use raster::{
    agree_except, diffuse, diffuse_channel, dither_prefix, dither_step, dithered,
    lemma_dither_edge_independent, lemma_dither_step_local, lemma_dither_without_interior,
    lemma_quantised_idempotent, quantise_and_dither_image, quantise_image, quantised, RgbRaster,
};
pub use sources::{
    competition_code_to_name, competition_name, decimal, digit_char, digits_value, find_byte,
    format_match_date, get_weather_info, is_digit, match_date, month_name, parse_unsigned,
    port_of, unsigned_digits, weather_info, DayForecast, LineStatus, Match, ServerConfig, Weather,
    DEFAULT_PORT,
};
pub use space::{
    cube, cube_root, cube_root_of, fifth, fifth_root, fifth_root_of, lab_compress, lab_of,
    lab_of_xyz, lemma_distance_zero, lemma_reference_points, lemma_sq_dist_zero, linear_channel,
    rgb_to_xyz, sq_dist, xyz_of, xyz_of_linear, xyz_to_cielab, ColourSpace,
};
