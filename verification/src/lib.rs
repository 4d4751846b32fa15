//! Turns comma-separated invoice lines into QR code rasters.
//!
//! A line is trimmed, split on commas and stripped of empty fields. A line that
//! keeps at least five fields contributes one entry to an output mapping: the
//! third field names the image file, and the fields joined by a space or a tab
//! are the payload to encode. Each payload is then encoded as a QR symbol and
//! rasterised into an 8-bit greyscale image, one pixel per module.
//!
//! Every function is verified with Verus against the models in [`text`] and
//! [`parser`]; the QR encoding itself is delegated to the `qrcode` crate.

pub mod mapping;
pub mod parser;
pub mod raster;
pub mod record;
pub mod symbol;
pub mod text;

pub use mapping::OutputMapping;
pub use parser::parse_data_from_line;
pub use raster::{generate, rasterize, GrayImage};
pub use symbol::{encode, EncodingError, QrMatrix};
