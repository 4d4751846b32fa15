//! Greyscale rasters of QR symbols: one 8-bit pixel per module, black for a
//! dark module and white for a light one.

use crate::symbol::{encode, encoding, EncodingError, QrMatrix, Symbol, MAX_SIDE, MIN_SIDE};
use vstd::prelude::*;
use vstd::string::StringSliceAdditionalSpecFns;

verus! {

/// The pixel value of a dark module: black.
pub const DARK: u8 = 0;

/// The pixel value of a light module: white.
pub const LIGHT: u8 = 255;

/// The pixel value of a module.
pub open spec fn shade(dark: bool) -> u8 {
    if dark {
        DARK
    } else {
        LIGHT
    }
}

/// An 8-bit greyscale image as a mathematical value.
pub struct Raster {
    /// The number of pixels per row.
    pub width: nat,
    /// The number of rows.
    pub height: nat,
    /// The pixels row by row from the top left.
    pub pixels: Seq<u8>,
}

impl Raster {
    /// There is one pixel for each place of the rectangle.
    pub open spec fn is_rectangle(self) -> bool {
        self.pixels.len() == self.width * self.height
    }
}

/// The raster of a symbol: as wide and as high as the symbol has modules per
/// side, each pixel the shade of the module in its place.
pub open spec fn raster_of(symbol: Symbol) -> Raster {
    Raster {
        width: symbol.side,
        height: symbol.side,
        pixels: symbol.modules.map_values(|dark: bool| shade(dark)),
    }
}

/// An 8-bit greyscale image with a single channel.
#[derive(Debug, PartialEq, Eq)]
pub struct GrayImage {
    width: usize,
    height: usize,
    pixels: Vec<u8>,
}

impl View for GrayImage {
    type V = Raster;

    closed spec fn view(&self) -> Raster {
        Raster { width: self.width as nat, height: self.height as nat, pixels: self.pixels@ }
    }
}

impl GrayImage {
    #[verifier::type_invariant]
    spec fn rectangle(&self) -> bool {
        self.pixels@.len() == self.width * self.height
    }

    /// The number of pixels per row.
    pub fn width(&self) -> (width: usize)
        ensures
            width == self@.width,
            self@.is_rectangle(),
    {
        proof {
            use_type_invariant(self);
        }
        self.width
    }

    /// The number of rows.
    pub fn height(&self) -> (height: usize)
        ensures
            height == self@.height,
            self@.is_rectangle(),
    {
        proof {
            use_type_invariant(self);
        }
        self.height
    }

    /// The pixels row by row from the top left.
    pub fn pixels(&self) -> (pixels: &Vec<u8>)
        ensures
            pixels@ == self@.pixels,
            self@.is_rectangle(),
    {
        proof {
            use_type_invariant(self);
        }
        &self.pixels
    }

    /// Gives up the image for its pixels, row by row from the top left.
    pub fn into_raw(self) -> (pixels: Vec<u8>)
        ensures
            pixels@ == self@.pixels,
            self@.is_rectangle(),
    {
        proof {
            use_type_invariant(&self);
        }
        self.pixels
    }
}

/// Draws `matrix` with one pixel per module.
pub fn rasterize(matrix: &QrMatrix) -> (image: GrayImage)
    ensures
        image@ == raster_of(matrix@),
        image@.is_rectangle(),
{
    let side: usize = matrix.side();
    let modules = matrix.modules();
    let mut pixels: Vec<u8> = Vec::new();
    let mut i: usize = 0;
    while i < modules.len()
        invariant
            i <= modules.len(),
            pixels@ == modules@.take(i as int).map_values(|dark: bool| shade(dark)),
        decreases modules.len() - i,
    {
        let pixel: u8 = if modules[i] {
            DARK
        } else {
            LIGHT
        };
        pixels.push(pixel);
        i += 1;
    }
    assert(modules@.take(i as int) == modules@);
    GrayImage { width: side, height: side, pixels }
}

/// What generating the image of `payload` comes to: the raster of the symbol
/// that encodes it, or the reason why there is none.
pub open spec fn generated(payload: Seq<u8>) -> Result<Raster, EncodingError> {
    match encoding(payload) {
        Ok(symbol) => Ok(raster_of(symbol)),
        Err(error) => Err(error),
    }
}

/// The outcome of generating an image as a mathematical value.
pub open spec fn raster_outcome(result: Result<GrayImage, EncodingError>) -> Result<
    Raster,
    EncodingError,
> {
    match result {
        Ok(image) => Ok(image@),
        Err(error) => Err(error),
    }
}

/// The raster of the QR symbol that encodes the UTF-8 bytes of `payload`.
/// Fails when no version of the symbol holds the payload, and when the
/// version that does is above version 10.
pub fn generate(payload: &str) -> (result: Result<GrayImage, EncodingError>)
    ensures
        raster_outcome(result) == generated(payload.spec_bytes()),
        result matches Ok(image) ==> {
            &&& image@.is_rectangle()
            &&& image@.width == image@.height
            &&& MIN_SIDE <= image@.width <= MAX_SIDE
        },
{
    match encode(payload.as_bytes()) {
        Ok(matrix) => Ok(rasterize(&matrix)),
        Err(error) => Err(error),
    }
}

} // verus!
