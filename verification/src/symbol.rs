//! QR symbols: the square matrix of dark and light modules that encodes a
//! payload. The encoding itself is the work of the `qrcode` crate; what is
//! decided here is which payloads are handed to it.

use qrcode::bits::encode_auto;
use qrcode::types::{EcLevel, QrError, Version};
use qrcode::QrCode;
use vstd::prelude::*;

verus! {

/// The error type of the `qrcode` crate. It is carried through unread.
#[verifier::external_type_specification]
#[verifier::external_body]
pub struct ExQrError(QrError);

/// The version, 1 to 40, that `qrcode::bits::encode_auto` chooses for
/// `payload` at the medium error correction level. `None` where it reports
/// that no version holds the payload.
pub uninterp spec fn qr_version(payload: Seq<u8>) -> Option<nat>;

/// The symbol that `qrcode::QrCode::new` builds for `payload`: the number of
/// modules per side, and the modules row by row from the top left, `true` for
/// a dark one. `None` where it reports an error instead.
pub uninterp spec fn qr_symbol(payload: Seq<u8>) -> Option<(nat, Seq<bool>)>;

/// The greatest version of the symbol that is built here.
pub const MAX_VERSION: usize = 10;

/// The number of modules per side of the smallest symbol, version 1.
pub const MIN_SIDE: usize = 21;

/// The number of modules per side of the largest symbol built here.
pub const MAX_SIDE: usize = 57;

/// The number of modules per side of a symbol of the given version.
pub open spec fn side_of_version(version: nat) -> nat {
    4 * version + 17
}

/// Calls `qrcode::bits::encode_auto` at the medium error correction level and
/// reads the version of the result with `Bits::version`. The contract names
/// the outcome `qr_version`; that the version is one of 1 to 40 is what the
/// source shows of the search through its table of capacities.
#[verifier::external_body]
fn choose_version(payload: &[u8]) -> (result: Result<usize, QrError>)
    ensures
        match result {
            Ok(version) => qr_version(payload@) == Some(version as nat) && 1 <= version <= 40,
            Err(_) => qr_version(payload@) is None,
        },
{
    match encode_auto(payload, EcLevel::M) {
        Ok(bits) => match bits.version() {
            Version::Normal(number) => Ok(number as usize),
            Version::Micro(number) => Ok(number as usize),
        },
        Err(error) => Err(error),
    }
}

/// Calls `qrcode::QrCode::new`, which encodes the data at the medium error
/// correction level in the version that `encode_auto` chooses, and reads the
/// result with `QrCode::width` and `QrCode::into_colors`.
///
/// The crate picks the mask of a symbol by penalty scores that it adds up in
/// 16 bits. With `w` modules per side the sum is at most `2w(w-2)` for runs
/// of one colour, `3(w-1)^2` for blocks, 100 for balance, and for finder-like
/// patterns 40 for each occurrence less 720. An occurrence has four light
/// modules or the edge right before it or right behind it, and two
/// occurrences with them on the same side lie at least 11 modules apart, so a
/// line holds at most `2((w-7)/11+1)` of them. Up to version 10, with 57
/// modules per side, the sum is at most 60658 and fits. For large symbols
/// there are payloads whose sum does not fit, so the call is made up to
/// version 10 only.
///
/// The contract names the outcome `qr_symbol` and states the shape that the
/// source shows: the side follows from the version, and there is one module
/// for each place of the square.
#[verifier::external_body]
fn new_symbol(payload: &[u8]) -> (result: Result<(usize, Vec<bool>), QrError>)
    requires
        qr_version(payload@) matches Some(version) && version <= MAX_VERSION,
    ensures
        match result {
            Ok(symbol) => {
                &&& qr_symbol(payload@) == Some((symbol.0 as nat, symbol.1@))
                &&& symbol.0 == side_of_version(qr_version(payload@).unwrap())
                &&& symbol.1@.len() == symbol.0 * symbol.0
            },
            Err(_) => qr_symbol(payload@) is None,
        },
{
    match QrCode::new(payload) {
        Ok(code) => {
            let side: usize = code.width();
            Ok((side, code.into_colors().into_iter().map(|color| color.select(true, false)).collect()))
        },
        Err(error) => Err(error),
    }
}

/// Why a payload was not encoded.
#[derive(Debug, Clone, Copy, PartialEq, Eq)]
pub enum EncodingError {
    /// The payload does not fit into any version of the symbol.
    DataTooLong,
    /// The payload needs a version of the symbol above version 10.
    SymbolTooLarge,
}

/// A square matrix of modules as a mathematical value.
pub struct Symbol {
    /// The number of modules per side.
    pub side: nat,
    /// The modules row by row from the top left, `true` for a dark one.
    pub modules: Seq<bool>,
}

impl Symbol {
    /// There is one module for each place of the square.
    pub open spec fn is_square(self) -> bool {
        self.modules.len() == self.side * self.side
    }

    /// Whether the module in column `x` of row `y` is dark.
    pub open spec fn dark_at(self, x: int, y: int) -> bool {
        self.modules[y * self.side + x]
    }
}

/// What encoding `payload` comes to: the symbol that the `qrcode` crate builds
/// for it where it chooses a version up to 10, else the reason why there is
/// none.
pub open spec fn encoding(payload: Seq<u8>) -> Result<Symbol, EncodingError> {
    match qr_version(payload) {
        None => Err(EncodingError::DataTooLong),
        Some(version) => if version > MAX_VERSION {
            Err(EncodingError::SymbolTooLarge)
        } else {
            match qr_symbol(payload) {
                Some(symbol) => Ok(Symbol { side: symbol.0, modules: symbol.1 }),
                None => Err(EncodingError::DataTooLong),
            }
        },
    }
}

/// A QR symbol: a square matrix of dark and light modules.
#[derive(Debug, PartialEq, Eq)]
pub struct QrMatrix {
    side: usize,
    modules: Vec<bool>,
}

impl View for QrMatrix {
    type V = Symbol;

    closed spec fn view(&self) -> Symbol {
        Symbol { side: self.side as nat, modules: self.modules@ }
    }
}

/// The outcome of an encoding as a mathematical value.
pub open spec fn outcome(result: Result<QrMatrix, EncodingError>) -> Result<Symbol, EncodingError> {
    match result {
        Ok(matrix) => Ok(matrix@),
        Err(error) => Err(error),
    }
}

impl QrMatrix {
    #[verifier::type_invariant]
    spec fn square(&self) -> bool {
        self.modules@.len() == self.side * self.side
    }

    /// The matrix with the given side and modules, which are listed row by row
    /// from the top left; none unless there is one module for each place.
    pub fn new(side: usize, modules: Vec<bool>) -> (matrix: Option<Self>)
        ensures
            match matrix {
                Some(made) => {
                    &&& made@.side == side
                    &&& made@.modules == modules@
                    &&& made@.is_square()
                },
                None => modules@.len() != side * side,
            },
    {
        let count: usize = modules.len();
        match side.checked_mul(side) {
            Some(places) => {
                if count == places {
                    Some(QrMatrix { side, modules })
                } else {
                    None
                }
            },
            None => None,
        }
    }

    /// The number of modules per side.
    pub fn side(&self) -> (side: usize)
        ensures
            side == self@.side,
            self@.is_square(),
    {
        proof {
            use_type_invariant(self);
        }
        self.side
    }

    /// The modules row by row from the top left, `true` for a dark one.
    pub fn modules(&self) -> (modules: &Vec<bool>)
        ensures
            modules@ == self@.modules,
            self@.is_square(),
    {
        proof {
            use_type_invariant(self);
        }
        &self.modules
    }

    /// Whether the module in column `x` of row `y` is dark.
    pub fn is_dark(&self, x: usize, y: usize) -> (dark: bool)
        requires
            x < self@.side,
            y < self@.side,
        ensures
            dark == self@.dark_at(x as int, y as int),
    {
        proof {
            use_type_invariant(self);
            assert(self.modules.len() == self.side * self.side);
            assert(0 <= y * self.side && y * self.side + x < self.side * self.side)
                by (nonlinear_arith)
                requires
                    0 <= x < self.side,
                    0 <= y < self.side,
            ;
        }
        self.modules[y * self.side + x]
    }
}

/// Encodes `payload` as a QR symbol, at the medium error correction level and
/// in the smallest version that holds it. Fails when no version holds it, and
/// when the version that does is above version 10.
pub fn encode(payload: &[u8]) -> (result: Result<QrMatrix, EncodingError>)
    ensures
        outcome(result) == encoding(payload@),
        result matches Ok(matrix) ==> {
            &&& matrix@.is_square()
            &&& matrix@.side == side_of_version(qr_version(payload@).unwrap())
            &&& MIN_SIDE <= matrix@.side <= MAX_SIDE
        },
{
    match choose_version(payload) {
        Ok(version) => {
            if version > MAX_VERSION {
                Err(EncodingError::SymbolTooLarge)
            } else {
                match new_symbol(payload) {
                    Ok((side, modules)) => Ok(QrMatrix { side, modules }),
                    Err(_) => Err(EncodingError::DataTooLong),
                }
            }
        },
        Err(_) => Err(EncodingError::DataTooLong),
    }
}

} // verus!
