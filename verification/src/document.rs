//! Scanned pages in the form in which they are kept.

use vstd::prelude::*;

verus! {

/// Width and height of an A4 page at 300 dots per inch.
pub const A4_WIDTH_PX: u32 = 2480;

pub const A4_HEIGHT_PX: u32 = 3508;

/// How a page's bytes are encoded — in RAM, in the session and in the PDF.
#[derive(Debug, Clone, Copy, PartialEq, Eq, Structural)]
pub enum PageEncoding {
    /// Baseline JPEG, RGB.
    Jpeg,
    /// Raw CCITT Group 4 stream, 1 bit/pixel (PDF `/BlackIs1 false`).
    G4,
}

/// Owner-facing colour setting; `BlackWhite` is the default because it
/// shrinks a page from ~2 MB to ~66 KB without losing resolution.
#[derive(Debug, Clone, Copy, PartialEq, Eq, Structural)]
pub enum ColorMode {
    BlackWhite,
    Color,
}

impl Default for ColorMode {
    fn default() -> (r: ColorMode)
        ensures
            r == ColorMode::BlackWhite,
    {
        ColorMode::BlackWhite
    }
}

/// The bytes that are there, if any are.
pub open spec fn optional_bytes(bytes: Option<Vec<u8>>) -> Option<Seq<u8>> {
    match bytes {
        None => None,
        Some(bytes) => Some(bytes@),
    }
}

/// The persisted form of a page: exactly what goes into the PDF.
#[derive(Debug)]
pub struct EncodedPage {
    pub bytes: Vec<u8>,
    pub encoding: PageEncoding,
    pub width: u32,
    pub height: u32,
}

/// What an encoded page says.
#[verifier::ext_equal]
pub struct PageModel {
    pub bytes: Seq<u8>,
    pub encoding: PageEncoding,
    pub width: u32,
    pub height: u32,
}

impl View for EncodedPage {
    type V = PageModel;

    open spec fn view(&self) -> PageModel {
        PageModel {
            bytes: self.bytes@,
            encoding: self.encoding,
            width: self.width,
            height: self.height,
        }
    }
}

/// A copy of some bytes.
pub fn copy_bytes(bytes: &Vec<u8>) -> (r: Vec<u8>)
    ensures
        r@ == bytes@,
{
    vstd::slice::slice_to_vec(bytes.as_slice())
}

impl EncodedPage {
    pub fn copy(&self) -> (r: EncodedPage)
        ensures
            r@ == self@,
    {
        EncodedPage {
            bytes: copy_bytes(&self.bytes),
            encoding: self.encoding,
            width: self.width,
            height: self.height,
        }
    }
}

impl Clone for EncodedPage {
    fn clone(&self) -> (r: EncodedPage)
        ensures
            r@ == self@,
    {
        self.copy()
    }
}

/// A corner of the crop, as shares of the width and the height of a photograph: the
/// bits of two single-precision numbers.
#[derive(Debug, Clone, Copy, PartialEq, Eq, Structural)]
pub struct CropPoint {
    pub x: u32,
    pub y: u32,
}

impl CropPoint {
    pub fn new(x: u32, y: u32) -> (r: CropPoint)
        ensures
            r.x == x,
            r.y == y,
    {
        CropPoint { x, y }
    }
}

/// The four corners of the crop, clockwise from the top left.
#[derive(Debug, Clone, Copy, PartialEq, Eq, Structural)]
pub struct CropCorners {
    pub top_left: CropPoint,
    pub top_right: CropPoint,
    pub bottom_right: CropPoint,
    pub bottom_left: CropPoint,
}

} // verus!
