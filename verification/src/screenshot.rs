use vstd::prelude::*;

verus! {

/// What can go wrong while the capture collaborator takes a window shot.
#[derive(Debug)]
pub enum WSError {
    GetDCIsNull,
    CreateCompatibleDCIsNull,
    CreateCompatibleBitmapIsNull,
    SelectObjectError,
    GetDIBitsError,
    StretchBltIsZero,
}

/// Which part of a window the capture covers.
#[derive(Clone, Copy, Debug)]
pub enum Area {
    Full,
    ClientOnly,
}

/// Which capture primitive is used.
#[derive(Clone, Copy, Debug, PartialEq, Eq, Structural)]
pub enum Using {
    BitBlt,
    PrintWindow,
}

/// A captured image as raw rows of RGB bytes.
#[derive(Debug)]
pub struct RgbBuf {
    pub pixels: Vec<u8>,
    pub width: u32,
    pub height: u32,
}

} // verus!
