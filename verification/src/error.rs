//! The errors of the library.

use vstd::prelude::*;

verus! {

/// The error of the `image` crate.
#[verifier::external_type_specification]
#[verifier::external_body]
pub struct ExImageError(image::ImageError);

/// The error of the `gsj` crate's check of an elevation image.
#[verifier::external_type_specification]
#[verifier::external_body]
pub struct ExNishiokaNagatsuError(gsj::altitude_tile::error::NishiokaNagatsuError);

/// What can go wrong while a tile or a catalog document is fetched and decoded.
#[derive(Debug)]
pub enum GsiError {
    /// The request could not be made or got no response.
    HttpRequestIsFailed,
    /// The response's status, which is carried, is not one of success.
    HttpResponseIsNotSucceeded(u16),
    /// The body of the response could not be read.
    HttpResponseCouldNotGetBody,
    /// The body of the response is no text.
    HttpResponseCouldNotGetBodyString,
    /// The body of the response could not be read as JSON; the reason is carried.
    HttpResponseCouldNotGetBodyJson(String),
    /// The text is not the JSON of the value asked for; the reason is carried.
    SerdeJsonError(String),
    /// The extension, which is carried, names no kind of elevation tile.
    GetDemUnsupportedExt(String),
    /// The bytes could not be decoded as an image.
    ImageError(image::ImageError),
    /// The image is not encoded as an elevation tile.
    GsjNishiokaNagatsuError(gsj::altitude_tile::error::NishiokaNagatsuError),
    /// The bytes are not UTF-8; the reason is carried.
    StdStrUtf8Error(String),
    /// An elevation text does not hold 65536 values; the number that it holds
    /// is carried.
    DecodeDemTxtDimensionsError(usize),
}

impl From<image::ImageError> for GsiError {
    fn from(e: image::ImageError) -> (r: GsiError) {
        GsiError::ImageError(e)
    }
}

impl vstd::std_specs::convert::FromSpecImpl<image::ImageError> for GsiError {
    open spec fn obeys_from_spec() -> bool {
        true
    }

    open spec fn from_spec(e: image::ImageError) -> GsiError {
        GsiError::ImageError(e)
    }
}

impl From<gsj::altitude_tile::error::NishiokaNagatsuError> for GsiError {
    fn from(e: gsj::altitude_tile::error::NishiokaNagatsuError) -> (r: GsiError) {
        GsiError::GsjNishiokaNagatsuError(e)
    }
}

impl vstd::std_specs::convert::FromSpecImpl<gsj::altitude_tile::error::NishiokaNagatsuError> for GsiError {
    open spec fn obeys_from_spec() -> bool {
        true
    }

    open spec fn from_spec(e: gsj::altitude_tile::error::NishiokaNagatsuError) -> GsiError {
        GsiError::GsjNishiokaNagatsuError(e)
    }
}

} // verus!
