//! Decoding the fetched bytes, and the whole pipeline from bytes to sheet.

use crate::compose::{composite, is_sheet_of, sheet_fits, views};
use crate::error::GridError;
use crate::raster::{RgbaImage, TileView};
use rayon::iter::{IntoParallelRefIterator, ParallelIterator};
use vstd::prelude::*;

verus! {

/// The RGBA image that the codec makes of `bytes`, if they hold one in a
/// supported format.
pub uninterp spec fn decoded_of(bytes: Seq<u8>) -> Option<TileView>;

/// Relies on image::load_from_memory, which detects the format from the bytes
/// and decodes them, and DynamicImage::to_rgba8, which converts any channel
/// layout to 8-bit RGBA in a buffer of exactly four bytes a pixel.
#[verifier::external_body]
fn load_rgba(bytes: &[u8]) -> (r: Result<RgbaImage, image::ImageError>)
    ensures
        match r {
            Ok(img) => img.wf() && decoded_of(bytes@) == Some(img@),
            Err(_) => decoded_of(bytes@) is None,
        },
{
    let img = image::load_from_memory(bytes)?.to_rgba8();
    let (width, height) = img.dimensions();
    Ok(RgbaImage { width, height, data: img.into_raw() })
}

/// Decodes one image to RGBA.
pub fn decode_image(bytes: &[u8]) -> (r: Result<RgbaImage, GridError>)
    ensures
        match r {
            Ok(img) => img.wf() && decoded_of(bytes@) == Some(img@),
            Err(e) => decoded_of(bytes@) is None && e is ImageDecodeError,
        },
{
    match load_rgba(bytes) {
        Ok(img) => Ok(img),
        Err(e) => Err(GridError::ImageDecodeError(e)),
    }
}

/// The bytes of each source.
pub open spec fn byte_views(sources: Seq<&[u8]>) -> Seq<Seq<u8>> {
    sources.map_values(|b: &[u8]| b@)
}

/// Every source decodes.
pub open spec fn all_decode(sources: Seq<Seq<u8>>) -> bool {
    forall|i: int| 0 <= i < sources.len() ==> (#[trigger] decoded_of(sources[i])) is Some
}

/// The decoded images of sources that all decode, in order.
pub open spec fn decoded_tiles(sources: Seq<Seq<u8>>) -> Seq<TileView> {
    sources.map_values(|b: Seq<u8>| decoded_of(b)->0)
}

/// Relies on rayon's parallel map over a slice and its collect into
/// `Result<Vec<_>, _>`: the output keeps the input order, and the result is an
/// error exactly when some item's closure returned one.
#[verifier::external_body]
fn decode_each(sources: &[&[u8]]) -> (r: Result<Vec<RgbaImage>, GridError>)
    ensures
        r is Ok <==> all_decode(byte_views(sources@)),
        r is Ok ==> r->Ok_0@.len() == sources@.len() && forall|i: int|
            0 <= i < sources@.len() ==> (#[trigger] r->Ok_0@[i]).wf() && decoded_of(sources@[i]@)
                == Some(r->Ok_0@[i]@),
        r is Err ==> r->Err_0 is ImageDecodeError,
{
    sources.par_iter().map(|b| decode_image(b)).collect()
}

/// Decodes every source, in parallel, and composites them into one sheet.
pub fn create_image_grid(image_bytes: &[&[u8]]) -> (r: Result<RgbaImage, GridError>)
    ensures
        ({
            let srcs = byte_views(image_bytes@);
            &&& srcs.len() == 0 ==> (r is Err && r->Err_0 is EmptyInput)
            &&& (srcs.len() > 0 && !all_decode(srcs)) ==> (r is Err && r->Err_0 is ImageDecodeError)
            &&& (srcs.len() > 0 && all_decode(srcs)) ==> (r is Ok <==> sheet_fits(
                decoded_tiles(srcs),
            ))
            &&& (srcs.len() > 0 && all_decode(srcs) && r is Err) ==> r->Err_0 is CanvasTooLarge
            &&& r is Ok ==> is_sheet_of(r->Ok_0, decoded_tiles(srcs))
        }),
{
    if image_bytes.len() == 0 {
        return Err(GridError::EmptyInput);
    }
    let images = match decode_each(image_bytes) {
        Ok(images) => images,
        Err(e) => return Err(e),
    };
    proof {
        let srcs = byte_views(image_bytes@);
        assert(views(images@) =~= decoded_tiles(srcs));
    }
    composite(images.as_slice())
}

} // verus!
