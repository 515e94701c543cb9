//! Decoder for the KTX texture container format.
//!
//! A KTX file is a fixed 64-byte header (magic bytes, an endianness
//! sentinel, OpenGL format codes, texture dimensions and counts), a
//! 4-byte-aligned key/value metadata block, and then one block per mipmap
//! level holding the pixel data of every array layer and cubemap face of
//! that level.  This crate parses the header, walks the level/layer/face
//! lattice, and hands each sub-image back as a plain byte buffer together
//! with its position and dimensions.

use vstd::prelude::*;

pub mod bytes;
pub mod chunks;
pub mod error;
pub mod frames;
pub mod header;
pub mod kv;

use crate::bytes::u32_le;
use crate::error::Error;
use crate::frames::{at_least_one, Frames};
use crate::header::{
    header_error_matches, header_matches, header_ok, parse_header, HeaderInfo,
};

verus! {

/// A KTX decoder over an in-memory byte source.
pub struct Decoder {
    data: Vec<u8>,
}

impl View for Decoder {
    type V = Seq<u8>;

    closed spec fn view(&self) -> Seq<u8> {
        self.data@
    }
}

impl Decoder {
    /// Wrap a byte source in a decoder.
    pub fn new(data: Vec<u8>) -> (r: Self)
        ensures
            r@ == data@,
    {
        Decoder { data }
    }

    /// Decode the header and open the frame sequence.
    pub fn read(self) -> (r: Result<(HeaderInfo, Frames), Error>)
        ensures
            r is Ok <==> header_ok(self@),
            r matches Ok(p) ==> decoded(self@, p.0, p.1),
            r matches Err(e) ==> header_error_matches(self@, e),
    {
        decode(self.data)
    }
}

/// What a successful decode of `data` returns: the header's fields, and a
/// frame sequence over `data` positioned at the first mipmap level's size
/// field, with the counts the header declares (layer and face counts
/// floored at 1).
pub open spec fn decoded(data: Seq<u8>, h: HeaderInfo, f: Frames) -> bool {
    &&& header_matches(h, data)
    &&& h.number_of_mipmap_levels >= 1
    &&& f.wf()
    &&& f.src() == data
    &&& f.cursor() == 64 + u32_le(data, 60)
    &&& f.width() == h.pixel_width
    &&& f.height() == h.pixel_height
    &&& f.depth() == h.pixel_depth
    &&& f.layers() == at_least_one(h.number_of_array_elements)
    &&& f.faces() == at_least_one(h.number_of_faces)
    &&& f.levels() == h.number_of_mipmap_levels
    &&& f.cubemap() == (h.number_of_faces == 6 && h.number_of_array_elements == 0)
    &&& f.index() == 0
    &&& !f.mid_level()
    &&& !f.has_failed()
}

/// Decode the KTX header at the start of `data` and open the sequence of
/// frames that follows it.
///
/// Succeeds exactly when the header is valid; the error otherwise
/// identifies the first check that failed, in the order the header is
/// validated.
pub fn decode(data: Vec<u8>) -> (r: Result<(HeaderInfo, Frames), Error>)
    ensures
        r is Ok <==> header_ok(data@),
        r matches Ok(p) ==> decoded(data@, p.0, p.1),
        r matches Err(e) ==> header_error_matches(data@, e),
{
    let (info, offset) = match parse_header(&data) {
        Ok(p) => p,
        Err(e) => {
            return Err(e);
        },
    };
    let frames = Frames::new(data, offset, &info);
    Ok((info, frames))
}

} // verus!
