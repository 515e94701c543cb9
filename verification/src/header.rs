//! The fixed 64-byte KTX header and its validation.

use vstd::prelude::*;

use crate::bytes::{copy_range, read_u32_le, u32_le};
use crate::error::Error;
use crate::kv::KeyValueData;

verus! {

/// The sentinel that the header stores in its own byte order; reading a
/// different value back means the file was written in the opposite byte
/// order from the one this decoder uses.
pub const ENDIANNESS: u32 = 0x0403_0201;

/// The 12 bytes every KTX file must start with.
pub open spec fn spec_magic() -> Seq<u8> {
    seq![0xabu8, 0x4bu8, 0x54u8, 0x58u8, 0x20u8, 0x31u8, 0x31u8, 0xbbu8, 0x0du8, 0x0au8, 0x1au8, 0x0au8]
}

/// The validated contents of a KTX header.
///
/// The five `gl_` fields are opaque 32-bit codes passed through to the
/// consuming graphics API.  `pixel_height` and `pixel_depth` are 0 for 1D
/// and non-3D textures respectively; `number_of_array_elements` is 0 when
/// the texture is not an array; `number_of_faces` is 6 for cubemaps and 1
/// otherwise.
#[derive(Debug, Clone)]
pub struct HeaderInfo {
    /// Pixel type code; 0 for compressed textures.
    pub gl_type: u32,
    /// Size in bytes of the values endianness conversion acts on; 1 when
    /// no conversion applies.
    pub gl_type_size: u32,
    /// Pixel format code; 0 for compressed textures.
    pub gl_format: u32,
    /// Internal format code of the texture.
    pub gl_internal_format: u32,
    /// Base internal format code of the texture.
    pub gl_base_internal_format: u32,
    /// Width of mipmap level 0, in pixels.
    pub pixel_width: u32,
    /// Height of mipmap level 0; 0 for 1D textures.
    pub pixel_height: u32,
    /// Depth of mipmap level 0; 0 for textures that are not 3D.
    pub pixel_depth: u32,
    /// Number of array layers; 0 when the texture is not an array.
    pub number_of_array_elements: u32,
    /// Number of cubemap faces: 6 for cubemaps, 1 otherwise.
    pub number_of_faces: u32,
    /// Number of mipmap levels; this decoder guarantees it is at least 1.
    pub number_of_mipmap_levels: u32,
    /// The raw key/value metadata block.
    pub key_value_data: KeyValueData,
}

/// The first 12 bytes of `data` are the KTX magic sequence.
pub open spec fn magic_ok(data: Seq<u8>) -> bool {
    data.subrange(0, 12) == spec_magic()
}

/// `data` begins with a header this decoder accepts: the magic bytes, a
/// nonzero mipmap level count, the endianness sentinel, a metadata length
/// that is a multiple of 4, and enough bytes for the whole metadata block.
pub open spec fn header_ok(data: Seq<u8>) -> bool {
    &&& data.len() >= 64
    &&& magic_ok(data)
    &&& u32_le(data, 56) != 0
    &&& u32_le(data, 12) == ENDIANNESS
    &&& u32_le(data, 60) % 4 == 0
    &&& data.len() >= 64 + u32_le(data, 60)
}

/// `h` holds exactly the fields stored in the header at the start of
/// `data`.
pub open spec fn header_matches(h: HeaderInfo, data: Seq<u8>) -> bool {
    &&& h.gl_type == u32_le(data, 16)
    &&& h.gl_type_size == u32_le(data, 20)
    &&& h.gl_format == u32_le(data, 24)
    &&& h.gl_internal_format == u32_le(data, 28)
    &&& h.gl_base_internal_format == u32_le(data, 32)
    &&& h.pixel_width == u32_le(data, 36)
    &&& h.pixel_height == u32_le(data, 40)
    &&& h.pixel_depth == u32_le(data, 44)
    &&& h.number_of_array_elements == u32_le(data, 48)
    &&& h.number_of_faces == u32_le(data, 52)
    &&& h.number_of_mipmap_levels == u32_le(data, 56)
    &&& h.key_value_data@ == data.subrange(64, 64 + u32_le(data, 60))
}

/// The error a rejected header produces, in the order the checks run:
/// truncation, magic, endianness sentinel and metadata alignment, mipmap
/// level count, then truncation of the metadata block.
pub open spec fn header_error_matches(data: Seq<u8>, e: Error) -> bool {
    if data.len() < 64 {
        e == Error::Truncated
    } else if !magic_ok(data) {
        e matches Error::InvalidFormat(m) && m@ == data.subrange(0, 12)
    } else if u32_le(data, 12) != ENDIANNESS || u32_le(data, 60) % 4 != 0 {
        e == Error::MismatchedEndianness(ENDIANNESS, u32_le(data, 12))
    } else if u32_le(data, 56) == 0 {
        e == Error::InvalidNumberOfMipmapLevels(0)
    } else {
        e == Error::Truncated
    }
}

/// Parse and validate the header at the start of `data`.
///
/// On success returns the header and the offset of the first mipmap
/// level's size field, `64` plus the length of the metadata block.
pub fn parse_header(data: &Vec<u8>) -> (r: Result<(HeaderInfo, usize), Error>)
    ensures
        r is Ok <==> header_ok(data@),
        r matches Ok(p) ==> {
            &&& header_matches(p.0, data@)
            &&& p.1 == 64 + u32_le(data@, 60)
            &&& p.0.number_of_mipmap_levels >= 1
        },
        r matches Err(e) ==> header_error_matches(data@, e),
{
    if data.len() < 64 {
        return Err(Error::Truncated);
    }
    if !check_magic(data) {
        let observed = copy_range(data, 0, 12);
        return Err(Error::InvalidFormat(observed));
    }
    let endianness = read_u32_le(data, 12);
    let gl_type = read_u32_le(data, 16);
    let gl_type_size = read_u32_le(data, 20);
    let gl_format = read_u32_le(data, 24);
    let gl_internal_format = read_u32_le(data, 28);
    let gl_base_internal_format = read_u32_le(data, 32);
    let pixel_width = read_u32_le(data, 36);
    let pixel_height = read_u32_le(data, 40);
    let pixel_depth = read_u32_le(data, 44);
    let number_of_array_elements = read_u32_le(data, 48);
    let number_of_faces = read_u32_le(data, 52);
    let number_of_mipmap_levels = read_u32_le(data, 56);
    let bytes_of_key_value_data = read_u32_le(data, 60);
    if endianness != ENDIANNESS || bytes_of_key_value_data % 4 != 0 {
        return Err(Error::MismatchedEndianness(ENDIANNESS, endianness));
    }
    if number_of_mipmap_levels == 0 {
        return Err(Error::InvalidNumberOfMipmapLevels(number_of_mipmap_levels));
    }
    let kv_len = bytes_of_key_value_data as usize;
    if data.len() - 64 < kv_len {
        return Err(Error::Truncated);
    }
    let raw = copy_range(data, 64, 64 + kv_len);
    let info = HeaderInfo {
        gl_type,
        gl_type_size,
        gl_format,
        gl_internal_format,
        gl_base_internal_format,
        pixel_width,
        pixel_height,
        pixel_depth,
        number_of_array_elements,
        number_of_faces,
        number_of_mipmap_levels,
        key_value_data: KeyValueData::new(raw),
    };
    Ok((info, 64 + kv_len))
}

/// The width, height or depth of mipmap level `level`, given the size
/// `dim` of level 0: `dim` halved `level` times, floored at 1.
pub open spec fn level_extent(dim: u32, level: u32) -> u32 {
    if level >= 32 {
        1
    } else if dim >> level == 0 {
        1
    } else {
        dim >> level
    }
}

impl HeaderInfo {
    /// The `(width, height, depth)` of mipmap level `level`: each level-0
    /// dimension halved `level` times, floored at 1.
    pub fn mipmap_size(&self, level: u32) -> (r: (u32, u32, u32))
        ensures
            r.0 == level_extent(self.pixel_width, level),
            r.1 == level_extent(self.pixel_height, level),
            r.2 == level_extent(self.pixel_depth, level),
    {
        let w = level_dim(self.pixel_width, level);
        let h = level_dim(self.pixel_height, level);
        let d = level_dim(self.pixel_depth, level);
        (w, h, d)
    }
}

/// Compute [`level_extent`].
pub fn level_dim(dim: u32, level: u32) -> (r: u32)
    ensures
        r == level_extent(dim, level),
{
    if level >= 32 {
        1
    } else {
        let s = dim >> level;
        if s == 0 {
            1
        } else {
            s
        }
    }
}

/// The first 12 bytes of `data` equal the KTX magic sequence.
fn check_magic(data: &Vec<u8>) -> (r: bool)
    requires
        data.len() >= 12,
    ensures
        r <==> magic_ok(data@),
{
    let r = data[0] == 0xab && data[1] == 0x4b && data[2] == 0x54 && data[3] == 0x58 && data[4]
        == 0x20 && data[5] == 0x31 && data[6] == 0x31 && data[7] == 0xbb && data[8] == 0x0d
        && data[9] == 0x0a && data[10] == 0x1a && data[11] == 0x0a;
    proof {
        let s = data@.subrange(0, 12);
        if r {
            assert(s =~= spec_magic());
        } else {
            if s == spec_magic() {
                assert(data@[0] == s[0] && data@[1] == s[1] && data@[2] == s[2] && data@[3]
                    == s[3] && data@[4] == s[4] && data@[5] == s[5] && data@[6] == s[6] && data@[7]
                    == s[7] && data@[8] == s[8] && data@[9] == s[9] && data@[10] == s[10]
                    && data@[11] == s[11]);
            }
        }
    }
    r
}

} // verus!
