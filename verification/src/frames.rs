//! The frame sequencer: walking a file's mipmap levels, array layers and
//! cubemap faces in on-disk order.
//!
//! Each mipmap level starts with a 32-bit `image_size` field followed by
//! the pixel bytes of every layer and face of that level.  For most
//! textures `image_size` counts the whole level; the one exception is a
//! non-array cubemap (6 faces, 0 array elements), where it counts a single
//! face.  Frames are yielded level-major, then layer, then face.
//!
//! The format reserves 0 to 3 padding bytes after each cubemap face and
//! after each level to keep reads 4-byte aligned.  This decoder enforces
//! the format's rule that every face buffer is a multiple of 4 bytes, and
//! under that rule both paddings are always empty, so consuming them is
//! consuming nothing.

use vstd::prelude::*;

use crate::bytes::{copy_range, read_u32_le, u32_le};
use crate::error::Error;
use crate::header::{level_dim, level_extent, HeaderInfo};
use vstd::arithmetic::div_mod::{
    lemma_fundamental_div_mod, lemma_fundamental_div_mod_converse,
};
use vstd::arithmetic::mul::{
    lemma_mul_inequality, lemma_mul_is_associative, lemma_mul_is_distributive_add_other_way,
    lemma_mul_strictly_positive,
};

verus! {

/// Position and dimensions of one decoded sub-image.
///
/// `face` counts cubemap faces in the order +X, -X, +Y, -Y, +Z, -Z and is
/// 0 when the texture is not a cubemap.  The dimensions are those of the
/// frame's own mipmap level, floored at 1.
#[derive(Debug, Clone, PartialEq, Eq, Structural)]
pub struct FrameInfo {
    /// Mipmap level, 0-based.
    pub level: u32,
    /// Array layer, 0-based; 0 when the texture is not an array.
    pub layer: u32,
    /// Cubemap face, 0-based; 0 when the texture is not a cubemap.
    pub face: u32,
    /// Width of this frame's level, in pixels.
    pub pixel_width: u32,
    /// Height of this frame's level, floored at 1.
    pub pixel_height: u32,
    /// Depth of this frame's level, floored at 1.
    pub pixel_depth: u32,
}

/// `x`, floored at 1: the per-file layer and face counts with the 0 that
/// means "absent" replaced by 1.
pub open spec fn at_least_one(x: u32) -> u32 {
    if x == 0 {
        1
    } else {
        x
    }
}

/// The number of frames every level yields.
pub open spec fn frames_per_level(nlayers: u32, nfaces: u32) -> int {
    nlayers * nfaces
}

/// A level's `image_size` field obeys the format's divisibility rules:
/// it is a multiple of 4, and for anything but a non-array cubemap it
/// splits evenly into layers and faces that are themselves 4-byte sized.
pub open spec fn face_size_ok(image_size: u32, nlayers: u32, nfaces: u32, is_cubemap: bool) -> bool
    recommends
        nlayers >= 1,
        nfaces >= 1,
{
    &&& image_size % 4 == 0
    &&& (!is_cubemap ==> {
        &&& image_size % nlayers == 0
        &&& (image_size / nlayers) % 4 == 0
        &&& (image_size / nlayers) % nfaces == 0
        &&& ((image_size / nlayers) / nfaces) % 4 == 0
    })
}

/// The byte length of one face buffer, given a level's `image_size`.  For
/// a non-array cubemap the field already denotes one face; otherwise it is
/// divided among the layers and faces of the level.
pub open spec fn spec_face_size(
    image_size: u32,
    nlayers: u32,
    nfaces: u32,
    is_cubemap: bool,
) -> u32
    recommends
        nlayers >= 1,
        nfaces >= 1,
{
    if is_cubemap {
        image_size
    } else {
        (image_size / nlayers) / nfaces
    }
}

/// Split a level's `image_size` into the byte length of one face buffer,
/// rejecting any value that breaks the format's divisibility rules.
pub fn compute_face_size(image_size: u32, nlayers: u32, nfaces: u32, is_cubemap: bool) -> (r:
    Result<u32, Error>)
    requires
        nlayers >= 1,
        nfaces >= 1,
    ensures
        r is Ok <==> face_size_ok(image_size, nlayers, nfaces, is_cubemap),
        r matches Ok(fs) ==> fs == spec_face_size(image_size, nlayers, nfaces, is_cubemap) && fs
            % 4 == 0,
        r is Err ==> r == Err::<u32, Error>(Error::MalformedFrameLayout(image_size)),
{
    if image_size % 4 != 0 {
        return Err(Error::MalformedFrameLayout(image_size));
    }
    if is_cubemap {
        return Ok(image_size);
    }
    if image_size % nlayers != 0 {
        return Err(Error::MalformedFrameLayout(image_size));
    }
    let layer_size = image_size / nlayers;
    if layer_size % 4 != 0 {
        return Err(Error::MalformedFrameLayout(image_size));
    }
    if layer_size % nfaces != 0 {
        return Err(Error::MalformedFrameLayout(image_size));
    }
    let face_size = layer_size / nfaces;
    if face_size % 4 != 0 {
        return Err(Error::MalformedFrameLayout(image_size));
    }
    Ok(face_size)
}

/// The frame that overall index `k` yields: level `k / (nlayers * nfaces)`,
/// then layer-major, then face, with that level's dimensions.
pub open spec fn spec_frame_info(
    w: u32,
    h: u32,
    d: u32,
    nlayers: u32,
    nfaces: u32,
    k: int,
) -> FrameInfo
    recommends
        nlayers >= 1,
        nfaces >= 1,
        0 <= k,
{
    let fpl = frames_per_level(nlayers, nfaces);
    let level = k / fpl;
    let rem = k % fpl;
    FrameInfo {
        level: level as u32,
        layer: (rem / (nfaces as int)) as u32,
        face: (rem % (nfaces as int)) as u32,
        pixel_width: level_extent(w, level as u32),
        pixel_height: level_extent(h, level as u32),
        pixel_depth: level_extent(d, level as u32),
    }
}

/// The decode-relevant state of a frame sequence, as plain values: what
/// [`Frames`] holds, with the byte source as a sequence.  Every step of
/// the walk — whether a frame can be yielded, which one, which bytes,
/// which error otherwise, and the state after it — is a function of this
/// state alone.
pub ghost struct SessionState {
    /// The whole byte source.
    pub src: Seq<u8>,
    /// The offset of the next unread byte.
    pub cursor: int,
    /// Level-0 width.
    pub width: u32,
    /// Level-0 height.
    pub height: u32,
    /// Level-0 depth.
    pub depth: u32,
    /// Layer count, floored at 1.
    pub layers: u32,
    /// Face count, floored at 1.
    pub faces: u32,
    /// Declared mipmap level count.
    pub levels: u32,
    /// Whether the file is a non-array cubemap.
    pub cubemap: bool,
    /// Level of the next frame.
    pub level: u32,
    /// Layer of the next frame.
    pub layer: u32,
    /// Face of the next frame.
    pub face: u32,
    /// Face byte length of the current level; meaningful while
    /// `mid_level` holds.
    pub face_size: u32,
    /// Whether the current level's size field has been consumed.
    pub mid_level: bool,
    /// Whether the walk has stopped at an error.
    pub failed: bool,
}

impl SessionState {
    /// Well-formedness: the cursor lies in the source, the counts are at
    /// least 1, and the lattice position is in range.
    pub open spec fn wf(self) -> bool {
        &&& 0 <= self.cursor <= self.src.len()
        &&& self.layers >= 1
        &&& self.faces >= 1
        &&& (if self.mid_level {
            &&& self.level < self.levels
            &&& self.layer < self.layers
            &&& self.face < self.faces
        } else {
            &&& self.layer == 0
            &&& self.face == 0
            &&& self.level <= self.levels
        })
    }

    /// Whether the walk yields nothing more.
    pub open spec fn done(self) -> bool {
        self.failed || (!self.mid_level && self.level == self.levels)
    }

    /// How many frames have been yielded so far.
    pub open spec fn index(self) -> int {
        (self.level * self.layers + self.layer) * self.faces + self.face
    }

    /// How many frames a whole file of this shape holds.
    pub open spec fn total_frames(self) -> int {
        self.levels * frames_per_level(self.layers, self.faces)
    }

    /// The `image_size` field at the cursor; meaningful at a level start.
    pub open spec fn step_image_size(self) -> u32 {
        u32_le(self.src, self.cursor)
    }

    /// Whether the `image_size` field at the cursor obeys the
    /// divisibility rules.
    pub open spec fn step_size_ok(self) -> bool {
        face_size_ok(self.step_image_size(), self.layers, self.faces, self.cubemap)
    }

    /// Where the next frame's bytes start: past the `image_size` field if
    /// one is still to be read.
    pub open spec fn yield_start(self) -> int {
        if self.mid_level {
            self.cursor
        } else {
            self.cursor + 4
        }
    }

    /// The byte length of the next frame.
    pub open spec fn yield_size(self) -> u32 {
        if self.mid_level {
            self.face_size
        } else {
            spec_face_size(self.step_image_size(), self.layers, self.faces, self.cubemap)
        }
    }

    /// Whether a frame can be yielded now: the required reads lie inside
    /// the source and, at a level start, the `image_size` field is sound.
    pub open spec fn can_yield(self) -> bool {
        if self.mid_level {
            self.cursor + self.face_size <= self.src.len()
        } else {
            &&& self.cursor + 4 <= self.src.len()
            &&& self.step_size_ok()
            &&& self.yield_start() + self.yield_size() <= self.src.len()
        }
    }

    /// The error reported when no frame can be yielded: a divisibility
    /// violation of the `image_size` field, else truncation.
    pub open spec fn step_error(self) -> Error {
        if !self.mid_level && self.cursor + 4 <= self.src.len() && !self.step_size_ok() {
            Error::MalformedFrameLayout(self.step_image_size())
        } else {
            Error::Truncated
        }
    }

    /// The frame yielded by the next step.
    pub open spec fn step_frame(self) -> FrameInfo {
        FrameInfo {
            level: self.level,
            layer: self.layer,
            face: self.face,
            pixel_width: level_extent(self.width, self.level),
            pixel_height: level_extent(self.height, self.level),
            pixel_depth: level_extent(self.depth, self.level),
        }
    }

    /// The bytes yielded by the next step.
    pub open spec fn step_bytes(self) -> Seq<u8> {
        self.src.subrange(self.yield_start(), self.yield_start() + self.yield_size())
    }

    /// The state after the next step yields a frame: the cursor passes
    /// the bytes just yielded and the lattice position advances face
    /// first, then layer, then level.
    pub open spec fn step_state(self) -> SessionState {
        let c = self.yield_start() + self.yield_size();
        let fs = self.yield_size();
        if self.face + 1 < self.faces {
            SessionState { cursor: c, face: (self.face + 1) as u32, face_size: fs, mid_level: true, ..self }
        } else if self.layer + 1 < self.layers {
            SessionState {
                cursor: c,
                face: 0,
                layer: (self.layer + 1) as u32,
                face_size: fs,
                mid_level: true,
                ..self
            }
        } else {
            SessionState {
                cursor: c,
                face: 0,
                layer: 0,
                level: (self.level + 1) as u32,
                face_size: fs,
                mid_level: false,
                ..self
            }
        }
    }
}

/// Everything a frame walk yields and how it ends: the frames in yield
/// order, each with its exact bytes, and `None` for `error` exactly when
/// the walk reaches the end of the last level.
pub ghost struct Walk {
    /// The frames yielded, in order.
    pub frames: Seq<(FrameInfo, Seq<u8>)>,
    /// The error that stops the walk, if one does.
    pub error: Option<Error>,
}

/// The complete walk from state `s`: every frame it yields and the error
/// it ends with, if any.
pub open spec fn spec_walk(s: SessionState) -> Walk
    decreases s.levels - s.level, s.layers - s.layer, s.faces - s.face,
        when s.wf()
{
    if s.done() {
        Walk { frames: Seq::empty(), error: None }
    } else if !s.can_yield() {
        Walk { frames: Seq::empty(), error: Some(s.step_error()) }
    } else {
        let rest = spec_walk(s.step_state());
        Walk { frames: seq![(s.step_frame(), s.step_bytes())] + rest.frames, error: rest.error }
    }
}

/// The frames of `v` with their buffers as byte sequences.
pub open spec fn frames_view(v: Seq<(FrameInfo, Vec<u8>)>) -> Seq<(FrameInfo, Seq<u8>)> {
    Seq::new(v.len(), |i: int| (v[i].0, v[i].1@))
}

/// The pull-driven sequence of frames of one decode session.  It owns the
/// file bytes and a cursor positioned at the next unread byte; the
/// consumer calls [`Frames::next`] until it returns `None` or an error.
pub struct Frames {
    data: Vec<u8>,
    pos: usize,
    pixel_width: u32,
    pixel_height: u32,
    pixel_depth: u32,
    nlayers: u32,
    nfaces: u32,
    nlevels: u32,
    is_cubemap: bool,
    level: u32,
    layer: u32,
    face: u32,
    face_size: u32,
    in_level: bool,
    failed: bool,
}

impl Frames {
    /// The whole byte source of the session.
    pub closed spec fn src(self) -> Seq<u8> {
        self.data@
    }

    /// The offset of the next unread byte.
    pub closed spec fn cursor(self) -> int {
        self.pos as int
    }

    /// Level-0 width from the header.
    pub closed spec fn width(self) -> u32 {
        self.pixel_width
    }

    /// Level-0 height from the header.
    pub closed spec fn height(self) -> u32 {
        self.pixel_height
    }

    /// Level-0 depth from the header.
    pub closed spec fn depth(self) -> u32 {
        self.pixel_depth
    }

    /// The layer count, floored at 1.
    pub closed spec fn layers(self) -> u32 {
        self.nlayers
    }

    /// The face count, floored at 1.
    pub closed spec fn faces(self) -> u32 {
        self.nfaces
    }

    /// The declared number of mipmap levels.
    pub closed spec fn levels(self) -> u32 {
        self.nlevels
    }

    /// Whether the file is a non-array cubemap, fixing the meaning of each
    /// level's `image_size` field.
    pub closed spec fn cubemap(self) -> bool {
        self.is_cubemap
    }

    /// The level the next frame belongs to.
    pub closed spec fn cur_level(self) -> u32 {
        self.level
    }

    /// The layer the next frame belongs to.
    pub closed spec fn cur_layer(self) -> u32 {
        self.layer
    }

    /// The face the next frame belongs to.
    pub closed spec fn cur_face(self) -> u32 {
        self.face
    }

    /// The face byte length of the current level; meaningful only while
    /// [`Frames::mid_level`] holds.
    pub closed spec fn cur_face_size(self) -> u32 {
        self.face_size
    }

    /// Whether the current level's `image_size` field has been consumed
    /// and frames of that level are still being yielded.
    pub closed spec fn mid_level(self) -> bool {
        self.in_level
    }

    /// Whether the sequence has stopped at an error.
    pub closed spec fn has_failed(self) -> bool {
        self.failed
    }

    /// This session's state as plain values.
    pub open spec fn abs(self) -> SessionState {
        SessionState {
            src: self.src(),
            cursor: self.cursor(),
            width: self.width(),
            height: self.height(),
            depth: self.depth(),
            layers: self.layers(),
            faces: self.faces(),
            levels: self.levels(),
            cubemap: self.cubemap(),
            level: self.cur_level(),
            layer: self.cur_layer(),
            face: self.cur_face(),
            face_size: self.cur_face_size(),
            mid_level: self.mid_level(),
            failed: self.has_failed(),
        }
    }

    /// The session's well-formedness: the cursor lies in the source, the
    /// counts are at least 1, and the lattice position is in range.
    pub open spec fn wf(self) -> bool {
        self.abs().wf()
    }

    /// Whether the sequence yields nothing more.
    pub open spec fn done(self) -> bool {
        self.abs().done()
    }

    /// How many frames a whole file of this shape holds.
    pub open spec fn total_frames(self) -> int {
        self.abs().total_frames()
    }

    /// How many frames have been yielded so far.
    pub open spec fn index(self) -> int {
        self.abs().index()
    }

    /// The `image_size` field at the cursor; meaningful at a level start.
    pub open spec fn step_image_size(self) -> u32 {
        self.abs().step_image_size()
    }

    /// Whether the `image_size` field at the cursor obeys the divisibility
    /// rules.
    pub open spec fn step_size_ok(self) -> bool {
        self.abs().step_size_ok()
    }

    /// Where the next frame's bytes start: past the `image_size` field if
    /// one is still to be read.
    pub open spec fn yield_start(self) -> int {
        self.abs().yield_start()
    }

    /// The byte length of the next frame.
    pub open spec fn yield_size(self) -> u32 {
        self.abs().yield_size()
    }

    /// Whether a frame can be yielded now: the required reads lie inside
    /// the source and, at a level start, the `image_size` field is sound.
    pub open spec fn can_yield(self) -> bool {
        self.abs().can_yield()
    }

    /// The error reported when no frame can be yielded: a divisibility
    /// violation of the `image_size` field, else truncation.
    pub open spec fn step_error(self) -> Error {
        self.abs().step_error()
    }

    /// Start a frame sequence over `data`, whose mipmap levels begin at
    /// offset `start`, for the texture `info` describes.
    pub fn new(data: Vec<u8>, start: usize, info: &HeaderInfo) -> (r: Frames)
        requires
            start <= data.len(),
        ensures
            r.wf(),
            r.src() == data@,
            r.cursor() == start,
            r.width() == info.pixel_width,
            r.height() == info.pixel_height,
            r.depth() == info.pixel_depth,
            r.layers() == at_least_one(info.number_of_array_elements),
            r.faces() == at_least_one(info.number_of_faces),
            r.levels() == info.number_of_mipmap_levels,
            r.cubemap() == (info.number_of_faces == 6 && info.number_of_array_elements == 0),
            r.cur_level() == 0,
            r.cur_layer() == 0,
            r.cur_face() == 0,
            !r.mid_level(),
            !r.has_failed(),
            r.index() == 0,
    {
        let nlayers = if info.number_of_array_elements == 0 {
            1
        } else {
            info.number_of_array_elements
        };
        let nfaces = if info.number_of_faces == 0 {
            1
        } else {
            info.number_of_faces
        };
        let is_cubemap = info.number_of_faces == 6 && info.number_of_array_elements == 0;
        proof {
            vstd::arithmetic::mul::lemma_mul_by_zero_is_zero(nlayers as int);
            vstd::arithmetic::mul::lemma_mul_by_zero_is_zero(nfaces as int);
        }
        Frames {
            data,
            pos: start,
            pixel_width: info.pixel_width,
            pixel_height: info.pixel_height,
            pixel_depth: info.pixel_depth,
            nlayers,
            nfaces,
            nlevels: info.number_of_mipmap_levels,
            is_cubemap,
            level: 0,
            layer: 0,
            face: 0,
            face_size: 0,
            in_level: false,
            failed: false,
        }
    }

    /// Yield the next frame, or `None` after the last face of the last
    /// level, or the error that stops the sequence.
    ///
    /// A yielded frame carries its (level, layer, face) position, the
    /// dimensions of its level, and exactly the face buffer's bytes as
    /// they lie in the source.
    pub fn next(&mut self) -> (r: Option<Result<(FrameInfo, Vec<u8>), Error>>)
        requires
            old(self).wf(),
        ensures
            final(self).wf(),
            final(self).src() == old(self).src(),
            final(self).width() == old(self).width(),
            final(self).height() == old(self).height(),
            final(self).depth() == old(self).depth(),
            final(self).layers() == old(self).layers(),
            final(self).faces() == old(self).faces(),
            final(self).levels() == old(self).levels(),
            final(self).cubemap() == old(self).cubemap(),
            old(self).done() ==> r is None && *final(self) == *old(self),
            r is None ==> old(self).done(),
            !old(self).done() && !old(self).can_yield() ==> {
                &&& r == Some(Err::<(FrameInfo, Vec<u8>), Error>(old(self).step_error()))
                &&& final(self).has_failed()
            },
            !old(self).done() && old(self).can_yield() ==> (r matches Some(Ok(p)) && {
                let s = *old(self);
                &&& p.0.level == s.cur_level()
                &&& p.0.layer == s.cur_layer()
                &&& p.0.face == s.cur_face()
                &&& p.0.pixel_width == level_extent(s.width(), s.cur_level())
                &&& p.0.pixel_height == level_extent(s.height(), s.cur_level())
                &&& p.0.pixel_depth == level_extent(s.depth(), s.cur_level())
                &&& p.0 == spec_frame_info(
                    s.width(),
                    s.height(),
                    s.depth(),
                    s.layers(),
                    s.faces(),
                    s.index(),
                )
                &&& p.1@ == s.src().subrange(s.yield_start(), s.yield_start() + s.yield_size())
                &&& final(self).cursor() == s.yield_start() + s.yield_size()
                &&& final(self).index() == s.index() + 1
                &&& !final(self).has_failed()
                &&& final(self).mid_level() == ((s.index() + 1) % frames_per_level(
                    s.layers(),
                    s.faces(),
                ) != 0)
                &&& (final(self).mid_level() ==> final(self).cur_face_size() == s.yield_size())
                &&& p.0 == s.abs().step_frame()
                &&& p.1@ == s.abs().step_bytes()
                &&& final(self).abs() == s.abs().step_state()
            }),
    {
        if self.failed {
            return None;
        }
        if !self.in_level {
            if self.level == self.nlevels {
                return None;
            }
            if self.data.len() - self.pos < 4 {
                self.failed = true;
                return Some(Err(Error::Truncated));
            }
            let image_size = read_u32_le(&self.data, self.pos);
            match compute_face_size(image_size, self.nlayers, self.nfaces, self.is_cubemap) {
                Err(e) => {
                    self.failed = true;
                    return Some(Err(e));
                },
                Ok(fs) => {
                    self.pos = self.pos + 4;
                    self.face_size = fs;
                    self.in_level = true;
                },
            }
        }
        let fs = self.face_size as usize;
        if self.data.len() - self.pos < fs {
            self.failed = true;
            return Some(Err(Error::Truncated));
        }
        let buf = copy_range(&self.data, self.pos, self.pos + fs);
        let frame = FrameInfo {
            level: self.level,
            layer: self.layer,
            face: self.face,
            pixel_width: level_dim(self.pixel_width, self.level),
            pixel_height: level_dim(self.pixel_height, self.level),
            pixel_depth: level_dim(self.pixel_depth, self.level),
        };
        self.pos = self.pos + fs;
        proof {
            lemma_lattice_index(
                self.nlayers as int,
                self.nfaces as int,
                self.level as int,
                self.layer as int,
                self.face as int,
            );
            lemma_index_step(
                self.nlayers as int,
                self.nfaces as int,
                self.level as int,
                self.layer as int,
                self.face as int,
            );
        }
        if self.face + 1 < self.nfaces {
            self.face = self.face + 1;
        } else {
            self.face = 0;
            if self.layer + 1 < self.nlayers {
                self.layer = self.layer + 1;
            } else {
                self.layer = 0;
                self.level = self.level + 1;
                self.in_level = false;
            }
        }
        Some(Ok((frame, buf)))
    }
}

impl Frames {
    /// Pull every remaining frame eagerly, in yield order.
    ///
    /// On success the sequence was exhausted: every one of the file's
    /// `number_of_mipmap_levels * nlayers * nfaces` frames not yet pulled
    /// is returned, and frame `i` of the result is the frame of overall
    /// index `index() + i` — level-major, then layer, then face.
    pub fn read_all(&mut self) -> (r: Result<Vec<(FrameInfo, Vec<u8>)>, Error>)
        requires
            old(self).wf(),
        ensures
            final(self).wf(),
            r is Ok <==> spec_walk(old(self).abs()).error is None,
            r matches Ok(v) ==> {
                let w = spec_walk(old(self).abs());
                &&& v@.len() == w.frames.len()
                &&& (forall|i: int|
                    0 <= i < v@.len() ==> (#[trigger] v@[i]).0 == w.frames[i].0 && v@[i].1@
                        == w.frames[i].1)
                &&& (old(self).has_failed() ==> v@.len() == 0)
                &&& (!old(self).has_failed() ==> v@.len() == old(self).total_frames() - old(
                    self,
                ).index())
                &&& forall|i: int|
                    0 <= i < v@.len() ==> (#[trigger] v@[i]).0 == spec_frame_info(
                        old(self).width(),
                        old(self).height(),
                        old(self).depth(),
                        old(self).layers(),
                        old(self).faces(),
                        old(self).index() + i,
                    )
            },
            r matches Err(e) ==> (spec_walk(old(self).abs()).error == Some(e)
                && final(self).has_failed()),
    {
        let mut acc: Vec<(FrameInfo, Vec<u8>)> = Vec::new();
        proof {
            lemma_index_bound(*self);
            assert(frames_view(acc@) + spec_walk(self.abs()).frames =~= spec_walk(
                old(self).abs(),
            ).frames);
        }
        loop
            invariant
                self.wf(),
                self.width() == old(self).width(),
                self.height() == old(self).height(),
                self.depth() == old(self).depth(),
                self.layers() == old(self).layers(),
                self.faces() == old(self).faces(),
                self.levels() == old(self).levels(),
                self.has_failed() == old(self).has_failed(),
                old(self).has_failed() ==> acc@.len() == 0,
                old(self).index() <= self.index() <= self.total_frames(),
                acc@.len() == self.index() - old(self).index(),
                spec_walk(old(self).abs()).error == spec_walk(self.abs()).error,
                spec_walk(old(self).abs()).frames == frames_view(acc@) + spec_walk(
                    self.abs(),
                ).frames,
                forall|i: int|
                    0 <= i < acc@.len() ==> (#[trigger] acc@[i]).0 == spec_frame_info(
                        old(self).width(),
                        old(self).height(),
                        old(self).depth(),
                        old(self).layers(),
                        old(self).faces(),
                        old(self).index() + i,
                    ),
            decreases self.total_frames() - self.index() + 1,
        {
            let ghost pre = *self;
            match self.next() {
                None => {
                    proof {
                        lemma_index_bound(*self);
                        assert(spec_walk(pre.abs()).frames =~= Seq::<(FrameInfo, Seq<u8>)>::empty());
                        assert(spec_walk(old(self).abs()).frames =~= frames_view(acc@));
                    }
                    return Ok(acc);
                },
                Some(Err(e)) => {
                    proof {
                        assert(!pre.done() && !pre.can_yield());
                        assert(spec_walk(pre.abs()).error == Some(pre.step_error()));
                    }
                    return Err(e);
                },
                Some(Ok(frame)) => {
                    let ghost fv_before = frames_view(acc@);
                    let ghost w_rest = spec_walk(self.abs());
                    acc.push(frame);
                    proof {
                        lemma_index_bound(*self);
                        assert(!pre.done() && pre.can_yield());
                        assert(spec_walk(pre.abs()).frames == seq![
                            (pre.abs().step_frame(), pre.abs().step_bytes()),
                        ] + w_rest.frames);
                        assert(frames_view(acc@) =~= fv_before + seq![
                            (pre.abs().step_frame(), pre.abs().step_bytes()),
                        ]);
                        assert(spec_walk(old(self).abs()).frames =~= frames_view(acc@)
                            + w_rest.frames);
                    }
                },
            }
        }
    }
}

/// A well-formed sequence's index never exceeds the file's frame count,
/// and reaches it exactly when the last level has been finished.
proof fn lemma_index_bound(s: Frames)
    requires
        s.wf(),
    ensures
        s.index() <= s.total_frames(),
        !s.mid_level() && s.cur_level() == s.levels() ==> s.index() == s.total_frames(),
        !s.mid_level() && s.cur_level() < s.levels() ==> s.index() < s.total_frames(),
        s.mid_level() ==> s.index() < s.total_frames(),
{
    let nl = s.layers() as int;
    let nf = s.faces() as int;
    let lv = s.levels() as int;
    let level = s.cur_level() as int;
    let layer = s.cur_layer() as int;
    let face = s.cur_face() as int;
    assert(nl * nf > 0) by {
        lemma_mul_strictly_positive(nl, nf);
    }
    assert(s.total_frames() == lv * (nl * nf));
    assert((level * nl + layer) * nf == level * (nl * nf) + layer * nf) by {
        lemma_mul_is_distributive_add_other_way(nf, level * nl, layer);
        lemma_mul_is_associative(level, nl, nf);
    }
    assert(layer * nf >= 0) by {
        vstd::arithmetic::mul::lemma_mul_nonnegative(layer, nf);
    }
    if s.mid_level() {
        assert(layer * nf + face < nl * nf) by {
            lemma_mul_is_distributive_add_other_way(nf, layer, 1);
            lemma_mul_inequality(layer + 1, nl, nf);
        }
        assert(level * (nl * nf) + nl * nf <= lv * (nl * nf)) by {
            lemma_mul_is_distributive_add_other_way(nl * nf, level, 1);
            lemma_mul_inequality(level + 1, lv, nl * nf);
        }
        assert(s.index() < s.total_frames());
    } else {
        assert(layer == 0 && face == 0);
        assert(layer * nf == 0) by {
            vstd::arithmetic::mul::lemma_mul_by_zero_is_zero(nf);
        }
        assert(s.index() == level * (nl * nf));
        assert(level * (nl * nf) <= lv * (nl * nf)) by {
            lemma_mul_inequality(level, lv, nl * nf);
        }
        if level < lv {
            assert(level * (nl * nf) + nl * nf <= lv * (nl * nf)) by {
                lemma_mul_is_distributive_add_other_way(nl * nf, level, 1);
                lemma_mul_inequality(level + 1, lv, nl * nf);
            }
            assert(s.index() < s.total_frames());
        }
        if level == lv {
            assert(s.index() == s.total_frames());
        }
    }
}

/// The frames of one level come layer-major, then face, with that level's
/// dimensions: for every level and every in-level position `j`, the frame
/// at overall index `level * nlayers * nfaces + j` belongs to that level,
/// lies at layer `j / nfaces` and face `j % nfaces`, and its dimensions
/// are the level-0 dimensions halved `level` times, floored at 1.  Each
/// level therefore spans exactly `nlayers * nfaces` consecutive indices.
pub proof fn lemma_frame_order(
    w: u32,
    h: u32,
    d: u32,
    nlayers: u32,
    nfaces: u32,
    level: u32,
    j: int,
)
    requires
        nlayers >= 1,
        nfaces >= 1,
        0 <= j < frames_per_level(nlayers, nfaces),
    ensures
        ({
            let f = spec_frame_info(
                w,
                h,
                d,
                nlayers,
                nfaces,
                level * frames_per_level(nlayers, nfaces) + j,
            );
            &&& f.level == level
            &&& f.layer == j / (nfaces as int)
            &&& f.face == j % (nfaces as int)
            &&& f.pixel_width == level_extent(w, level)
            &&& f.pixel_height == level_extent(h, level)
            &&& f.pixel_depth == level_extent(d, level)
        }),
{
    let fpl = frames_per_level(nlayers, nfaces);
    let k = level * fpl + j;
    assert(fpl > 0) by {
        lemma_mul_strictly_positive(nlayers as int, nfaces as int);
    }
    lemma_fundamental_div_mod_converse(k, fpl, level as int, j);
    lemma_fundamental_div_mod(j, nfaces as int);
    assert(j / (nfaces as int) < nlayers) by {
        vstd::arithmetic::div_mod::lemma_multiply_divide_lt(j, nfaces as int, nlayers as int);
        lemma_mul_is_associative(1, nfaces as int, nlayers as int);
        assert(nfaces as int * nlayers as int == fpl) by {
            vstd::arithmetic::mul::lemma_mul_is_commutative(nfaces as int, nlayers as int);
        }
    }
}

/// Each level spans exactly `nlayers * nfaces` frames: an overall index
/// `k` yields a frame of `level` exactly when `k` lies in the block of
/// `nlayers * nfaces` consecutive indices that starts at
/// `level * nlayers * nfaces`.
pub proof fn lemma_level_frame_count(
    w: u32,
    h: u32,
    d: u32,
    nlayers: u32,
    nfaces: u32,
    level: u32,
    k: int,
)
    requires
        nlayers >= 1,
        nfaces >= 1,
        0 <= k < 0x1_0000_0000 * frames_per_level(nlayers, nfaces),
    ensures
        spec_frame_info(w, h, d, nlayers, nfaces, k).level == level <==> level * frames_per_level(
            nlayers,
            nfaces,
        ) <= k < (level + 1) * frames_per_level(nlayers, nfaces),
{
    let fpl = frames_per_level(nlayers, nfaces);
    assert(fpl > 0) by {
        lemma_mul_strictly_positive(nlayers as int, nfaces as int);
    }
    assert((level + 1) * fpl == level * fpl + fpl) by {
        lemma_mul_is_distributive_add_other_way(fpl, level as int, 1);
    }
    assert(k / fpl < 0x1_0000_0000) by {
        vstd::arithmetic::div_mod::lemma_multiply_divide_lt(k, fpl, 0x1_0000_0000);
        vstd::arithmetic::mul::lemma_mul_is_commutative(fpl, 0x1_0000_0000);
    }
    lemma_fundamental_div_mod(k, fpl);
    if spec_frame_info(w, h, d, nlayers, nfaces, k).level == level {
        assert(k / fpl >= 0) by {
            vstd::arithmetic::div_mod::lemma_div_pos_is_pos(k, fpl);
        }
        assert(k / fpl == level);
        assert(k == fpl * (k / fpl) + k % fpl);
        assert(fpl * (k / fpl) == level * fpl) by {
            vstd::arithmetic::mul::lemma_mul_is_commutative(fpl, k / fpl);
        }
    }
    if level * fpl <= k < (level + 1) * fpl {
        lemma_fundamental_div_mod_converse(k, fpl, level as int, k - level * fpl);
    }
}

/// The non-array-cubemap accounting exception, and the regular case: a
/// cubemap's `image_size` field already denotes one face, while any other
/// texture's is divided among its layers and then its faces.
pub proof fn lemma_face_size(image_size: u32, nlayers: u32, nfaces: u32)
    requires
        nlayers >= 1,
        nfaces >= 1,
    ensures
        spec_face_size(image_size, nlayers, nfaces, true) == image_size,
        spec_face_size(image_size, nlayers, nfaces, false) == (image_size / nlayers) / nfaces,
{
}

/// The concatenation of the `n` consecutive `fs`-byte slices of `data`
/// that start at `base`, in order.
pub open spec fn concat_range(data: Seq<u8>, base: int, fs: int, n: int) -> Seq<u8>
    decreases n,
{
    if n <= 0 {
        Seq::empty()
    } else {
        concat_range(data, base, fs, n - 1) + data.subrange(base + (n - 1) * fs, base + n * fs)
    }
}

/// Round trip: concatenating the `n` face buffers of a level in yield
/// order reproduces the level's pixel bytes exactly as they lie in the
/// source, since buffer `j` is the slice of length `fs` at offset
/// `base + j * fs`.
pub proof fn lemma_frames_round_trip(data: Seq<u8>, base: int, fs: int, n: int)
    requires
        0 <= base,
        0 <= fs,
        0 <= n,
        base + n * fs <= data.len(),
    ensures
        concat_range(data, base, fs, n) == data.subrange(base, base + n * fs),
    decreases n,
{
    if n == 0 {
        assert(n * fs == 0) by {
            vstd::arithmetic::mul::lemma_mul_by_zero_is_zero(fs);
        }
        assert(concat_range(data, base, fs, 0) =~= data.subrange(base, base + n * fs));
    } else {
        assert(n * fs == (n - 1) * fs + fs) by {
            lemma_mul_is_distributive_add_other_way(fs, n - 1, 1);
        }
        assert((n - 1) * fs >= 0) by {
            vstd::arithmetic::mul::lemma_mul_nonnegative(n - 1, fs);
        }
        lemma_frames_round_trip(data, base, fs, n - 1);
        assert(concat_range(data, base, fs, n) =~= data.subrange(base, base + n * fs));
    }
}

/// Decomposing a lattice index: the overall index of `(level, layer,
/// face)` maps back to that triple by division and remainder.
proof fn lemma_lattice_index(nl: int, nf: int, level: int, layer: int, face: int)
    requires
        nl >= 1,
        nf >= 1,
        0 <= level,
        0 <= layer < nl,
        0 <= face < nf,
    ensures
        ((level * nl + layer) * nf + face) / (nl * nf) == level,
        (((level * nl + layer) * nf + face) % (nl * nf)) / nf == layer,
        (((level * nl + layer) * nf + face) % (nl * nf)) % nf == face,
{
    let k = (level * nl + layer) * nf + face;
    let rem = layer * nf + face;
    assert((level * nl + layer) * nf == level * (nl * nf) + layer * nf) by {
        lemma_mul_is_distributive_add_other_way(nf, level * nl, layer);
        lemma_mul_is_associative(level, nl, nf);
    }
    assert(rem < nl * nf) by {
        lemma_mul_is_distributive_add_other_way(nf, layer, 1);
        lemma_mul_inequality(layer + 1, nl, nf);
    }
    assert(nl * nf > 0) by {
        lemma_mul_strictly_positive(nl, nf);
    }
    lemma_fundamental_div_mod_converse(k, nl * nf, level, rem);
    lemma_fundamental_div_mod_converse(rem, nf, layer, face);
}

/// Stepping a lattice index: which triple the next index denotes, and
/// that a level boundary is crossed exactly when the index becomes a
/// multiple of the per-level frame count.
proof fn lemma_index_step(nl: int, nf: int, level: int, layer: int, face: int)
    requires
        nl >= 1,
        nf >= 1,
        0 <= level,
        0 <= layer < nl,
        0 <= face < nf,
    ensures
        face + 1 < nf ==> ((level * nl + layer) * nf + face) + 1 == (level * nl + layer) * nf + (
        face + 1) && (((level * nl + layer) * nf + face) + 1) % (nl * nf) != 0,
        face + 1 == nf && layer + 1 < nl ==> ((level * nl + layer) * nf + face) + 1 == (level * nl
            + (layer + 1)) * nf && (((level * nl + layer) * nf + face) + 1) % (nl * nf) != 0,
        face + 1 == nf && layer + 1 == nl ==> ((level * nl + layer) * nf + face) + 1 == ((level + 1)
            * nl) * nf && (((level * nl + layer) * nf + face) + 1) % (nl * nf) == 0,
{
    let k1 = ((level * nl + layer) * nf + face) + 1;
    assert(nl * nf > 0) by {
        lemma_mul_strictly_positive(nl, nf);
    }
    assert((level * nl + layer) * nf == level * (nl * nf) + layer * nf) by {
        lemma_mul_is_distributive_add_other_way(nf, level * nl, layer);
        lemma_mul_is_associative(level, nl, nf);
    }
    if face + 1 < nf {
        assert(layer * nf + face + 1 < nl * nf) by {
            lemma_mul_is_distributive_add_other_way(nf, layer, 1);
            lemma_mul_inequality(layer + 1, nl, nf);
        }
        lemma_fundamental_div_mod_converse(k1, nl * nf, level, layer * nf + face + 1);
    } else if layer + 1 < nl {
        assert((level * nl + (layer + 1)) * nf == level * (nl * nf) + (layer + 1) * nf) by {
            lemma_mul_is_distributive_add_other_way(nf, level * nl, layer + 1);
            lemma_mul_is_associative(level, nl, nf);
        }
        assert((layer + 1) * nf == layer * nf + nf) by {
            lemma_mul_is_distributive_add_other_way(nf, layer, 1);
        }
        assert((layer + 1) * nf < nl * nf) by {
            lemma_mul_is_distributive_add_other_way(nf, layer + 1, 1);
            lemma_mul_inequality(layer + 2, nl, nf);
        }
        assert((layer + 1) * nf > 0) by {
            lemma_mul_strictly_positive(layer + 1, nf);
        }
        lemma_fundamental_div_mod_converse(k1, nl * nf, level, (layer + 1) * nf);
    } else {
        assert(layer * nf + nf == nl * nf) by {
            lemma_mul_is_distributive_add_other_way(nf, layer, 1);
        }
        assert(((level + 1) * nl) * nf == level * (nl * nf) + nl * nf) by {
            lemma_mul_is_distributive_add_other_way(nl, level, 1);
            lemma_mul_is_distributive_add_other_way(nf, level * nl, nl);
            lemma_mul_is_associative(level, nl, nf);
        }
        assert((level + 1) * (nl * nf) == level * (nl * nf) + nl * nf) by {
            lemma_mul_is_distributive_add_other_way(nl * nf, level, 1);
        }
        lemma_fundamental_div_mod_converse(k1, nl * nf, level + 1, 0);
    }
}

} // verus!
