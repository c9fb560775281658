use vstd::prelude::*;

use crate::cursor::{u16_le, ByteCursor};
use crate::error::DecodeError;
use crate::rle::{lemma_pcx_rle_props, pcx_rle, RleIterator};

verus! {

/// The still-image format's version codes.
#[derive(Clone, Copy, Debug, PartialEq, Eq, Structural)]
pub enum PcxVersion {
    V0,
    V2,
    V3,
    V4,
    V5,
}

/// Bits per pixel per colour plane. Only eight-bit images can be decoded.
#[derive(Clone, Copy, Debug, PartialEq, Eq, Structural)]
pub enum PcxBitsPerPixelPlane {
    Bits1,
    Bits2,
    Bits4,
    Bits8,
}

/// The number of colour planes. Only single-plane images can be decoded.
#[derive(Clone, Copy, Debug, PartialEq, Eq, Structural)]
pub enum PcxColorPlanes {
    Single,
    Rgb,
    Rgba,
}

/// Everything the 128-byte fixed header declares.
pub ghost struct PcxHeaderModel {
    pub version: PcxVersion,
    pub rle: bool,
    pub bits: PcxBitsPerPixelPlane,
    pub min_x: int,
    pub min_y: int,
    pub max_x: int,
    pub max_y: int,
    pub width: int,
    pub height: int,
    pub horz_dpi: int,
    pub vert_dpi: int,
    pub ega_palette: Seq<u8>,
    pub color_planes: PcxColorPlanes,
    pub color_plane_bytes: int,
    pub grayscale_palette: bool,
    pub source_horz_resolution: int,
    pub source_vert_resolution: int,
}

/// The decoded still image: `width * height` pixels, four RGBA bytes each.
pub ghost struct PcxImageModel {
    pub width: int,
    pub height: int,
    pub data: Seq<u8>,
}

/// A decoded still image.
pub struct PcxImage {
    pub width: u32,
    pub height: u32,
    /// 32-bit RGBA encoded pixels, four bytes per pixel, row-major.
    pub data: Vec<u8>,
}

impl View for PcxImage {
    type V = PcxImageModel;

    open spec fn view(&self) -> PcxImageModel {
        PcxImageModel { width: self.width as int, height: self.height as int, data: self.data@ }
    }
}

/// The first four header bytes: the signature and the version, encoding and
/// bit-depth codes.
pub open spec fn pcx_codes_at(s: Seq<u8>) -> Result<
    (PcxVersion, bool, PcxBitsPerPixelPlane),
    DecodeError,
> {
    if s.len() < 1 {
        Err(DecodeError::TruncatedData)
    } else if s[0] != 0x0A {
        Err(DecodeError::MalformedHeader)
    } else if s.len() < 2 {
        Err(DecodeError::TruncatedData)
    } else if !(s[1] == 0 || s[1] == 2 || s[1] == 3 || s[1] == 4 || s[1] == 5) {
        Err(DecodeError::UnsupportedVariant)
    } else if s.len() < 3 {
        Err(DecodeError::TruncatedData)
    } else if !(s[2] == 0 || s[2] == 1) {
        Err(DecodeError::UnsupportedVariant)
    } else if s.len() < 4 {
        Err(DecodeError::TruncatedData)
    } else if !(s[3] == 1 || s[3] == 2 || s[3] == 4 || s[3] == 8) {
        Err(DecodeError::UnsupportedVariant)
    } else {
        Ok(
            (
                if s[1] == 0 {
                    PcxVersion::V0
                } else if s[1] == 2 {
                    PcxVersion::V2
                } else if s[1] == 3 {
                    PcxVersion::V3
                } else if s[1] == 4 {
                    PcxVersion::V4
                } else {
                    PcxVersion::V5
                },
                s[2] == 1,
                if s[3] == 1 {
                    PcxBitsPerPixelPlane::Bits1
                } else if s[3] == 2 {
                    PcxBitsPerPixelPlane::Bits2
                } else if s[3] == 4 {
                    PcxBitsPerPixelPlane::Bits4
                } else {
                    PcxBitsPerPixelPlane::Bits8
                },
            ),
        )
    }
}

/// The bounding box and the pixel size it gives.
pub ghost struct PcxBboxModel {
    pub min_x: int,
    pub min_y: int,
    pub max_x: int,
    pub max_y: int,
    pub width: int,
    pub height: int,
}

/// The bounding box at bytes four to eleven. A box that cannot give a
/// positive 16-bit size is malformed.
pub open spec fn pcx_bbox_at(s: Seq<u8>) -> Result<PcxBboxModel, DecodeError> {
    if s.len() < 12 {
        Err(DecodeError::TruncatedData)
    } else if u16_le(s, 8) < u16_le(s, 4) || u16_le(s, 10) < u16_le(s, 6) {
        Err(DecodeError::MalformedHeader)
    } else if u16_le(s, 8) - u16_le(s, 4) >= 0xFFFF || u16_le(s, 10) - u16_le(s, 6) >= 0xFFFF {
        Err(DecodeError::MalformedHeader)
    } else {
        Ok(
            PcxBboxModel {
                min_x: u16_le(s, 4),
                min_y: u16_le(s, 6),
                max_x: u16_le(s, 8),
                max_y: u16_le(s, 10),
                width: u16_le(s, 8) - u16_le(s, 4) + 1,
                height: u16_le(s, 10) - u16_le(s, 6) + 1,
            },
        )
    }
}

/// The rest of the fixed header, from the resolution fields to the reserved
/// filler that ends it.
pub ghost struct PcxTailModel {
    pub horz_dpi: int,
    pub vert_dpi: int,
    pub ega_palette: Seq<u8>,
    pub color_planes: PcxColorPlanes,
    pub color_plane_bytes: int,
    pub grayscale_palette: bool,
    pub source_horz_resolution: int,
    pub source_vert_resolution: int,
}

/// The header bytes from offset twelve on: the resolution, the 48-byte EGA
/// palette region, a reserved byte, the plane count, the bytes per plane
/// line, the palette-type flag, two source resolution fields, and 54 reserved
/// bytes. Pixel data follows.
pub open spec fn pcx_tail_at(s: Seq<u8>) -> Result<PcxTailModel, DecodeError> {
    if s.len() < 66 {
        Err(DecodeError::TruncatedData)
    } else if !(s[65] == 1 || s[65] == 3 || s[65] == 4) {
        Err(DecodeError::UnsupportedVariant)
    } else if s.len() < 69 {
        Err(DecodeError::TruncatedData)
    } else if !(s[68] == 0 || s[68] == 1) {
        Err(DecodeError::UnsupportedVariant)
    } else if s.len() < 127 {
        Err(DecodeError::TruncatedData)
    } else {
        Ok(
            PcxTailModel {
                horz_dpi: u16_le(s, 12),
                vert_dpi: u16_le(s, 14),
                ega_palette: s.subrange(16, 64),
                color_planes: if s[65] == 1 {
                    PcxColorPlanes::Single
                } else if s[65] == 3 {
                    PcxColorPlanes::Rgb
                } else {
                    PcxColorPlanes::Rgba
                },
                color_plane_bytes: u16_le(s, 66),
                grayscale_palette: s[68] == 1,
                source_horz_resolution: u16_le(s, 69),
                source_vert_resolution: u16_le(s, 71),
            },
        )
    }
}

/// The whole fixed header at the start of the file.
pub open spec fn pcx_header_at(s: Seq<u8>) -> Result<PcxHeaderModel, DecodeError> {
    match pcx_codes_at(s) {
        Err(e) => Err(e),
        Ok((version, rle, bits)) => match pcx_bbox_at(s) {
            Err(e) => Err(e),
            Ok(b) => match pcx_tail_at(s) {
                Err(e) => Err(e),
                Ok(t) => Ok(
                    PcxHeaderModel {
                        version,
                        rle,
                        bits,
                        min_x: b.min_x,
                        min_y: b.min_y,
                        max_x: b.max_x,
                        max_y: b.max_y,
                        width: b.width,
                        height: b.height,
                        horz_dpi: t.horz_dpi,
                        vert_dpi: t.vert_dpi,
                        ega_palette: t.ega_palette,
                        color_planes: t.color_planes,
                        color_plane_bytes: t.color_plane_bytes,
                        grayscale_palette: t.grayscale_palette,
                        source_horz_resolution: t.source_horz_resolution,
                        source_vert_resolution: t.source_vert_resolution,
                    },
                ),
            },
        },
    }
}

/// The four RGBA bytes of one palette-indexed pixel: its three-byte RGB
/// entry in the 768-byte palette, fully opaque.
pub open spec fn rgb_of_index(v: u8, palette: Seq<u8>) -> Seq<u8> {
    seq![palette[3 * v], palette[3 * v + 1], palette[3 * v + 2], 255u8]
}

/// The RGBA bytes of a whole palette-indexed pixel sequence.
pub open spec fn rgb_pixels(vs: Seq<u8>, palette: Seq<u8>) -> Seq<u8>
    decreases vs.len(),
{
    if vs.len() == 0 {
        Seq::empty()
    } else {
        rgb_pixels(vs.drop_last(), palette) + rgb_of_index(vs.last(), palette)
    }
}

pub proof fn lemma_rgb_pixels_len(vs: Seq<u8>, palette: Seq<u8>)
    ensures
        rgb_pixels(vs, palette).len() == 4 * vs.len(),
    decreases vs.len(),
{
    if vs.len() > 0 {
        lemma_rgb_pixels_len(vs.drop_last(), palette);
    }
}

/// The still image a whole file encodes: the header, the pixel index stream
/// (run-length encoded or raw) starting right after the header, and the
/// 256-colour palette in the last 769 bytes of the file, marked by `0x0C`.
/// Only eight-bit single-plane images are supported.
pub open spec fn pcx_image_at(s: Seq<u8>) -> Result<PcxImageModel, DecodeError> {
    match pcx_header_at(s) {
        Err(e) => Err(e),
        Ok(h) => if h.bits != PcxBitsPerPixelPlane::Bits8 {
            Err(DecodeError::UnsupportedVariant)
        } else if h.color_planes != PcxColorPlanes::Single {
            Err(DecodeError::UnsupportedVariant)
        } else {
            let n = h.width * h.height;
            let indices = if h.rle {
                match pcx_rle(s, 127, n) {
                    Ok((vs, e)) => Ok(vs),
                    Err(e) => Err(e),
                }
            } else {
                if 127 + n > s.len() {
                    Err(DecodeError::TruncatedData)
                } else {
                    Ok(s.subrange(127, 127 + n))
                }
            };
            match indices {
                Err(e) => Err(e),
                Ok(vs) => if s.len() < 769 {
                    Err(DecodeError::TruncatedData)
                } else if s[s.len() - 769] != 0x0C {
                    Err(DecodeError::MalformedHeader)
                } else {
                    Ok(
                        PcxImageModel {
                            width: h.width,
                            height: h.height,
                            data: rgb_pixels(vs, s.subrange(s.len() - 768, s.len() as int)),
                        },
                    )
                },
            }
        },
    }
}

/// A single-pass decoder for the still-image format, owning a cursor over
/// the caller's byte buffer.
pub struct PcxDecoder<'a> {
    cursor: ByteCursor<'a>,
    has_loaded_metadata: bool,
    version: Option<PcxVersion>,
    rle: bool,
    bits_per_pixel_plane: Option<PcxBitsPerPixelPlane>,
    min_x: u16,
    min_y: u16,
    max_x: u16,
    max_y: u16,
    width: u16,
    height: u16,
    horz_dpi: u16,
    vert_dpi: u16,
    palette: Option<Vec<u8>>,
    color_planes: Option<PcxColorPlanes>,
    color_plane_bytes: u16,
    grayscale_palette: bool,
    source_horz_resolution: u16,
    source_vert_resolution: u16,
}

impl<'a> PcxDecoder<'a> {
    /// The whole underlying buffer.
    pub closed spec fn bytes(&self) -> Seq<u8> {
        self.cursor.bytes()
    }

    /// The cursor position.
    pub closed spec fn pos_int(&self) -> int {
        self.cursor.pos_int()
    }

    /// Whether the file header has been read and validated.
    pub closed spec fn metadata_loaded(&self) -> bool {
        self.has_loaded_metadata
    }

    /// Whether the stored fields agree with the header model.
    pub closed spec fn header_matches(&self, h: PcxHeaderModel) -> bool {
        &&& self.version == Some(h.version)
        &&& self.rle == h.rle
        &&& self.bits_per_pixel_plane == Some(h.bits)
        &&& self.min_x as int == h.min_x
        &&& self.min_y as int == h.min_y
        &&& self.max_x as int == h.max_x
        &&& self.max_y as int == h.max_y
        &&& self.width as int == h.width
        &&& self.height as int == h.height
        &&& self.horz_dpi as int == h.horz_dpi
        &&& self.vert_dpi as int == h.vert_dpi
        &&& (h.bits == PcxBitsPerPixelPlane::Bits4 ==> (self.palette matches Some(v) && v@
            == h.ega_palette))
        &&& (h.bits != PcxBitsPerPixelPlane::Bits4 ==> self.palette is None)
        &&& self.color_planes == Some(h.color_planes)
        &&& self.color_plane_bytes as int == h.color_plane_bytes
        &&& self.grayscale_palette == h.grayscale_palette
        &&& self.source_horz_resolution as int == h.source_horz_resolution
        &&& self.source_vert_resolution as int == h.source_vert_resolution
    }

    /// The cursor stays in bounds, and once the header has been read it was
    /// valid and the stored fields reflect it.
    pub closed spec fn wf(&self) -> bool {
        &&& self.cursor.wf()
        &&& self.metadata_loaded() ==> (pcx_header_at(self.bytes()) matches Ok(h)
            && self.header_matches(h))
    }

    /// Creates a decoder and reads the file header.
    pub fn new(bytes: &'a [u8]) -> (r: Result<PcxDecoder<'a>, DecodeError>)
        ensures
            match pcx_header_at(bytes@) {
                Ok(h) => {
                    &&& r matches Ok(d) && d.wf() && d.metadata_loaded() && d.bytes() == bytes@
                        && d.pos_int() == 127
                },
                Err(e) => r == Err::<PcxDecoder<'a>, DecodeError>(e),
            },
    {
        let mut decoder = PcxDecoder {
            cursor: ByteCursor::new(bytes),
            has_loaded_metadata: false,
            version: None,
            rle: false,
            bits_per_pixel_plane: None,
            min_x: 0,
            min_y: 0,
            max_x: 0,
            max_y: 0,
            width: 0,
            height: 0,
            horz_dpi: 0,
            vert_dpi: 0,
            palette: None,
            color_planes: None,
            color_plane_bytes: 0,
            grayscale_palette: false,
            source_horz_resolution: 0,
            source_vert_resolution: 0,
        };
        match decoder.read_metadata() {
            Ok(_) => Ok(decoder),
            Err(e) => Err(e),
        }
    }

    /// Reads and validates the file header once; later calls do nothing.
    pub fn read_metadata(&mut self) -> (r: Result<(), DecodeError>)
        requires
            old(self).wf(),
            !old(self).metadata_loaded() ==> old(self).pos_int() == 0,
        ensures
            final(self).wf(),
            final(self).bytes() == old(self).bytes(),
            old(self).metadata_loaded() ==> {
                &&& r matches Ok(u)
                &&& *final(self) == *old(self)
            },
            !old(self).metadata_loaded() ==> match pcx_header_at(old(self).bytes()) {
                Ok(h) => {
                    &&& r matches Ok(u)
                    &&& final(self).metadata_loaded()
                    &&& final(self).header_matches(h)
                    &&& final(self).pos_int() == 127
                },
                Err(e) => r == Err::<(), DecodeError>(e),
            },
    {
        if self.has_loaded_metadata {
            return Ok(());
        }
        self.read_file_header()
    }

    /// Reads the 128-byte fixed header into the decoder's fields.
    fn read_file_header(&mut self) -> (r: Result<(), DecodeError>)
        requires
            old(self).wf(),
            !old(self).metadata_loaded(),
            old(self).pos_int() == 0,
        ensures
            final(self).wf(),
            final(self).bytes() == old(self).bytes(),
            match pcx_header_at(old(self).bytes()) {
                Ok(h) => {
                    &&& r matches Ok(u)
                    &&& final(self).metadata_loaded()
                    &&& final(self).header_matches(h)
                    &&& final(self).pos_int() == 127
                },
                Err(e) => r == Err::<(), DecodeError>(e),
            },
    {
        let (version, rle, bits) = match read_pcx_codes(&mut self.cursor) {
            Ok(t) => t,
            Err(e) => {
                return Err(e);
            },
        };
        self.version = Some(version);
        self.rle = rle;
        self.bits_per_pixel_plane = Some(bits);
        let bbox = match read_pcx_bbox(&mut self.cursor) {
            Ok(b) => b,
            Err(e) => {
                return Err(e);
            },
        };
        self.min_x = bbox.min_x;
        self.min_y = bbox.min_y;
        self.max_x = bbox.max_x;
        self.max_y = bbox.max_y;
        self.width = bbox.width;
        self.height = bbox.height;
        let tail = match read_pcx_tail(&mut self.cursor) {
            Ok(t) => t,
            Err(e) => {
                return Err(e);
            },
        };
        self.horz_dpi = tail.horz_dpi;
        self.vert_dpi = tail.vert_dpi;
        // The EGA palette region matters only for four-bit images.
        if bits == PcxBitsPerPixelPlane::Bits4 {
            self.palette = Some(tail.ega_palette);
        } else {
            self.palette = None;
        }
        self.color_planes = Some(tail.color_planes);
        self.color_plane_bytes = tail.color_plane_bytes;
        self.grayscale_palette = tail.grayscale_palette;
        self.source_horz_resolution = tail.source_horz_resolution;
        self.source_vert_resolution = tail.source_vert_resolution;
        self.has_loaded_metadata = true;
        Ok(())
    }

    /// Decodes the pixel data into an RGBA image: the index stream after the
    /// header, resolved through the 256-colour palette in the last 769 bytes
    /// of the file. Only eight-bit single-plane images are supported.
    #[verifier::rlimit(100)]
    #[verifier::spinoff_prover]
    pub fn read_image_data(&mut self) -> (r: Result<PcxImage, DecodeError>)
        requires
            old(self).wf(),
            old(self).metadata_loaded(),
            old(self).pos_int() == 127,
        ensures
            final(self).wf(),
            final(self).bytes() == old(self).bytes(),
            match pcx_image_at(old(self).bytes()) {
                Ok(m) => r matches Ok(img) && img@ == m,
                Err(e) => r == Err::<PcxImage, DecodeError>(e),
            },
    {
        let ghost s = self.bytes();
        let bits8 = match self.bits_per_pixel_plane {
            Some(PcxBitsPerPixelPlane::Bits8) => true,
            _ => false,
        };
        if !bits8 {
            return Err(DecodeError::UnsupportedVariant);
        }
        let single = match self.color_planes {
            Some(PcxColorPlanes::Single) => true,
            _ => false,
        };
        if !single {
            return Err(DecodeError::UnsupportedVariant);
        }
        proof {
            assert((self.width as int) * (self.height as int) <= 0xFFFF * 0xFFFF)
                by (nonlinear_arith)
                requires
                    self.width <= 0xFFFF,
                    self.height <= 0xFFFF,
            ;
        }
        let count = (self.width as usize) * (self.height as usize);
        let indices: Vec<u8> = if self.rle {
            let mut it = RleIterator::new(self.cursor);
            match it.decode(count) {
                Ok(v) => v,
                Err(e) => {
                    return Err(e);
                },
            }
        } else {
            match self.cursor.read_bytes(count) {
                Ok(v) => v,
                Err(e) => {
                    return Err(e);
                },
            }
        };
        // The 256-colour palette lives in the last 769 bytes: a marker byte,
        // then 256 RGB triples.
        if self.cursor.buf_len() < 769 {
            return Err(DecodeError::TruncatedData);
        }
        let pal_pos = self.cursor.buf_len() - 769;
        match self.cursor.seek_to(pal_pos) {
            Ok(_) => (),
            Err(e) => {
                return Err(e);
            },
        };
        let marker = match self.cursor.read_u8() {
            Ok(v) => v,
            Err(e) => {
                return Err(e);
            },
        };
        if marker != 0x0C {
            return Err(DecodeError::MalformedHeader);
        }
        let palette = match self.cursor.read_bytes(768) {
            Ok(v) => v,
            Err(e) => {
                return Err(e);
            },
        };
        let data = indices_to_rgb(&indices, &palette);
        Ok(PcxImage { width: self.width as u32, height: self.height as u32, data })
    }
}

/// The bounding box fields as read.
struct PcxBbox {
    min_x: u16,
    min_y: u16,
    max_x: u16,
    max_y: u16,
    width: u16,
    height: u16,
}

/// The header fields past the bounding box as read.
struct PcxTail {
    horz_dpi: u16,
    vert_dpi: u16,
    ega_palette: Vec<u8>,
    color_planes: PcxColorPlanes,
    color_plane_bytes: u16,
    grayscale_palette: bool,
    source_horz_resolution: u16,
    source_vert_resolution: u16,
}

/// Reads the signature and the version, encoding and bit-depth codes.
fn read_pcx_codes(cur: &mut ByteCursor) -> (r: Result<
    (PcxVersion, bool, PcxBitsPerPixelPlane),
    DecodeError,
>)
    requires
        old(cur).wf(),
        old(cur).pos_int() == 0,
    ensures
        final(cur).wf(),
        final(cur).bytes() == old(cur).bytes(),
        match pcx_codes_at(old(cur).bytes()) {
            Ok(t) => {
                &&& r matches Ok(u) && u == t
                &&& final(cur).pos_int() == 4
            },
            Err(e) => r == Err::<(PcxVersion, bool, PcxBitsPerPixelPlane), DecodeError>(e),
        },
{
    let signature = match cur.read_u8() {
        Ok(v) => v,
        Err(e) => {
            return Err(e);
        },
    };
    if signature != 0x0A {
        return Err(DecodeError::MalformedHeader);
    }
    let version_code = match cur.read_u8() {
        Ok(v) => v,
        Err(e) => {
            return Err(e);
        },
    };
    let version = if version_code == 0 {
        PcxVersion::V0
    } else if version_code == 2 {
        PcxVersion::V2
    } else if version_code == 3 {
        PcxVersion::V3
    } else if version_code == 4 {
        PcxVersion::V4
    } else if version_code == 5 {
        PcxVersion::V5
    } else {
        return Err(DecodeError::UnsupportedVariant);
    };
    let encoding = match cur.read_u8() {
        Ok(v) => v,
        Err(e) => {
            return Err(e);
        },
    };
    let rle = if encoding == 0 {
        false
    } else if encoding == 1 {
        true
    } else {
        return Err(DecodeError::UnsupportedVariant);
    };
    let bits_code = match cur.read_u8() {
        Ok(v) => v,
        Err(e) => {
            return Err(e);
        },
    };
    let bits = if bits_code == 1 {
        PcxBitsPerPixelPlane::Bits1
    } else if bits_code == 2 {
        PcxBitsPerPixelPlane::Bits2
    } else if bits_code == 4 {
        PcxBitsPerPixelPlane::Bits4
    } else if bits_code == 8 {
        PcxBitsPerPixelPlane::Bits8
    } else {
        return Err(DecodeError::UnsupportedVariant);
    };
    Ok((version, rle, bits))
}

/// Reads the bounding box and computes the pixel size.
fn read_pcx_bbox(cur: &mut ByteCursor) -> (r: Result<PcxBbox, DecodeError>)
    requires
        old(cur).wf(),
        old(cur).pos_int() == 4,
    ensures
        final(cur).wf(),
        final(cur).bytes() == old(cur).bytes(),
        match pcx_bbox_at(old(cur).bytes()) {
            Ok(b) => r matches Ok(v) && {
                &&& v.min_x as int == b.min_x
                &&& v.min_y as int == b.min_y
                &&& v.max_x as int == b.max_x
                &&& v.max_y as int == b.max_y
                &&& v.width as int == b.width
                &&& v.height as int == b.height
                &&& final(cur).pos_int() == 12
            },
            Err(e) => r == Err::<PcxBbox, DecodeError>(e),
        },
{
    let min_x = match cur.read_u16() {
        Ok(v) => v,
        Err(e) => {
            return Err(e);
        },
    };
    let min_y = match cur.read_u16() {
        Ok(v) => v,
        Err(e) => {
            return Err(e);
        },
    };
    let max_x = match cur.read_u16() {
        Ok(v) => v,
        Err(e) => {
            return Err(e);
        },
    };
    let max_y = match cur.read_u16() {
        Ok(v) => v,
        Err(e) => {
            return Err(e);
        },
    };
    // A bounding box without a positive 16-bit size is malformed.
    if max_x < min_x || max_y < min_y {
        return Err(DecodeError::MalformedHeader);
    }
    if max_x - min_x >= 0xFFFF || max_y - min_y >= 0xFFFF {
        return Err(DecodeError::MalformedHeader);
    }
    Ok(
        PcxBbox {
            min_x,
            min_y,
            max_x,
            max_y,
            width: max_x - min_x + 1,
            height: max_y - min_y + 1,
        },
    )
}

/// Reads the header fields past the bounding box, and the reserved filler.
#[verifier::rlimit(100)]
#[verifier::spinoff_prover]
fn read_pcx_tail(cur: &mut ByteCursor) -> (r: Result<PcxTail, DecodeError>)
    requires
        old(cur).wf(),
        old(cur).pos_int() == 12,
    ensures
        final(cur).wf(),
        final(cur).bytes() == old(cur).bytes(),
        match pcx_tail_at(old(cur).bytes()) {
            Ok(t) => r matches Ok(v) && {
                &&& v.horz_dpi as int == t.horz_dpi
                &&& v.vert_dpi as int == t.vert_dpi
                &&& v.ega_palette@ == t.ega_palette
                &&& v.color_planes == t.color_planes
                &&& v.color_plane_bytes as int == t.color_plane_bytes
                &&& v.grayscale_palette == t.grayscale_palette
                &&& v.source_horz_resolution as int == t.source_horz_resolution
                &&& v.source_vert_resolution as int == t.source_vert_resolution
                &&& final(cur).pos_int() == 127
            },
            Err(e) => r == Err::<PcxTail, DecodeError>(e),
        },
{
    let horz_dpi = match cur.read_u16() {
        Ok(v) => v,
        Err(e) => {
            return Err(e);
        },
    };
    let vert_dpi = match cur.read_u16() {
        Ok(v) => v,
        Err(e) => {
            return Err(e);
        },
    };
    // The 48-byte EGA palette region, used only by four-bit images.
    let ega_palette = match cur.read_bytes(48) {
        Ok(v) => v,
        Err(e) => {
            return Err(e);
        },
    };
    // One reserved byte.
    match cur.read_u8() {
        Ok(_) => (),
        Err(e) => {
            return Err(e);
        },
    };
    let planes_code = match cur.read_u8() {
        Ok(v) => v,
        Err(e) => {
            return Err(e);
        },
    };
    let color_planes = if planes_code == 1 {
        PcxColorPlanes::Single
    } else if planes_code == 3 {
        PcxColorPlanes::Rgb
    } else if planes_code == 4 {
        PcxColorPlanes::Rgba
    } else {
        return Err(DecodeError::UnsupportedVariant);
    };
    let color_plane_bytes = match cur.read_u16() {
        Ok(v) => v,
        Err(e) => {
            return Err(e);
        },
    };
    let palette_type = match cur.read_u8() {
        Ok(v) => v,
        Err(e) => {
            return Err(e);
        },
    };
    let grayscale_palette = if palette_type == 0 {
        false
    } else if palette_type == 1 {
        true
    } else {
        return Err(DecodeError::UnsupportedVariant);
    };
    let source_horz_resolution = match cur.read_u16() {
        Ok(v) => v,
        Err(e) => {
            return Err(e);
        },
    };
    let source_vert_resolution = match cur.read_u16() {
        Ok(v) => v,
        Err(e) => {
            return Err(e);
        },
    };
    // 54 reserved bytes end the fixed header.
    match cur.skip(54) {
        Ok(_) => (),
        Err(e) => {
            return Err(e);
        },
    };
    Ok(
        PcxTail {
            horz_dpi,
            vert_dpi,
            ega_palette,
            color_planes,
            color_plane_bytes,
            grayscale_palette,
            source_horz_resolution,
            source_vert_resolution,
        },
    )
}

/// Resolves a palette-indexed pixel sequence to RGBA bytes through a
/// 768-byte RGB palette.
#[verifier::loop_isolation(false)]
fn indices_to_rgb(vs: &Vec<u8>, palette: &Vec<u8>) -> (out: Vec<u8>)
    requires
        palette@.len() == 768,
    ensures
        out@ == rgb_pixels(vs@, palette@),
{
    let mut out: Vec<u8> = Vec::new();
    assert(out@ =~= rgb_pixels(vs@.take(0), palette@));
    let mut i: usize = 0;
    while i < vs.len()
        invariant
            i <= vs.len(),
            out@ == rgb_pixels(vs@.take(i as int), palette@),
        decreases vs.len() - i,
    {
        let base = 3 * (vs[i] as usize);
        out.push(palette[base]);
        out.push(palette[base + 1]);
        out.push(palette[base + 2]);
        out.push(255);
        proof {
            let t = vs@.take(i as int + 1);
            assert(t.drop_last() =~= vs@.take(i as int));
            assert(t.last() == vs@[i as int]);
            assert(out@ =~= rgb_pixels(vs@.take(i as int), palette@) + rgb_of_index(
                vs@[i as int],
                palette@,
            ));
        }
        i = i + 1;
    }
    assert(vs@.take(vs@.len() as int) =~= vs@);
    out
}

/// A successfully decoded image holds exactly four bytes per pixel.
pub proof fn lemma_pcx_image_props(s: Seq<u8>)
    ensures
        pcx_image_at(s) matches Ok(m) ==> {
            &&& 0 < m.width <= 0xFFFF
            &&& 0 < m.height <= 0xFFFF
            &&& m.data.len() == 4 * m.width * m.height
        },
{
    match pcx_header_at(s) {
        Err(_) => {},
        Ok(h) => {
            if h.bits == PcxBitsPerPixelPlane::Bits8 && h.color_planes == PcxColorPlanes::Single {
                let n = h.width * h.height;
                assert(0 < h.width * h.height && 4 * (h.width * h.height) == 4 * h.width
                    * h.height) by (nonlinear_arith)
                    requires
                        0 < h.width <= 0xFFFF,
                        0 < h.height <= 0xFFFF,
                ;
                if h.rle {
                    lemma_pcx_rle_props(s, 127, n);
                    match pcx_rle(s, 127, n) {
                        Ok((vs, e)) => {
                            lemma_rgb_pixels_len(vs, s.subrange(s.len() - 768, s.len() as int));
                        },
                        Err(_) => {},
                    }
                } else {
                    if 127 + n <= s.len() {
                        lemma_rgb_pixels_len(
                            s.subrange(127, 127 + n),
                            s.subrange(s.len() - 768, s.len() as int),
                        );
                    }
                }
            }
        },
    }
}

/// Decodes a whole still-image file into RGBA pixel data.
///
/// On success the pixel buffer holds exactly `4 * width * height` bytes.
pub fn decode_pcx_image(bytes: &[u8]) -> (r: Result<PcxImage, DecodeError>)
    ensures
        match pcx_image_at(bytes@) {
            Ok(m) => r matches Ok(img) && img@ == m,
            Err(e) => r == Err::<PcxImage, DecodeError>(e),
        },
        r matches Ok(img) ==> img@.data.len() == 4 * img@.width * img@.height,
{
    let mut decoder = match PcxDecoder::new(bytes) {
        Ok(d) => d,
        Err(e) => {
            return Err(e);
        },
    };
    let out = decoder.read_image_data();
    proof {
        lemma_pcx_image_props(bytes@);
    }
    out
}

} // verus!
