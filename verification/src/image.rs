use vstd::prelude::*;

use crate::cursor::{u16_le, u32_le, ByteCursor};
use crate::error::DecodeError;
use crate::rle::{decode_tga_rle, lemma_tga_rle_props, tga_rle, PixelWidth};

verus! {

/// The decoded pixel data of one physical image: `width * height` pixels in
/// row-major order, four bytes (red, green, blue, alpha) per pixel.
pub ghost struct ImageModel {
    pub width: int,
    pub height: int,
    pub data: Seq<u8>,
}

impl ImageModel {
    pub open spec fn wf(self) -> bool {
        &&& 0 <= self.width <= 0xFFFF
        &&& 0 <= self.height <= 0xFFFF
        &&& self.data.len() == 4 * self.width * self.height
    }
}

/// One decoded frame image.
pub struct FrameImage {
    pub width: u32,
    pub height: u32,
    /// 32-bit RGBA encoded pixels, four bytes per pixel, row-major.
    pub data: Vec<u8>,
}

impl View for FrameImage {
    type V = ImageModel;

    open spec fn view(&self) -> ImageModel {
        ImageModel { width: self.width as int, height: self.height as int, data: self.data@ }
    }
}

/// The four RGBA bytes of one 16-bit direct-colour pixel. A pixel equal to
/// the transparency key, or with its top bit set, is fully transparent;
/// otherwise each five-bit colour field is widened to eight bits and alpha is
/// fully opaque.
pub open spec fn rgba_of_pixel16(v: u16, key: u16) -> Seq<u8> {
    if v == key || v >= 0x8000 {
        seq![0u8, 0u8, 0u8, 0u8]
    } else {
        seq![
            (((v / 0x400) % 0x20) * 8) as u8,
            (((v / 0x20) % 0x20) * 8) as u8,
            ((v % 0x20) * 8) as u8,
            255u8,
        ]
    }
}

/// The RGBA bytes of a whole 16-bit pixel sequence.
pub open spec fn rgba16_pixels(vs: Seq<u16>, key: u16) -> Seq<u8>
    decreases vs.len(),
{
    if vs.len() == 0 {
        Seq::empty()
    } else {
        rgba16_pixels(vs.drop_last(), key) + rgba_of_pixel16(vs.last(), key)
    }
}

/// The four RGBA bytes of one palette-indexed pixel. The index matching the
/// hotspot pixel is fully transparent; any other index selects its four-byte
/// palette entry.
pub open spec fn rgba_of_index(v: u16, palette: Seq<u8>, hot: u16) -> Seq<u8> {
    if v == hot {
        seq![0u8, 0u8, 0u8, 0u8]
    } else {
        palette.subrange(4 * v, 4 * v + 4)
    }
}

/// The RGBA bytes of a whole palette-indexed pixel sequence.
pub open spec fn rgba8_pixels(vs: Seq<u16>, palette: Seq<u8>, hot: u16) -> Seq<u8>
    decreases vs.len(),
{
    if vs.len() == 0 {
        Seq::empty()
    } else {
        rgba8_pixels(vs.drop_last(), palette, hot) + rgba_of_index(vs.last(), palette, hot)
    }
}

pub proof fn lemma_rgba16_len(vs: Seq<u16>, key: u16)
    ensures
        rgba16_pixels(vs, key).len() == 4 * vs.len(),
    decreases vs.len(),
{
    if vs.len() > 0 {
        lemma_rgba16_len(vs.drop_last(), key);
    }
}

pub proof fn lemma_rgba8_len(vs: Seq<u16>, palette: Seq<u8>, hot: u16)
    requires
        palette.len() == 1024,
        forall|i: int| 0 <= i < vs.len() ==> vs[i] < 0x100,
    ensures
        rgba8_pixels(vs, palette, hot).len() == 4 * vs.len(),
    decreases vs.len(),
{
    if vs.len() > 0 {
        lemma_rgba8_len(vs.drop_last(), palette, hot);
    }
}

/// Converts one 16-bit direct-colour pixel to its four RGBA bytes.
pub fn rgba_from_pixel16(v: u16, key: u16) -> (r: [u8; 4])
    ensures
        r@ == rgba_of_pixel16(v, key),
{
    if v == key || v >= 0x8000 {
        let out: [u8; 4] = [0, 0, 0, 0];
        assert(out@ =~= rgba_of_pixel16(v, key));
        out
    } else {
        let red = ((v / 0x400) % 0x20) * 8;
        let green = ((v / 0x20) % 0x20) * 8;
        let blue = (v % 0x20) * 8;
        let out: [u8; 4] = [red as u8, green as u8, blue as u8, 255];
        assert(out@ =~= rgba_of_pixel16(v, key));
        out
    }
}

/// Converts a 16-bit pixel sequence to RGBA bytes.
#[verifier::loop_isolation(false)]
fn pixels16_to_rgba(vs: &Vec<u16>, key: u16) -> (out: Vec<u8>)
    ensures
        out@ == rgba16_pixels(vs@, key),
{
    let mut out: Vec<u8> = Vec::new();
    assert(out@ =~= rgba16_pixels(vs@.take(0), key));
    let mut i: usize = 0;
    while i < vs.len()
        invariant
            i <= vs.len(),
            out@ == rgba16_pixels(vs@.take(i as int), key),
        decreases vs.len() - i,
    {
        let rgba = rgba_from_pixel16(vs[i], key);
        out.push(rgba[0]);
        out.push(rgba[1]);
        out.push(rgba[2]);
        out.push(rgba[3]);
        proof {
            let t = vs@.take(i as int + 1);
            assert(t.drop_last() =~= vs@.take(i as int));
            assert(t.last() == vs@[i as int]);
            assert(out@ =~= rgba16_pixels(vs@.take(i as int), key) + rgba_of_pixel16(vs@[i as int], key));
        }
        i = i + 1;
    }
    assert(vs@.take(vs@.len() as int) =~= vs@);
    out
}

/// Resolves a palette-indexed pixel sequence to RGBA bytes.
#[verifier::loop_isolation(false)]
fn indices_to_rgba(vs: &Vec<u16>, palette: &Vec<u8>, hot: u16) -> (out: Vec<u8>)
    requires
        palette@.len() == 1024,
        forall|i: int| 0 <= i < vs@.len() ==> vs@[i] < 0x100,
    ensures
        out@ == rgba8_pixels(vs@, palette@, hot),
{
    let mut out: Vec<u8> = Vec::new();
    assert(out@ =~= rgba8_pixels(vs@.take(0), palette@, hot));
    let mut i: usize = 0;
    while i < vs.len()
        invariant
            i <= vs.len(),
            out@ == rgba8_pixels(vs@.take(i as int), palette@, hot),
        decreases vs.len() - i,
    {
        let v = vs[i];
        if v == hot {
            out.push(0);
            out.push(0);
            out.push(0);
            out.push(0);
        } else {
            let base = 4 * v as usize;
            out.push(palette[base]);
            out.push(palette[base + 1]);
            out.push(palette[base + 2]);
            out.push(palette[base + 3]);
        }
        proof {
            let t = vs@.take(i as int + 1);
            assert(t.drop_last() =~= vs@.take(i as int));
            assert(t.last() == vs@[i as int]);
            assert(rgba_of_index(vs@[i as int], palette@, hot).len() == 4);
            assert(out@ =~= rgba8_pixels(vs@.take(i as int), palette@, hot) + rgba_of_index(
                vs@[i as int],
                palette@,
                hot,
            ));
        }
        i = i + 1;
    }
    assert(vs@.take(vs@.len() as int) =~= vs@);
    out
}

/// The image encoded by the `CIMG` chunk body at offset `p`.
///
/// The body holds a format code selecting the bit depth, an additional-header
/// size that, when greater than 32, announces an embedded palette of
/// `additional - 32` bytes, the image metrics, the transparency key, and the
/// run-length-compressed pixel stream, which one stray trailing byte follows.
pub open spec fn cimg_at(s: Seq<u8>, p: int) -> Result<(ImageModel, int), DecodeError> {
    if p + 2 > s.len() {
        Err(DecodeError::TruncatedData)
    } else if u16_le(s, p) != 0x0004 && u16_le(s, p) != 0x000b {
        Err(DecodeError::UnsupportedVariant)
    } else if p + 8 > s.len() {
        Err(DecodeError::TruncatedData)
    } else if u32_le(s, p + 4) == 32 {
        Err(DecodeError::PaletteMissing)
    } else if p + 24 > s.len() {
        Err(DecodeError::TruncatedData)
    } else {
        let wide = u16_le(s, p) == 0x0004;
        let additional = u32_le(s, p + 4);
        let width = u16_le(s, p + 12);
        let height = u16_le(s, p + 14);
        let hotspot_x = u16_le(s, p + 16);
        let hotspot_y = u16_le(s, p + 18);
        let key = u16_le(s, p + 20);
        if additional > 32 {
            let psize = additional - 32;
            if p + 32 > s.len() {
                Err(DecodeError::TruncatedData)
            } else if p + 32 + psize > s.len() {
                Err(DecodeError::TruncatedData)
            } else {
                cimg_pixels(
                    s,
                    p + 32 + psize,
                    wide,
                    width,
                    height,
                    hotspot_x,
                    hotspot_y,
                    key,
                    Some(s.subrange(p + 32, p + 32 + psize)),
                )
            }
        } else {
            cimg_pixels(s, p + 24, wide, width, height, hotspot_x, hotspot_y, key, None)
        }
    }
}

/// The tail of a `CIMG` body: the size fields at offset `q`, then the pixel
/// stream, then the stray trailing byte. `p` is the body start, where the
/// image metrics lie.
/// What an `Option` of a byte vector holds, as a sequence.
pub open spec fn opt_bytes(o: Option<Vec<u8>>) -> Option<Seq<u8>> {
    match o {
        Some(v) => Some(v@),
        None => None,
    }
}

/// The tail of a `CIMG` body: the four size fields at offset `q`, then the
/// run-length-compressed pixel stream, then the stray trailing byte. The
/// image metrics were read from the fixed part of the body.
pub open spec fn cimg_pixels(
    s: Seq<u8>,
    q: int,
    wide: bool,
    width: int,
    height: int,
    hotspot_x: int,
    hotspot_y: int,
    key: int,
    palette: Option<Seq<u8>>,
) -> Result<(ImageModel, int), DecodeError> {
    if q + 12 > s.len() {
        Err(DecodeError::TruncatedData)
    } else if wide {
        match tga_rle(s, q + 12, width * height, PixelWidth::Bits16) {
            Ok((vs, e)) => if e + 1 > s.len() {
                Err(DecodeError::TruncatedData)
            } else {
                Ok(
                    (
                        ImageModel { width, height, data: rgba16_pixels(vs, key as u16) },
                        e + 1,
                    ),
                )
            },
            Err(e) => Err(e),
        }
    } else {
        match palette {
            None => Err(DecodeError::PaletteMissing),
            Some(pal) => if pal.len() != 1024 {
                Err(DecodeError::PaletteMissing)
            } else {
                match tga_rle(s, q + 12, width * height, PixelWidth::Bits8) {
                    Ok((vs, e)) => {
                        let hidx = hotspot_x + width * hotspot_y;
                        if hidx >= width * height {
                            Err(DecodeError::MalformedHeader)
                        } else if e + 1 > s.len() {
                            Err(DecodeError::TruncatedData)
                        } else {
                            Ok(
                                (
                                    ImageModel {
                                        width,
                                        height,
                                        data: rgba8_pixels(vs, pal, vs[hidx]),
                                    },
                                    e + 1,
                                ),
                            )
                        }
                    },
                    Err(e) => Err(e),
                }
            },
        }
    }
}

/// A successful `CIMG` decode always advances, stays inside the buffer, and
/// yields a well-formed image.
pub proof fn lemma_cimg_at_props(s: Seq<u8>, p: int)
    ensures
        cimg_at(s, p) matches Ok((m, e)) ==> {
            &&& p < e <= s.len()
            &&& m.wf()
        },
{
    if p + 24 <= s.len() && (u16_le(s, p) == 0x0004 || u16_le(s, p) == 0x000b) {
        let wide = u16_le(s, p) == 0x0004;
        let additional = u32_le(s, p + 4);
        let width = u16_le(s, p + 12);
        let height = u16_le(s, p + 14);
        let q: int = if additional > 32 {
            p + 32 + (additional - 32)
        } else {
            p + 24
        };
        if q + 12 <= s.len() {
            match tga_rle(s, q + 12, width * height, PixelWidth::Bits16) {
                Ok((vs, e)) => {
                    lemma_tga_rle_props(s, q + 12, width * height, PixelWidth::Bits16);
                    lemma_rgba16_len(vs, u16_le(s, p + 20) as u16);
                    assert(4 * (width * height) == 4 * width * height) by (nonlinear_arith);
                    assert(width * height >= 0) by (nonlinear_arith)
                        requires
                            width >= 0 && height >= 0,
                    ;
                },
                Err(_) => {},
            }
            match tga_rle(s, q + 12, width * height, PixelWidth::Bits8) {
                Ok((vs, e)) => {
                    lemma_tga_rle_props(s, q + 12, width * height, PixelWidth::Bits8);
                    if additional > 32 && p + 32 + (additional - 32) <= s.len() {
                        let pal = s.subrange(p + 32, p + 32 + (additional - 32));
                        if pal.len() == 1024 {
                            let hidx = u16_le(s, p + 16) + width * u16_le(s, p + 18);
                            if 0 <= hidx < width * height {
                                lemma_rgba8_len(vs, pal, vs[hidx]);
                            }
                        }
                    }
                    assert(4 * (width * height) == 4 * width * height) by (nonlinear_arith);
                    assert(width * height >= 0) by (nonlinear_arith)
                        requires
                            width >= 0 && height >= 0,
                    ;
                },
                Err(_) => {},
            }
        }
    }
}

/// Decodes the body of a `CIMG` chunk, the cursor standing at its start.
#[verifier::rlimit(100)]
#[verifier::spinoff_prover]
pub fn parse_cimg(cur: &mut ByteCursor) -> (r: Result<FrameImage, DecodeError>)
    requires
        old(cur).wf(),
    ensures
        final(cur).wf(),
        final(cur).bytes() == old(cur).bytes(),
        match cimg_at(old(cur).bytes(), old(cur).pos_int()) {
            Ok((m, e)) => {
                &&& r matches Ok(img) && img@ == m && img@.wf()
                &&& final(cur).pos_int() == e
            },
            Err(e) => r == Err::<FrameImage, DecodeError>(e),
        },
{
    let ghost s = old(cur).bytes();
    let ghost p = old(cur).pos_int();
    let format = match cur.read_u16() {
        Ok(v) => v,
        Err(e) => {
            return Err(e);
        },
    };
    let wide = if format == 0x0004 {
        true
    } else if format == 0x000b {
        false
    } else {
        return Err(DecodeError::UnsupportedVariant);
    };
    // An unknown field.
    match cur.read_u16() {
        Ok(_) => (),
        Err(e) => {
            return Err(e);
        },
    };
    let additional = match cur.read_u32() {
        Ok(v) => v,
        Err(e) => {
            return Err(e);
        },
    };
    if additional == 32 {
        return Err(DecodeError::PaletteMissing);
    }
    // An unknown field.
    match cur.read_u32() {
        Ok(_) => (),
        Err(e) => {
            return Err(e);
        },
    };
    let width = match cur.read_u16() {
        Ok(v) => v,
        Err(e) => {
            return Err(e);
        },
    };
    let height = match cur.read_u16() {
        Ok(v) => v,
        Err(e) => {
            return Err(e);
        },
    };
    let hotspot_x = match cur.read_u16() {
        Ok(v) => v,
        Err(e) => {
            return Err(e);
        },
    };
    let hotspot_y = match cur.read_u16() {
        Ok(v) => v,
        Err(e) => {
            return Err(e);
        },
    };
    let key = match cur.read_u16() {
        Ok(v) => v,
        Err(e) => {
            return Err(e);
        },
    };
    // An unknown field.
    match cur.read_u16() {
        Ok(_) => (),
        Err(e) => {
            return Err(e);
        },
    };
    let mut palette: Option<Vec<u8>> = None;
    if additional > 32 {
        // Two unknown fields precede the embedded palette.
        match cur.read_u32() {
            Ok(_) => (),
            Err(e) => {
                return Err(e);
            },
        };
        match cur.read_u32() {
            Ok(_) => (),
            Err(e) => {
                return Err(e);
            },
        };
        let psize = (additional - 32) as usize;
        match cur.read_bytes(psize) {
            Ok(buf) => {
                palette = Some(buf);
            },
            Err(e) => {
                return Err(e);
            },
        };
    }
    parse_cimg_pixels(cur, wide, width, height, hotspot_x, hotspot_y, key, palette)
}

/// Decodes the size fields, the pixel stream and the stray trailing byte of
/// a `CIMG` body, converting the pixels to RGBA.
#[verifier::rlimit(100)]
#[verifier::spinoff_prover]
fn parse_cimg_pixels(
    cur: &mut ByteCursor,
    wide: bool,
    width: u16,
    height: u16,
    hotspot_x: u16,
    hotspot_y: u16,
    key: u16,
    palette: Option<Vec<u8>>,
) -> (r: Result<FrameImage, DecodeError>)
    requires
        old(cur).wf(),
    ensures
        final(cur).wf(),
        final(cur).bytes() == old(cur).bytes(),
        match cimg_pixels(
            old(cur).bytes(),
            old(cur).pos_int(),
            wide,
            width as int,
            height as int,
            hotspot_x as int,
            hotspot_y as int,
            key as int,
            opt_bytes(palette),
        ) {
            Ok((m, e)) => {
                &&& r matches Ok(img) && img@ == m && img@.wf()
                &&& final(cur).pos_int() == e
            },
            Err(e) => r == Err::<FrameImage, DecodeError>(e),
        },
{
    let ghost s = old(cur).bytes();
    let ghost q = old(cur).pos_int();
    // Two unknown fields.
    match cur.read_u16() {
        Ok(_) => (),
        Err(e) => {
            return Err(e);
        },
    };
    match cur.read_u16() {
        Ok(_) => (),
        Err(e) => {
            return Err(e);
        },
    };
    // The compressed and uncompressed sizes, neither of which is needed.
    match cur.read_u32() {
        Ok(_) => (),
        Err(e) => {
            return Err(e);
        },
    };
    match cur.read_u32() {
        Ok(_) => (),
        Err(e) => {
            return Err(e);
        },
    };
    proof {
        assert((width as int) * (height as int) <= 0xFFFF * 0xFFFF) by (nonlinear_arith)
            requires
                width <= 0xFFFF,
                height <= 0xFFFF,
        ;
    }
    let count = (width as usize) * (height as usize);
    let data: Vec<u8> = if wide {
        let pixels = match decode_tga_rle(cur, count, PixelWidth::Bits16) {
            Ok(v) => v,
            Err(e) => {
                return Err(e);
            },
        };
        proof {
            lemma_tga_rle_props(s, q + 12, count as int, PixelWidth::Bits16);
        }
        let out = pixels16_to_rgba(&pixels, key);
        proof {
            lemma_rgba16_len(pixels@, key);
        }
        out
    } else {
        let pal = match palette {
            Some(pal) => pal,
            None => {
                return Err(DecodeError::PaletteMissing);
            },
        };
        if pal.len() != 1024 {
            return Err(DecodeError::PaletteMissing);
        }
        let pixels = match decode_tga_rle(cur, count, PixelWidth::Bits8) {
            Ok(v) => v,
            Err(e) => {
                return Err(e);
            },
        };
        proof {
            lemma_tga_rle_props(s, q + 12, count as int, PixelWidth::Bits8);
        }
        proof {
            assert((width as int) * (hotspot_y as int) <= 0xFFFF * 0xFFFF) by (nonlinear_arith)
                requires
                    width <= 0xFFFF,
                    hotspot_y <= 0xFFFF,
            ;
        }
        let hidx = (hotspot_x as usize) + (width as usize) * (hotspot_y as usize);
        if hidx >= pixels.len() {
            return Err(DecodeError::MalformedHeader);
        }
        let hot = pixels[hidx];
        let out = indices_to_rgba(&pixels, &pal, hot);
        proof {
            lemma_rgba8_len(pixels@, pal@, hot);
        }
        out
    };
    // One stray byte follows the pixel stream in every source file; consume
    // and discard it.
    match cur.read_u8() {
        Ok(_) => (),
        Err(e) => {
            return Err(e);
        },
    };
    proof {
        assert(4 * ((width as int) * (height as int)) == 4 * (width as int) * (height as int))
            by (nonlinear_arith);
    }
    Ok(FrameImage { width: width as u32, height: height as u32, data })
}

} // verus!
