use vstd::prelude::*;

use crate::cursor::{u16_le, ByteCursor};
use crate::error::DecodeError;

verus! {

/// The width of one pixel value in a run-length-encoded pixel stream.
#[derive(Clone, Copy, Debug, PartialEq, Eq, Structural)]
pub enum PixelWidth {
    Bits8,
    Bits16,
}

/// How many bytes one pixel value of width `w` occupies.
pub open spec fn width_bytes(w: PixelWidth) -> int {
    match w {
        PixelWidth::Bits8 => 1,
        PixelWidth::Bits16 => 2,
    }
}

/// The pixel value of width `w` stored little-endian at offset `p`.
pub open spec fn pixel_at(s: Seq<u8>, p: int, w: PixelWidth) -> u16 {
    match w {
        PixelWidth::Bits8 => s[p] as u16,
        PixelWidth::Bits16 => u16_le(s, p) as u16,
    }
}

/// `n` copies of the value `v`.
pub open spec fn repeat_value<T>(v: T, n: int) -> Seq<T> {
    Seq::new(n as nat, |i: int| v)
}

/// Prepends `prefix` to the pixels of a partial decode result.
pub open spec fn rle_compose<T>(
    prefix: Seq<T>,
    r: Result<(Seq<T>, int), DecodeError>,
) -> Result<(Seq<T>, int), DecodeError> {
    match r {
        Ok((rest, end)) => Ok((prefix + rest, end)),
        Err(e) => Err(e),
    }
}

/// `n` consecutive pixel values of width `w` starting at offset `p`, together
/// with the offset just past them.
pub open spec fn read_pixels(s: Seq<u8>, p: int, n: int, w: PixelWidth) -> Result<
    (Seq<u16>, int),
    DecodeError,
>
    decreases n,
{
    if n <= 0 {
        Ok((Seq::empty(), p))
    } else if p + width_bytes(w) > s.len() {
        Err(DecodeError::TruncatedData)
    } else {
        rle_compose(seq![pixel_at(s, p, w)], read_pixels(s, p + width_bytes(w), n - 1, w))
    }
}

/// The run-length pixel alphabet of the animation format, decoding exactly
/// `count` pixel values of width `w` from offset `p`.
///
/// Each packet starts with a control byte. If its top bit is set, the low
/// seven bits encode one less than a run length and a single pixel value
/// follows, to be repeated; otherwise the low seven bits encode one less than
/// a count of raw pixel values that follow. Decoding stops as soon as `count`
/// pixels have been produced, abandoning the remainder of the final packet.
pub open spec fn tga_rle(s: Seq<u8>, p: int, count: int, w: PixelWidth) -> Result<
    (Seq<u16>, int),
    DecodeError,
>
    decreases count,
{
    if count <= 0 {
        Ok((Seq::empty(), p))
    } else if p + 1 > s.len() {
        Err(DecodeError::TruncatedData)
    } else {
        let control = s[p];
        let full = (control as int) % 0x80 + 1;
        let n = if full <= count {
            full
        } else {
            count
        };
        if control >= 0x80 {
            if p + 1 + width_bytes(w) > s.len() {
                Err(DecodeError::TruncatedData)
            } else {
                rle_compose(
                    repeat_value(pixel_at(s, p + 1, w), n),
                    tga_rle(s, p + 1 + width_bytes(w), count - n, w),
                )
            }
        } else {
            match read_pixels(s, p + 1, n, w) {
                Ok((vs, e)) => rle_compose(vs, tga_rle(s, e, count - n, w)),
                Err(e) => Err(e),
            }
        }
    }
}

/// The run-length byte alphabet of the still-image format, decoding exactly
/// `count` bytes from offset `p`.
///
/// A control byte with both top bits set encodes a run: the low six bits are
/// the run length and the following byte is the value to repeat. Any other
/// byte is a single literal value. Decoding stops as soon as `count` bytes
/// have been produced.
pub open spec fn pcx_rle(s: Seq<u8>, p: int, count: int) -> Result<(Seq<u8>, int), DecodeError>
    decreases count, s.len() - p,
{
    if count <= 0 {
        Ok((Seq::empty(), p))
    } else if p + 1 > s.len() {
        Err(DecodeError::TruncatedData)
    } else {
        let control = s[p];
        if control >= 0xC0 {
            if p + 2 > s.len() {
                Err(DecodeError::TruncatedData)
            } else {
                let full = (control as int) % 0x40;
                let n = if full <= count {
                    full
                } else {
                    count
                };
                rle_compose(repeat_value(s[p + 1], n), pcx_rle(s, p + 2, count - n))
            }
        } else {
            rle_compose(seq![control], pcx_rle(s, p + 1, count - 1))
        }
    }
}

pub proof fn lemma_rle_compose_assoc<T>(a: Seq<T>, b: Seq<T>, r: Result<(Seq<T>, int), DecodeError>)
    ensures
        rle_compose(a, rle_compose(b, r)) == rle_compose(a + b, r),
{
    match r {
        Ok((rest, end)) => {
            assert(a + (b + rest) =~= (a + b) + rest);
        },
        Err(_) => {},
    }
}

pub proof fn lemma_read_pixels_props(s: Seq<u8>, p: int, n: int, w: PixelWidth)
    requires
        p <= s.len(),
    ensures
        read_pixels(s, p, n, w) matches Ok((vs, e)) ==> {
            &&& vs.len() == (if n <= 0 { 0int } else { n })
            &&& p <= e <= s.len()
            &&& (w == PixelWidth::Bits8 ==> forall|i: int| 0 <= i < vs.len() ==> vs[i] < 0x100)
        },
    decreases n,
{
    if n <= 0 {
    } else if p + width_bytes(w) > s.len() {
    } else {
        lemma_read_pixels_props(s, p + width_bytes(w), n - 1, w);
    }
}

pub proof fn lemma_tga_rle_props(s: Seq<u8>, p: int, count: int, w: PixelWidth)
    requires
        p <= s.len(),
    ensures
        tga_rle(s, p, count, w) matches Ok((vs, e)) ==> {
            &&& vs.len() == (if count <= 0 { 0int } else { count })
            &&& p <= e <= s.len()
            &&& (w == PixelWidth::Bits8 ==> forall|i: int| 0 <= i < vs.len() ==> vs[i] < 0x100)
        },
    decreases count,
{
    if count <= 0 {
    } else if p + 1 > s.len() {
    } else {
        let control = s[p];
        let full = (control as int) % 0x80 + 1;
        let n = if full <= count {
            full
        } else {
            count
        };
        if control >= 0x80 {
            if p + 1 + width_bytes(w) <= s.len() {
                lemma_tga_rle_props(s, p + 1 + width_bytes(w), count - n, w);
            }
        } else {
            lemma_read_pixels_props(s, p + 1, n, w);
            match read_pixels(s, p + 1, n, w) {
                Ok((vs, e)) => {
                    lemma_tga_rle_props(s, e, count - n, w);
                },
                Err(_) => {},
            }
        }
    }
}

pub proof fn lemma_pcx_rle_props(s: Seq<u8>, p: int, count: int)
    requires
        p <= s.len(),
    ensures
        pcx_rle(s, p, count) matches Ok((vs, e)) ==> {
            &&& vs.len() == (if count <= 0 { 0int } else { count })
            &&& p <= e <= s.len()
        },
    decreases count, s.len() - p,
{
    if count <= 0 {
    } else if p + 1 > s.len() {
    } else {
        let control = s[p];
        if control >= 0xC0 {
            if p + 2 <= s.len() {
                let full = (control as int) % 0x40;
                let n = if full <= count {
                    full
                } else {
                    count
                };
                lemma_pcx_rle_props(s, p + 2, count - n);
            }
        } else {
            lemma_pcx_rle_props(s, p + 1, count - 1);
        }
    }
}

/// Reads one pixel value of width `width` from the cursor.
fn read_pixel(cur: &mut ByteCursor, width: PixelWidth) -> (r: Result<u16, DecodeError>)
    requires
        old(cur).wf(),
    ensures
        final(cur).wf(),
        final(cur).bytes() == old(cur).bytes(),
        old(cur).pos_int() + width_bytes(width) <= old(cur).bytes().len() ==> {
            &&& r matches Ok(v) && v == pixel_at(old(cur).bytes(), old(cur).pos_int(), width)
            &&& final(cur).pos_int() == old(cur).pos_int() + width_bytes(width)
        },
        old(cur).pos_int() + width_bytes(width) > old(cur).bytes().len() ==> {
            &&& r == Err::<u16, DecodeError>(DecodeError::TruncatedData)
            &&& final(cur).pos_int() == old(cur).pos_int()
        },
{
    match width {
        PixelWidth::Bits8 => {
            match cur.read_u8() {
                Ok(b) => Ok(b as u16),
                Err(e) => Err(e),
            }
        },
        PixelWidth::Bits16 => cur.read_u16(),
    }
}

/// Decodes exactly `count` run-length-encoded pixel values of width `width`,
/// one implementation for both the 8-bit and the 16-bit pixel stream.
#[verifier::loop_isolation(false)]
#[verifier::rlimit(100)]
#[verifier::spinoff_prover]
pub fn decode_tga_rle(cur: &mut ByteCursor, count: usize, width: PixelWidth) -> (r: Result<
    Vec<u16>,
    DecodeError,
>)
    requires
        old(cur).wf(),
    ensures
        final(cur).wf(),
        final(cur).bytes() == old(cur).bytes(),
        match tga_rle(old(cur).bytes(), old(cur).pos_int(), count as int, width) {
            Ok((vs, e)) => {
                &&& r matches Ok(v) && v@ == vs
                &&& final(cur).pos_int() == e
            },
            Err(e) => r == Err::<Vec<u16>, DecodeError>(e),
        },
{
    let ghost s = old(cur).bytes();
    let ghost p0 = old(cur).pos_int();
    let mut out: Vec<u16> = Vec::new();
    proof {
        let r = tga_rle(s, p0, count as int, width);
        match r {
            Ok((vs, e)) => {
                assert(Seq::<u16>::empty() + vs =~= vs);
            },
            Err(_) => {},
        }
    }
    while out.len() < count
        invariant
            cur.wf(),
            cur.bytes() == s,
            s == old(cur).bytes(),
            p0 == old(cur).pos_int(),
            out@.len() <= count,
            tga_rle(s, p0, count as int, width) == rle_compose(
                out@,
                tga_rle(s, cur.pos_int(), count - out@.len(), width),
            ),
        decreases count - out.len(),
    {
        let ghost rem = count - out@.len();
        let ghost snap = out@;
        let ghost packet_pos = cur.pos_int();
        let control = match cur.read_u8() {
            Ok(b) => b,
            Err(e) => {
                return Err(e);
            },
        };
        let full = (control % 0x80) as usize + 1;
        let left = count - out.len();
        let n = if full <= left {
            full
        } else {
            left
        };
        if control >= 0x80 {
            let v = match read_pixel(cur, width) {
                Ok(v) => v,
                Err(e) => {
                    return Err(e);
                },
            };
            assert(snap + repeat_value(v, 0int) =~= snap);
            let mut j: usize = 0;
            while j < n
                invariant
                    j <= n,
                    out@ == snap + repeat_value(v, j as int),
                decreases n - j,
            {
                assert(snap + repeat_value(v, j as int) + seq![v] =~= snap + repeat_value(
                    v,
                    j as int + 1,
                ));
                out.push(v);
                j = j + 1;
            }
            proof {
                lemma_rle_compose_assoc(
                    snap,
                    repeat_value(v, n as int),
                    tga_rle(s, cur.pos_int(), rem - n, width),
                );
            }
        } else {
            let ghost pstart = cur.pos_int();
            let mut j: usize = 0;
            proof {
                let r = read_pixels(s, pstart, n as int, width);
                match r {
                    Ok((vs, e)) => {
                        assert(Seq::<u16>::empty() + vs =~= vs);
                    },
                    Err(_) => {},
                }
            }
            while j < n
                invariant
                    j <= n,
                    cur.wf(),
                    cur.bytes() == s,
                    out@.len() == snap.len() + j,
                    out@.take(snap.len() as int) == snap,
                    read_pixels(s, pstart, n as int, width) == rle_compose(
                        out@.skip(snap.len() as int),
                        read_pixels(s, cur.pos_int(), n - j, width),
                    ),
                decreases n - j,
            {
                let ghost added = out@.skip(snap.len() as int);
                let v = match read_pixel(cur, width) {
                    Ok(v) => v,
                    Err(e) => {
                        return Err(e);
                    },
                };
                proof {
                    lemma_rle_compose_assoc(
                        added,
                        seq![v],
                        read_pixels(s, cur.pos_int(), n - (j + 1), width),
                    );
                }
                out.push(v);
                j = j + 1;
                proof {
                    assert(out@.take(snap.len() as int) =~= snap);
                    assert(out@.skip(snap.len() as int) =~= added + seq![v]);
                }
            }
            proof {
                let added = out@.skip(snap.len() as int);
                assert(added + Seq::<u16>::empty() =~= added);
                assert(snap + added =~= out@);
                lemma_rle_compose_assoc(snap, added, tga_rle(s, cur.pos_int(), rem - n, width));
            }
        }
    }
    assert(out@ + Seq::<u16>::empty() =~= out@);
    Ok(out)
}

/// A decoder for the still-image format's 8-bit run-length pixel alphabet,
/// consuming from a cursor it owns.
pub struct RleIterator<'a> {
    cursor: ByteCursor<'a>,
}

impl<'a> RleIterator<'a> {
    pub closed spec fn bytes(&self) -> Seq<u8> {
        self.cursor.bytes()
    }

    pub closed spec fn pos_int(&self) -> int {
        self.cursor.pos_int()
    }

    pub open spec fn wf(&self) -> bool {
        0 <= self.pos_int() <= self.bytes().len()
    }

    pub fn new(cursor: ByteCursor<'a>) -> (it: RleIterator<'a>)
        requires
            cursor.wf(),
        ensures
            it.wf(),
            it.bytes() == cursor.bytes(),
            it.pos_int() == cursor.pos_int(),
    {
        RleIterator { cursor }
    }

    /// Decodes exactly `count` bytes of run-length-encoded data.
    #[verifier::loop_isolation(false)]
    pub fn decode(&mut self, count: usize) -> (r: Result<Vec<u8>, DecodeError>)
        requires
            old(self).wf(),
        ensures
            final(self).wf(),
            final(self).bytes() == old(self).bytes(),
            match pcx_rle(old(self).bytes(), old(self).pos_int(), count as int) {
                Ok((vs, e)) => {
                    &&& r matches Ok(v) && v@ == vs
                    &&& final(self).pos_int() == e
                },
                Err(e) => r == Err::<Vec<u8>, DecodeError>(e),
            },
    {
        let ghost s = old(self).bytes();
        let ghost p0 = old(self).pos_int();
        let mut out: Vec<u8> = Vec::new();
        proof {
            let r = pcx_rle(s, p0, count as int);
            match r {
                Ok((vs, e)) => {
                    assert(Seq::<u8>::empty() + vs =~= vs);
                },
                Err(_) => {},
            }
        }
        while out.len() < count
            invariant
                self.cursor.wf(),
                self.cursor.bytes() == s,
                s == old(self).bytes(),
                p0 == old(self).pos_int(),
                out@.len() <= count,
                pcx_rle(s, p0, count as int) == rle_compose(
                    out@,
                    pcx_rle(s, self.cursor.pos_int(), count - out@.len()),
                ),
            decreases count - out.len(), s.len() - self.cursor.pos_int(),
        {
            let ghost rem = count - out@.len();
            let ghost snap = out@;
            let control = match self.cursor.read_u8() {
                Ok(b) => b,
                Err(e) => {
                    return Err(e);
                },
            };
            if control >= 0xC0 {
                let v = match self.cursor.read_u8() {
                    Ok(b) => b,
                    Err(e) => {
                        return Err(e);
                    },
                };
                let full = (control % 0x40) as usize;
                let left = count - out.len();
                let n = if full <= left {
                    full
                } else {
                    left
                };
                assert(snap + repeat_value(v, 0int) =~= snap);
                let mut j: usize = 0;
                while j < n
                    invariant
                        j <= n,
                        out@ == snap + repeat_value(v, j as int),
                    decreases n - j,
                {
                    assert(snap + repeat_value(v, j as int) + seq![v] =~= snap + repeat_value(
                        v,
                        j as int + 1,
                    ));
                    out.push(v);
                    j = j + 1;
                }
                proof {
                    lemma_rle_compose_assoc(
                        snap,
                        repeat_value(v, n as int),
                        pcx_rle(s, self.cursor.pos_int(), rem - n),
                    );
                }
            } else {
                out.push(control);
                proof {
                    assert(snap + seq![control] =~= out@);
                    lemma_rle_compose_assoc(
                        snap,
                        seq![control],
                        pcx_rle(s, self.cursor.pos_int(), rem - 1),
                    );
                }
            }
        }
        assert(out@ + Seq::<u8>::empty() =~= out@);
        Ok(out)
    }
}

} // verus!
