use vstd::prelude::*;
use vstd::slice::slice_to_vec;

use crate::atlas::image_views;
use crate::atlas::{AnimationAtlas, AtlasModel};
use crate::chunk::{
    expect_chunk, expect_chunk_at, seek_chunk_end, skip_chunk, Chunk, SIG_FRAM, SIG_HEAD, SIG_STAT,
};
use crate::cursor::{as_i16, u16_le, ByteCursor};
use crate::error::DecodeError;
use crate::image::{FrameImage, ImageModel};
use crate::rle::{lemma_rle_compose_assoc, rle_compose};

verus! {

/// One animation tick: a reference into the frame-image list, with the
/// image's own size and a drawing offset.
pub ghost struct FrameModel {
    pub index: int,
    pub width: int,
    pub height: int,
    pub offset_x: int,
    pub offset_y: int,
}

/// One animation tick, pointing at a frame image by position.
#[derive(Clone, Copy, Debug)]
pub struct Frame {
    /// The position of the referenced image in the decoded frame-image list;
    /// always below the image count.
    pub index: usize,
    pub width: u32,
    pub height: u32,
    pub offset_x: i32,
    pub offset_y: i32,
}

impl View for Frame {
    type V = FrameModel;

    open spec fn view(&self) -> FrameModel {
        FrameModel {
            index: self.index as int,
            width: self.width as int,
            height: self.height as int,
            offset_x: self.offset_x as int,
            offset_y: self.offset_y as int,
        }
    }
}

/// One named animation: an ordered list of frames over the shared atlas.
pub ghost struct AnimModel {
    pub name: Seq<char>,
    pub width: int,
    pub height: int,
    pub frames: Seq<FrameModel>,
    pub atlas: AtlasModel,
}

/// A named animation sequence, bound to the atlas of its file.
pub struct Animation {
    pub name: String,
    /// The largest frame width within this sequence.
    pub width: u32,
    /// The largest frame height within this sequence.
    pub height: u32,
    pub frames: Vec<Frame>,
    pub atlas: AnimationAtlas,
}

/// The views of a list of frames.
pub open spec fn frame_views(fs: Seq<Frame>) -> Seq<FrameModel> {
    fs.map_values(|f: Frame| f@)
}

impl View for Animation {
    type V = AnimModel;

    open spec fn view(&self) -> AnimModel {
        AnimModel {
            name: self.name@,
            width: self.width as int,
            height: self.height as int,
            frames: frame_views(self.frames@),
            atlas: self.atlas@,
        }
    }
}

impl AnimationAtlas {
    /// A copy with the same metrics and buffer.
    pub fn duplicate(&self) -> (r: AnimationAtlas)
        ensures
            r@ == self@,
    {
        AnimationAtlas {
            tile_width: self.tile_width,
            tile_height: self.tile_height,
            tile_count: self.tile_count,
            buffer: slice_to_vec(self.buffer.as_slice()),
        }
    }
}

/// How far `p` stands before `end`; zero once `p` has reached it.
pub open spec fn span(p: int, end: int) -> int {
    if p < end {
        end - p
    } else {
        0
    }
}

/// The position of the first zero byte at or after `i`, or the length if
/// there is none.
pub open spec fn name_end(s: Seq<u8>, i: int) -> int
    decreases s.len() - i,
{
    if i < 0 || i >= s.len() {
        i
    } else if s[i] == 0 {
        i
    } else {
        name_end(s, i + 1)
    }
}

/// Whether every byte is ASCII.
pub open spec fn all_ascii(s: Seq<u8>) -> bool {
    forall|i: int| 0 <= i < s.len() ==> s[i] < 0x80
}

/// The characters with the same code points as the bytes.
pub open spec fn chars_of(s: Seq<u8>) -> Seq<char> {
    s.map_values(|b: u8| b as char)
}

/// The name encoded in a sequence `HEAD` body: the bytes before the first
/// zero byte.
pub open spec fn name_bytes_of(buf: Seq<u8>) -> Seq<u8> {
    buf.take(name_end(buf, 0))
}

pub proof fn lemma_name_end_bounds(s: Seq<u8>, i: int)
    requires
        0 <= i <= s.len(),
    ensures
        i <= name_end(s, i) <= s.len(),
    decreases s.len() - i,
{
    if i < s.len() && s[i] != 0 {
        lemma_name_end_bounds(s, i + 1);
    }
}

/// The largest frame width in a sequence.
pub open spec fn max_frame_width(fs: Seq<FrameModel>) -> int
    decreases fs.len(),
{
    if fs.len() == 0 {
        0
    } else {
        let rest = max_frame_width(fs.drop_last());
        if fs.last().width > rest {
            fs.last().width
        } else {
            rest
        }
    }
}

/// The largest frame height in a sequence.
pub open spec fn max_frame_height(fs: Seq<FrameModel>) -> int
    decreases fs.len(),
{
    if fs.len() == 0 {
        0
    } else {
        let rest = max_frame_height(fs.drop_last());
        if fs.last().height > rest {
            fs.last().height
        } else {
            rest
        }
    }
}

/// One `STAT` group at `p`: a `HEAD`, which is skipped, and a `FRAM`
/// carrying the frame reference. An out-of-range frame index is clamped to
/// the last valid image, and parsing resumes at the `FRAM` chunk's declared
/// end, whose length is authoritative and may exceed the fields read.
pub open spec fn stat_group_at(s: Seq<u8>, p: int, images: Seq<ImageModel>) -> Result<
    (FrameModel, int),
    DecodeError,
> {
    match expect_chunk_at(s, p, SIG_STAT) {
        Err(e) => Err(e),
        Ok(stat) => match expect_chunk_at(s, stat.start, SIG_HEAD) {
            Err(e) => Err(e),
            Ok(head) => if head.end() > s.len() {
                Err(DecodeError::TruncatedData)
            } else {
                match expect_chunk_at(s, head.end(), SIG_FRAM) {
                    Err(e) => Err(e),
                    Ok(fram) => if fram.start + 12 > s.len() {
                        Err(DecodeError::TruncatedData)
                    } else if fram.end() > s.len() {
                        Err(DecodeError::TruncatedData)
                    } else {
                        let raw = u16_le(s, fram.start + 2);
                        let idx = if raw < images.len() {
                            raw
                        } else {
                            images.len() - 1
                        };
                        Ok(
                            (
                                FrameModel {
                                    index: idx,
                                    width: images[idx].width,
                                    height: images[idx].height,
                                    offset_x: as_i16(u16_le(s, fram.start + 4)),
                                    offset_y: as_i16(u16_le(s, fram.start + 6)),
                                },
                                fram.end(),
                            ),
                        )
                    },
                }
            },
        },
    }
}

pub proof fn lemma_stat_group_advances(s: Seq<u8>, p: int, images: Seq<ImageModel>)
    ensures
        stat_group_at(s, p, images) matches Ok((fm, e)) ==> p < e <= s.len(),
{
}

/// The run of `STAT` groups from `p` up to the sequence chunk's declared
/// end.
pub open spec fn stats_at(s: Seq<u8>, p: int, seq_end: int, images: Seq<ImageModel>) -> Result<
    (Seq<FrameModel>, int),
    DecodeError,
>
    decreases span(p, seq_end),
{
    if p >= seq_end {
        Ok((Seq::empty(), p))
    } else {
        match stat_group_at(s, p, images) {
            Err(e) => Err(e),
            Ok((fm, e2)) => {
                proof {
                    lemma_stat_group_advances(s, p, images);
                }
                rle_compose(seq![fm], stats_at(s, e2, seq_end, images))
            },
        }
    }
}

/// The nul-terminated ASCII name inside the `HEAD` chunk at `p`.
pub open spec fn seq_name_at(s: Seq<u8>, p: int) -> Result<(Seq<char>, int), DecodeError> {
    match expect_chunk_at(s, p, SIG_HEAD) {
        Err(e) => Err(e),
        Ok(head) => if head.end() > s.len() {
            Err(DecodeError::TruncatedData)
        } else {
            let name = name_bytes_of(s.subrange(head.start, head.end()));
            if !all_ascii(name) {
                Err(DecodeError::MalformedHeader)
            } else {
                Ok((chars_of(name), head.end()))
            }
        },
    }
}

/// The animation encoded by a `SEQ ` chunk body at `p`: a `HEAD` holding the
/// nul-terminated ASCII name, then `STAT` groups until the chunk's declared
/// end. An empty frame list is a malformed file.
pub open spec fn anim_at(
    s: Seq<u8>,
    p: int,
    seq_end: int,
    images: Seq<ImageModel>,
    atlas: AtlasModel,
) -> Result<(AnimModel, int), DecodeError> {
    match seq_name_at(s, p) {
        Err(e) => Err(e),
        Ok((name, q)) => match stats_at(s, q, seq_end, images) {
            Err(e) => Err(e),
            Ok((frames, e)) => if frames.len() == 0 {
                Err(DecodeError::MalformedHeader)
            } else {
                Ok(
                    (
                        AnimModel {
                            name,
                            width: max_frame_width(frames),
                            height: max_frame_height(frames),
                            frames,
                            atlas,
                        },
                        e,
                    ),
                )
            },
        },
    }
}

pub proof fn lemma_stats_at_props(s: Seq<u8>, p: int, seq_end: int, images: Seq<ImageModel>)
    requires
        0 <= p <= s.len(),
        images.len() > 0,
    ensures
        stats_at(s, p, seq_end, images) matches Ok((fs, e)) ==> {
            &&& p <= e <= s.len()
            &&& forall|i: int| 0 <= i < fs.len() ==> {
                &&& 0 <= (#[trigger] fs[i]).index < images.len()
                &&& fs[i].width == images[fs[i].index].width
                &&& fs[i].height == images[fs[i].index].height
            }
        },
    decreases span(p, seq_end),
{
    if p >= seq_end {
    } else {
        match stat_group_at(s, p, images) {
            Err(_) => {},
            Ok((fm, e2)) => {
                lemma_stat_group_advances(s, p, images);
                lemma_stats_at_props(s, e2, seq_end, images);
            },
        }
    }
}

pub proof fn lemma_anim_at_props(
    s: Seq<u8>,
    p: int,
    seq_end: int,
    images: Seq<ImageModel>,
    atlas: AtlasModel,
)
    requires
        0 <= p <= s.len(),
        images.len() > 0,
    ensures
        anim_at(s, p, seq_end, images, atlas) matches Ok((a, e)) ==> {
            &&& p < e <= s.len()
            &&& a.frames.len() > 0
            &&& a.atlas == atlas
            &&& forall|i: int| 0 <= i < a.frames.len() ==> 0 <= (#[trigger] a.frames[i]).index
                < images.len()
        },
{
    match seq_name_at(s, p) {
        Err(_) => {},
        Ok((name, q)) => {
            lemma_stats_at_props(s, q, seq_end, images);
        },
    }
}

/// Relies on `String::from_utf8`: bytes that are all ASCII are valid UTF-8
/// and decode to the characters with the same code points.
#[verifier::external_body]
fn ascii_string_from_bytes(bytes: &Vec<u8>) -> (r: String)
    requires
        all_ascii(bytes@),
    ensures
        r@ == chars_of(bytes@),
{
    match String::from_utf8(bytes.clone()) {
        Ok(s) => s,
        Err(_) => String::new(),
    }
}

/// Reads the `HEAD` chunk at the cursor and extracts the nul-terminated
/// ASCII name from its body.
#[verifier::loop_isolation(false)]
fn parse_seq_name(cur: &mut ByteCursor) -> (r: Result<String, DecodeError>)
    requires
        old(cur).wf(),
    ensures
        final(cur).wf(),
        final(cur).bytes() == old(cur).bytes(),
        match seq_name_at(old(cur).bytes(), old(cur).pos_int()) {
            Ok((name, e)) => {
                &&& r matches Ok(n) && n@ == name
                &&& final(cur).pos_int() == e
            },
            Err(e) => r == Err::<String, DecodeError>(e),
        },
{
    let head = match expect_chunk(cur, SIG_HEAD) {
        Ok(c) => c,
        Err(e) => {
            return Err(e);
        },
    };
    let buf = match cur.read_bytes(head.length as usize) {
        Ok(b) => b,
        Err(e) => {
            return Err(e);
        },
    };
    let mut name_bytes: Vec<u8> = Vec::new();
    let mut i: usize = 0;
    assert(buf@.take(0) =~= name_bytes@);
    while i < buf.len() && buf[i] != 0
        invariant
            i <= buf@.len(),
            name_end(buf@, 0) == name_end(buf@, i as int),
            name_bytes@ == buf@.take(i as int),
            all_ascii(name_bytes@),
        decreases buf@.len() - i,
    {
        if buf[i] >= 0x80 {
            proof {
                lemma_name_end_bounds(buf@, i as int + 1);
                assert(name_bytes_of(buf@)[i as int] == buf@[i as int]);
            }
            return Err(DecodeError::MalformedHeader);
        }
        name_bytes.push(buf[i]);
        proof {
            assert(name_bytes@ =~= buf@.take(i as int + 1));
        }
        i = i + 1;
    }
    proof {
        assert(name_end(buf@, 0) == i as int);
        assert(name_bytes@ == name_bytes_of(buf@));
    }
    Ok(ascii_string_from_bytes(&name_bytes))
}

/// Parses one `STAT` group: the skipped inner `HEAD` and the `FRAM` with the
/// frame reference.
#[verifier::rlimit(100)]
#[verifier::spinoff_prover]
fn parse_stat_group(cur: &mut ByteCursor, images: &Vec<FrameImage>) -> (r: Result<
    Frame,
    DecodeError,
>)
    requires
        old(cur).wf(),
        images@.len() > 0,
    ensures
        final(cur).wf(),
        final(cur).bytes() == old(cur).bytes(),
        match stat_group_at(old(cur).bytes(), old(cur).pos_int(), image_views(images@)) {
            Ok((fm, e)) => {
                &&& r matches Ok(f) && f@ == fm
                &&& final(cur).pos_int() == e
            },
            Err(e) => r == Err::<Frame, DecodeError>(e),
        },
{
    let ghost views = image_views(images@);
    match expect_chunk(cur, SIG_STAT) {
        Ok(_) => (),
        Err(e) => {
            return Err(e);
        },
    };
    let stat_head = match expect_chunk(cur, SIG_HEAD) {
        Ok(c) => c,
        Err(e) => {
            return Err(e);
        },
    };
    match skip_chunk(cur, &stat_head) {
        Ok(_) => (),
        Err(e) => {
            return Err(e);
        },
    };
    let fram = match expect_chunk(cur, SIG_FRAM) {
        Ok(c) => c,
        Err(e) => {
            return Err(e);
        },
    };
    // id, frame index, offsets, and a padding word.
    match cur.read_u16() {
        Ok(_) => (),
        Err(e) => {
            return Err(e);
        },
    };
    let raw_index = match cur.read_u16() {
        Ok(v) => v,
        Err(e) => {
            return Err(e);
        },
    };
    let offset_x = match cur.read_i16() {
        Ok(v) => v,
        Err(e) => {
            return Err(e);
        },
    };
    let offset_y = match cur.read_i16() {
        Ok(v) => v,
        Err(e) => {
            return Err(e);
        },
    };
    match cur.read_u32() {
        Ok(_) => (),
        Err(e) => {
            return Err(e);
        },
    };
    // An index past the image list is clamped to the last valid image, a
    // quirk of one source file that is kept.
    let index = if (raw_index as usize) < images.len() {
        raw_index as usize
    } else {
        images.len() - 1
    };
    // The FRAM body length is authoritative and may exceed the fields just
    // read; tolerate trailing padding bytes.
    match seek_chunk_end(cur, &fram) {
        Ok(_) => (),
        Err(e) => {
            return Err(e);
        },
    };
    proof {
        assert(views[index as int] == images@[index as int]@);
    }
    let image = &images[index];
    Ok(Frame { index, offset_x, offset_y, width: image.width, height: image.height })
}

/// Decodes one `SEQ ` chunk body into an [`Animation`], binding the shared
/// atlas. The cursor stands at the chunk body start.
#[verifier::loop_isolation(false)]
#[verifier::rlimit(100)]
#[verifier::spinoff_prover]
pub fn parse_animation(
    cur: &mut ByteCursor,
    seq: &Chunk,
    images: &Vec<FrameImage>,
    atlas: &AnimationAtlas,
) -> (r: Result<Animation, DecodeError>)
    requires
        old(cur).wf(),
        old(cur).pos_int() == seq@.start,
        seq@.start <= old(cur).bytes().len(),
        images@.len() > 0,
    ensures
        final(cur).wf(),
        final(cur).bytes() == old(cur).bytes(),
        match anim_at(old(cur).bytes(), seq@.start, seq@.end(), image_views(images@), atlas@) {
            Ok((m, e)) => {
                &&& r matches Ok(a) && a@ == m
                &&& final(cur).pos_int() == e
            },
            Err(e) => r == Err::<Animation, DecodeError>(e),
        },
{
    let ghost s = old(cur).bytes();
    let ghost views = image_views(images@);
    let name = match parse_seq_name(cur) {
        Ok(n) => n,
        Err(e) => {
            return Err(e);
        },
    };
    // The STAT groups, up to the declared end of the SEQ chunk.
    let ghost stats_p0 = cur.pos_int();
    let ghost seq_end = seq@.end();
    let mut frames: Vec<Frame> = Vec::new();
    proof {
        let r0 = stats_at(s, stats_p0, seq_end, views);
        match r0 {
            Ok((fs, e)) => {
                assert(Seq::<FrameModel>::empty() + fs =~= fs);
            },
            Err(_) => {},
        }
    }
    while cur.position() - seq.start < seq.length as usize
        invariant
            cur.wf(),
            cur.bytes() == s,
            seq@.start <= cur.pos_int(),
            stats_at(s, stats_p0, seq_end, views) == rle_compose(
                frame_views(frames@),
                stats_at(s, cur.pos_int(), seq_end, views),
            ),
        decreases span(cur.pos_int(), seq_end),
    {
        let ghost snap = frame_views(frames@);
        let frame = match parse_stat_group(cur, images) {
            Ok(f) => f,
            Err(e) => {
                return Err(e);
            },
        };
        proof {
            lemma_stat_group_advances(s, cur.pos_int(), views);
        }
        frames.push(frame);
        proof {
            assert(frame_views(frames@) =~= snap + seq![frame@]);
            lemma_rle_compose_assoc(snap, seq![frame@], stats_at(s, cur.pos_int(), seq_end, views));
        }
    }
    proof {
        assert(frame_views(frames@) + Seq::<FrameModel>::empty() =~= frame_views(frames@));
    }
    if frames.len() == 0 {
        return Err(DecodeError::MalformedHeader);
    }
    // The animation's own size: the largest frame width and height within it.
    let mut width: u32 = 0;
    let mut height: u32 = 0;
    let mut i: usize = 0;
    while i < frames.len()
        invariant
            i <= frames@.len(),
            width == max_frame_width(frame_views(frames@).take(i as int)),
            height == max_frame_height(frame_views(frames@).take(i as int)),
        decreases frames@.len() - i,
    {
        proof {
            assert(frame_views(frames@).take(i as int + 1).drop_last() =~= frame_views(
                frames@,
            ).take(i as int));
        }
        if frames[i].width > width {
            width = frames[i].width;
        }
        if frames[i].height > height {
            height = frames[i].height;
        }
        i = i + 1;
    }
    proof {
        assert(frame_views(frames@).take(frames@.len() as int) =~= frame_views(frames@));
    }
    Ok(Animation { name, width, height, frames, atlas: atlas.duplicate() })
}

} // verus!
