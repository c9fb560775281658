use vstd::prelude::*;
use vstd::string::StrSliceExecFns;

use crate::atlas::{atlas_of, build_atlas, image_views, lemma_atlas_of_len, AnimationAtlas, AtlasModel};
use crate::chunk::{
    chunk_at, expect_chunk, expect_chunk_at, read_chunk, skip_chunk, Chunk, ChunkModel, SIG_CBOX,
    SIG_CIMG, SIG_FNAM, SIG_FRAM, SIG_HEAD, SIG_PAL, SIG_SEQ, SIG_TPAL,
};
use crate::cursor::{u32_le, ByteCursor};
use crate::error::DecodeError;
use crate::image::{cimg_at, lemma_cimg_at_props, parse_cimg, FrameImage, ImageModel};
use crate::sequence::{
    anim_at, lemma_anim_at_props, parse_animation, span, AnimModel, Animation,
};

verus! {

/// Whether the buffer begins with the animation container's ten-byte magic
/// string `CHFILEANI` followed by a space.
pub open spec fn is_ani_magic(s: Seq<u8>) -> bool {
    &&& s[0] == 0x43u8  // C
    &&& s[1] == 0x48u8  // H
    &&& s[2] == 0x46u8  // F
    &&& s[3] == 0x49u8  // I
    &&& s[4] == 0x4Cu8  // L
    &&& s[5] == 0x45u8  // E
    &&& s[6] == 0x41u8  // A
    &&& s[7] == 0x4Eu8  // N
    &&& s[8] == 0x49u8  // I
    &&& s[9] == 0x20u8  // space
}

/// The file header: the magic string, a 32-bit length of everything that
/// follows the header, and a 16-bit file id. Yields the declared file end and
/// the offset just past the header.
pub open spec fn file_header_at(s: Seq<u8>) -> Result<(int, int), DecodeError> {
    if s.len() < 10 {
        Err(DecodeError::TruncatedData)
    } else if !is_ani_magic(s) {
        Err(DecodeError::MalformedHeader)
    } else if s.len() < 16 {
        Err(DecodeError::TruncatedData)
    } else {
        Ok((16 + u32_le(s, 10), 16))
    }
}

/// Expects the chunk tag `sig` at `p` and skips its body, yielding the offset
/// just past it.
pub open spec fn skip_expected_at(s: Seq<u8>, p: int, sig: u32) -> Result<int, DecodeError> {
    match expect_chunk_at(s, p, sig) {
        Err(e) => Err(e),
        Ok(c) => if c.end() > s.len() {
            Err(DecodeError::TruncatedData)
        } else {
            Ok(c.end())
        },
    }
}

/// One frame: a `HEAD` chunk, which is skipped, an optional `FNAM`, also
/// skipped, and the mandatory `CIMG` holding the image.
pub open spec fn frame_at(s: Seq<u8>, p: int) -> Result<(ImageModel, int), DecodeError> {
    match skip_expected_at(s, p, SIG_HEAD) {
        Err(e) => Err(e),
        Ok(q) => match chunk_at(s, q) {
            Err(e) => Err(e),
            Ok(c) => if c.sig == SIG_FNAM {
                if c.end() > s.len() {
                    Err(DecodeError::TruncatedData)
                } else {
                    match chunk_at(s, c.end()) {
                        Err(e) => Err(e),
                        Ok(c2) => frame_cimg_at(s, c2),
                    }
                }
            } else {
                frame_cimg_at(s, c)
            },
        },
    }
}

/// The `CIMG` chunk of a frame, whose declared length must cover the fixed
/// part of its body.
pub open spec fn frame_cimg_at(s: Seq<u8>, c: ChunkModel) -> Result<(ImageModel, int), DecodeError> {
    if c.sig != SIG_CIMG {
        Err(DecodeError::UnexpectedChunk)
    } else if c.length < 32 {
        Err(DecodeError::MalformedHeader)
    } else {
        cimg_at(s, c.start)
    }
}

/// A successful frame decode always advances, stays inside the buffer, and
/// yields a well-formed image.
pub proof fn lemma_frame_at_props(s: Seq<u8>, p: int)
    ensures
        frame_at(s, p) matches Ok((m, e)) ==> {
            &&& p < e <= s.len()
            &&& m.wf()
        },
{
    match skip_expected_at(s, p, SIG_HEAD) {
        Err(_) => {},
        Ok(q) => {
            match chunk_at(s, q) {
                Err(_) => {},
                Ok(c) => {
                    lemma_cimg_at_props(s, c.start);
                    if c.sig == SIG_FNAM && c.end() <= s.len() {
                        match chunk_at(s, c.end()) {
                            Err(_) => {},
                            Ok(c2) => {
                                lemma_cimg_at_props(s, c2.start);
                            },
                        }
                    }
                },
            }
        },
    }
}

/// The run of `FRAM` chunks at the top level of the file. One chunk header
/// past the run is consumed as a lookahead; its header offset is yielded
/// beside the decoded images.
pub open spec fn frames_at(s: Seq<u8>, p: int) -> Result<(Seq<ImageModel>, int), DecodeError>
    decreases span(p, s.len() as int),
{
    match chunk_at(s, p) {
        Err(e) => Err(e),
        Ok(c) => if c.sig != SIG_FRAM {
            Ok((Seq::empty(), p))
        } else {
            match frame_at(s, c.start) {
                Err(e) => Err(e),
                Ok((img, e2)) => {
                    proof {
                        lemma_frame_at_props(s, c.start);
                    }
                    match frames_at(s, e2) {
                        Err(e) => Err(e),
                        Ok((imgs, q)) => Ok((seq![img] + imgs, q)),
                    }
                },
            }
        },
    }
}

/// A successful frame run stays inside the buffer and yields only well-formed
/// images, with a readable lookahead chunk at the yielded offset.
pub proof fn lemma_frames_at_props(s: Seq<u8>, p: int)
    ensures
        frames_at(s, p) matches Ok((imgs, q)) ==> {
            &&& p <= q <= s.len()
            &&& chunk_at(s, q) matches Ok(c) && c.sig != SIG_FRAM
            &&& forall|i: int| 0 <= i < imgs.len() ==> (#[trigger] imgs[i]).wf()
        },
    decreases span(p, s.len() as int),
{
    match chunk_at(s, p) {
        Err(_) => {},
        Ok(c) => {
            if c.sig == SIG_FRAM {
                match frame_at(s, c.start) {
                    Err(_) => {},
                    Ok((img, e2)) => {
                        lemma_frame_at_props(s, c.start);
                        lemma_frames_at_props(s, e2);
                    },
                }
            }
        },
    }
}

/// The run of `SEQ ` chunks, starting at the header offset `p` of the
/// lookahead chunk. A chunk with any other tag ends the run; after each
/// animation the run also ends once the cursor has reached the declared file
/// end.
pub open spec fn seqs_at(
    s: Seq<u8>,
    p: int,
    file_end: int,
    images: Seq<ImageModel>,
    atlas: AtlasModel,
) -> Result<Seq<AnimModel>, DecodeError>
    decreases span(p, s.len() as int),
{
    match chunk_at(s, p) {
        Err(e) => Err(e),
        Ok(c) => if c.sig != SIG_SEQ {
            Ok(Seq::empty())
        } else {
            match anim_at(s, c.start, c.end(), images, atlas) {
                Err(e) => Err(e),
                Ok((a, e2)) => if e2 >= file_end {
                    Ok(seq![a])
                } else {
                    proof {
                        lemma_anim_at_end(s, c.start, c.end(), images, atlas);
                    }
                    match seqs_at(s, e2, file_end, images, atlas) {
                        Err(e) => Err(e),
                        Ok(rest) => Ok(seq![a] + rest),
                    }
                },
            }
        },
    }
}

/// A successful animation decode always advances and stays inside the buffer.
pub proof fn lemma_anim_at_end(
    s: Seq<u8>,
    p: int,
    seq_end: int,
    images: Seq<ImageModel>,
    atlas: AtlasModel,
)
    ensures
        anim_at(s, p, seq_end, images, atlas) matches Ok((a, e)) ==> p < e <= s.len(),
{
    match crate::sequence::seq_name_at(s, p) {
        Err(_) => {},
        Ok((name, q)) => {
            lemma_stats_at_end(s, q, seq_end, images);
        },
    }
}

/// The end position of a successful `STAT` run never passes the buffer end,
/// except in the trivial case where the run is empty and starts past it.
pub proof fn lemma_stats_at_end(s: Seq<u8>, p: int, seq_end: int, images: Seq<ImageModel>)
    ensures
        crate::sequence::stats_at(s, p, seq_end, images) matches Ok((fs, e)) ==> p <= e && (e
            <= s.len() || e == p),
    decreases span(p, seq_end),
{
    if p >= seq_end {
    } else {
        match crate::sequence::stat_group_at(s, p, images) {
            Err(_) => {},
            Ok((fm, e2)) => {
                crate::sequence::lemma_stat_group_advances(s, p, images);
                lemma_stats_at_end(s, e2, seq_end, images);
            },
        }
    }
}

/// Every animation of a successful `SEQ ` run has at least one frame, only
/// in-range frame indices, and carries the shared atlas.
pub proof fn lemma_seqs_at_props(
    s: Seq<u8>,
    p: int,
    file_end: int,
    images: Seq<ImageModel>,
    atlas: AtlasModel,
)
    requires
        0 <= p,
        images.len() > 0,
    ensures
        seqs_at(s, p, file_end, images, atlas) matches Ok(anims) ==> forall|i: int|
            0 <= i < anims.len() ==> {
                &&& (#[trigger] anims[i]).frames.len() > 0
                &&& anims[i].atlas == atlas
                &&& forall|j: int| 0 <= j < anims[i].frames.len() ==> 0 <= (#[trigger] anims[i].frames[j]).index < images.len()
            },
    decreases span(p, s.len() as int),
{
    match chunk_at(s, p) {
        Err(_) => {},
        Ok(c) => {
            if c.sig == SIG_SEQ {
                match anim_at(s, c.start, c.end(), images, atlas) {
                    Err(_) => {},
                    Ok((a, e2)) => {
                        lemma_anim_at_props(s, c.start, c.end(), images, atlas);
                        if e2 < file_end {
                            lemma_anim_at_end(s, c.start, c.end(), images, atlas);
                            lemma_seqs_at_props(s, e2, file_end, images, atlas);
                        }
                    },
                }
            }
        },
    }
}

/// The whole animation container after its file header: four skipped chunks,
/// the frame-image run, the atlas built over it, and the animation run.
pub open spec fn bundle_after_header(s: Seq<u8>, p: int, file_end: int) -> Result<
    Seq<AnimModel>,
    DecodeError,
> {
    match skip_expected_at(s, p, SIG_HEAD) {
        Err(e) => Err(e),
        Ok(p1) => match skip_expected_at(s, p1, SIG_PAL) {
            Err(e) => Err(e),
            Ok(p2) => match skip_expected_at(s, p2, SIG_TPAL) {
                Err(e) => Err(e),
                Ok(p3) => match skip_expected_at(s, p3, SIG_CBOX) {
                    Err(e) => Err(e),
                    Ok(p4) => match frames_at(s, p4) {
                        Err(e) => Err(e),
                        Ok((imgs, q)) => if imgs.len() == 0 {
                            Err(DecodeError::MalformedHeader)
                        } else {
                            seqs_at(s, q, file_end, imgs, atlas_of(imgs))
                        },
                    },
                },
            },
        },
    }
}

/// The animation bundle encoded by a whole file.
pub open spec fn bundle_at(s: Seq<u8>) -> Result<Seq<AnimModel>, DecodeError> {
    match file_header_at(s) {
        Err(e) => Err(e),
        Ok((file_end, p)) => bundle_after_header(s, p, file_end),
    }
}

/// The last animation with the given name, if any; a later animation of the
/// same name shadows an earlier one.
pub open spec fn find_animation(anims: Seq<AnimModel>, name: Seq<char>) -> Option<AnimModel>
    decreases anims.len(),
{
    if anims.len() == 0 {
        None
    } else if anims.last().name == name {
        Some(anims.last())
    } else {
        find_animation(anims.drop_last(), name)
    }
}

/// The views of a list of animations.
pub open spec fn anim_views(anims: Seq<Animation>) -> Seq<AnimModel> {
    anims.map_values(|a: Animation| a@)
}

/// The name-indexed set of animations decoded from one file. Each animation
/// carries the file's shared atlas.
pub struct AnimationBundle {
    pub animations: Vec<Animation>,
}

impl View for AnimationBundle {
    type V = Seq<AnimModel>;

    open spec fn view(&self) -> Seq<AnimModel> {
        anim_views(self.animations@)
    }
}

/// Compares two strings character by character.
fn str_eq(a: &str, b: &str) -> (r: bool)
    ensures
        r == (a@ == b@),
{
    let la = a.unicode_len();
    let lb = b.unicode_len();
    if la != lb {
        proof {
            assert(a@.len() != b@.len());
        }
        return false;
    }
    let mut i: usize = 0;
    while i < la
        invariant
            i <= la,
            la == a@.len(),
            la == b@.len(),
            forall|j: int| 0 <= j < i ==> a@[j] == b@[j],
        decreases la - i,
    {
        if a.get_char(i) != b.get_char(i) {
            return false;
        }
        i = i + 1;
    }
    proof {
        assert(a@ =~= b@);
    }
    true
}

impl AnimationBundle {
    /// Looks an animation up by name. When one file holds several animations
    /// of the same name, the last one wins.
    pub fn get(&self, name: &str) -> (r: Option<&Animation>)
        ensures
            match find_animation(self@, name@) {
                Some(m) => r matches Some(a) && a@ == m,
                None => r is None,
            },
    {
        let ghost anims = self@;
        let mut i: usize = self.animations.len();
        proof {
            assert(anim_views(self.animations@).take(i as int) =~= anims);
        }
        while i > 0
            invariant
                anims == self@,
                i <= self.animations@.len(),
                find_animation(anims, name@) == find_animation(
                    anim_views(self.animations@).take(i as int),
                    name@,
                ),
            decreases i,
        {
            i = i - 1;
            proof {
                assert(anim_views(self.animations@).take(i as int + 1).drop_last()
                    =~= anim_views(self.animations@).take(i as int));
                assert(anim_views(self.animations@).take(i as int + 1).last()
                    == self.animations@[i as int]@);
            }
            if str_eq(self.animations[i].name.as_str(), name) {
                proof {
                    assert(find_animation(anims, name@) == Some(self.animations@[i as int]@));
                }
                return Some(&self.animations[i]);
            }
        }
        proof {
            assert(anim_views(self.animations@).take(0) =~= Seq::<AnimModel>::empty());
        }
        None
    }
}

/// A single-pass decoder for the animation container, owning a cursor over
/// the caller's byte buffer.
pub struct AniDecoder<'a> {
    cursor: ByteCursor<'a>,
    has_loaded_metadata: bool,
    file_end: u64,
}

impl<'a> AniDecoder<'a> {
    /// The whole underlying buffer.
    pub closed spec fn bytes(&self) -> Seq<u8> {
        self.cursor.bytes()
    }

    /// The cursor position.
    pub closed spec fn pos_int(&self) -> int {
        self.cursor.pos_int()
    }

    /// Whether the file header has been read and validated.
    pub closed spec fn metadata_loaded(&self) -> bool {
        self.has_loaded_metadata
    }

    /// The cursor stays in bounds, and once the header has been read it was
    /// valid and the declared file end has been recorded.
    pub closed spec fn wf(&self) -> bool {
        &&& self.cursor.wf()
        &&& self.metadata_loaded() ==> (file_header_at(self.bytes()) matches Ok((fe, p))
            && self.file_end_int() == fe)
    }

    /// The declared file end: the header end plus the length it declares.
    pub closed spec fn file_end_int(&self) -> int {
        self.file_end as int
    }

    /// Creates a decoder and reads the file header.
    pub fn new(bytes: &'a [u8]) -> (r: Result<AniDecoder<'a>, DecodeError>)
        ensures
            match file_header_at(bytes@) {
                Ok((fe, p)) => {
                    &&& r matches Ok(d) && d.wf() && d.metadata_loaded() && d.bytes() == bytes@
                        && d.pos_int() == p
                },
                Err(e) => r == Err::<AniDecoder<'a>, DecodeError>(e),
            },
    {
        let mut decoder = AniDecoder {
            cursor: ByteCursor::new(bytes),
            has_loaded_metadata: false,
            file_end: 0,
        };
        match decoder.read_metadata() {
            Ok(_) => Ok(decoder),
            Err(e) => Err(e),
        }
    }

    /// Reads and validates the file header once; later calls do nothing.
    pub fn read_metadata(&mut self) -> (r: Result<(), DecodeError>)
        requires
            old(self).wf(),
            !old(self).metadata_loaded() ==> old(self).pos_int() == 0,
        ensures
            final(self).wf(),
            final(self).bytes() == old(self).bytes(),
            old(self).metadata_loaded() ==> {
                &&& r matches Ok(u)
                &&& *final(self) == *old(self)
            },
            !old(self).metadata_loaded() ==> match file_header_at(old(self).bytes()) {
                Ok((fe, p)) => {
                    &&& r matches Ok(u)
                    &&& final(self).metadata_loaded()
                    &&& final(self).pos_int() == p
                    &&& final(self).file_end_int() == fe
                },
                Err(e) => r == Err::<(), DecodeError>(e),
            },
    {
        if self.has_loaded_metadata {
            return Ok(());
        }
        let magic = match self.cursor.read_bytes(10) {
            Ok(b) => b,
            Err(e) => {
                return Err(e);
            },
        };
        if !(magic[0] == 0x43 && magic[1] == 0x48 && magic[2] == 0x46 && magic[3] == 0x49
            && magic[4] == 0x4C && magic[5] == 0x45 && magic[6] == 0x41 && magic[7] == 0x4E
            && magic[8] == 0x49 && magic[9] == 0x20) {
            return Err(DecodeError::MalformedHeader);
        }
        let file_length = match self.cursor.read_u32() {
            Ok(v) => v,
            Err(e) => {
                return Err(e);
            },
        };
        // The file id, which nothing needs.
        match self.cursor.read_u16() {
            Ok(_) => (),
            Err(e) => {
                return Err(e);
            },
        };
        self.file_end = self.cursor.position() as u64 + file_length as u64;
        self.has_loaded_metadata = true;
        Ok(())
    }

    /// Decodes one frame: the skipped `HEAD`, the optional skipped `FNAM`,
    /// and the `CIMG` with the image. The cursor stands at the frame body.
    pub fn parse_frame(&mut self) -> (r: Result<FrameImage, DecodeError>)
        requires
            old(self).wf(),
        ensures
            final(self).wf(),
            final(self).bytes() == old(self).bytes(),
            final(self).metadata_loaded() == old(self).metadata_loaded(),
            final(self).file_end_int() == old(self).file_end_int(),
            match frame_at(old(self).bytes(), old(self).pos_int()) {
                Ok((m, e)) => {
                    &&& r matches Ok(img) && img@ == m && img@.wf()
                    &&& final(self).pos_int() == e
                },
                Err(e) => r == Err::<FrameImage, DecodeError>(e),
            },
    {
        parse_frame_inner(&mut self.cursor)
    }

    /// Decodes the whole container after the header: the four skipped chunks,
    /// the frame images, the atlas, and every animation sequence.
    pub fn load_animation_bundle(&mut self) -> (r: Result<AnimationBundle, DecodeError>)
        requires
            old(self).wf(),
            old(self).metadata_loaded(),
            old(self).pos_int() == 16,
        ensures
            final(self).wf(),
            final(self).bytes() == old(self).bytes(),
            match bundle_after_header(old(self).bytes(), 16, old(self).file_end_int()) {
                Ok(anims) => r matches Ok(b) && b@ == anims,
                Err(e) => r == Err::<AnimationBundle, DecodeError>(e),
            },
    {
        let ghost s = self.bytes();
        // The HEAD, PAL, TPAL and CBOX chunks hold nothing the sprite sheet
        // needs; skip all four.
        match skip_expected(&mut self.cursor, SIG_HEAD) {
            Ok(_) => (),
            Err(e) => {
                return Err(e);
            },
        };
        match skip_expected(&mut self.cursor, SIG_PAL) {
            Ok(_) => (),
            Err(e) => {
                return Err(e);
            },
        };
        match skip_expected(&mut self.cursor, SIG_TPAL) {
            Ok(_) => (),
            Err(e) => {
                return Err(e);
            },
        };
        match skip_expected(&mut self.cursor, SIG_CBOX) {
            Ok(_) => (),
            Err(e) => {
                return Err(e);
            },
        };
        let (images, lookahead, ghost_pos) = match parse_frames(&mut self.cursor) {
            Ok(t) => t,
            Err(e) => {
                return Err(e);
            },
        };
        if images.len() == 0 {
            return Err(DecodeError::MalformedHeader);
        }
        let atlas = match build_atlas(&images) {
            Ok(a) => a,
            Err(e) => {
                return Err(e);
            },
        };
        let animations = match parse_seqs(
            &mut self.cursor,
            lookahead,
            ghost_pos,
            self.file_end,
            &images,
            &atlas,
        ) {
            Ok(v) => v,
            Err(e) => {
                return Err(e);
            },
        };
        Ok(AnimationBundle { animations })
    }
}

/// Reads the chunk header at the cursor, requires the tag `sig`, and skips
/// the chunk body.
fn skip_expected(cur: &mut ByteCursor, sig: u32) -> (r: Result<(), DecodeError>)
    requires
        old(cur).wf(),
    ensures
        final(cur).wf(),
        final(cur).bytes() == old(cur).bytes(),
        match skip_expected_at(old(cur).bytes(), old(cur).pos_int(), sig) {
            Ok(q) => {
                &&& r matches Ok(u)
                &&& final(cur).pos_int() == q
            },
            Err(e) => r == Err::<(), DecodeError>(e),
        },
{
    let c = match expect_chunk(cur, sig) {
        Ok(c) => c,
        Err(e) => {
            return Err(e);
        },
    };
    skip_chunk(cur, &c)
}

/// Decodes one frame body: the skipped `HEAD`, the optional skipped `FNAM`,
/// and the `CIMG`.
fn parse_frame_inner(cur: &mut ByteCursor) -> (r: Result<FrameImage, DecodeError>)
    requires
        old(cur).wf(),
    ensures
        final(cur).wf(),
        final(cur).bytes() == old(cur).bytes(),
        match frame_at(old(cur).bytes(), old(cur).pos_int()) {
            Ok((m, e)) => {
                &&& r matches Ok(img) && img@ == m && img@.wf()
                &&& final(cur).pos_int() == e
            },
            Err(e) => r == Err::<FrameImage, DecodeError>(e),
        },
{
    match skip_expected(cur, SIG_HEAD) {
        Ok(_) => (),
        Err(e) => {
            return Err(e);
        },
    };
    // The frame name chunk is missing from some legitimate source files;
    // tolerate its absence.
    let mut item = match read_chunk(cur) {
        Ok(c) => c,
        Err(e) => {
            return Err(e);
        },
    };
    if item.sig == SIG_FNAM {
        match skip_chunk(cur, &item) {
            Ok(_) => (),
            Err(e) => {
                return Err(e);
            },
        };
        item = match read_chunk(cur) {
            Ok(c) => c,
            Err(e) => {
                return Err(e);
            },
        };
    }
    if item.sig != SIG_CIMG {
        return Err(DecodeError::UnexpectedChunk);
    }
    if item.length < 32 {
        return Err(DecodeError::MalformedHeader);
    }
    parse_cimg(cur)
}

/// Composes a decoded image prefix with the rest of a frame-run result.
pub open spec fn frames_compose(
    prefix: Seq<ImageModel>,
    r: Result<(Seq<ImageModel>, int), DecodeError>,
) -> Result<(Seq<ImageModel>, int), DecodeError> {
    match r {
        Ok((imgs, q)) => Ok((prefix + imgs, q)),
        Err(e) => Err(e),
    }
}

/// Reads the run of `FRAM` chunks at the cursor. Returns the decoded images
/// together with the first non-`FRAM` chunk header, already consumed, and
/// the offset where that header starts.
#[verifier::loop_isolation(false)]
#[verifier::rlimit(100)]
#[verifier::spinoff_prover]
fn parse_frames(cur: &mut ByteCursor) -> (r: Result<
    (Vec<FrameImage>, Chunk, Ghost<int>),
    DecodeError,
>)
    requires
        old(cur).wf(),
    ensures
        final(cur).wf(),
        final(cur).bytes() == old(cur).bytes(),
        match frames_at(old(cur).bytes(), old(cur).pos_int()) {
            Ok((models, q)) => r matches Ok((images, lookahead, pos)) && {
                &&& image_views(images@) == models
                &&& pos@ == q
                &&& chunk_at(old(cur).bytes(), q) == Ok::<ChunkModel, DecodeError>(lookahead@)
                &&& forall|i: int| 0 <= i < images@.len() ==> (#[trigger] images@[i])@.wf()
                &&& final(cur).pos_int() == lookahead@.start
            },
            Err(e) => r == Err::<(Vec<FrameImage>, Chunk, Ghost<int>), DecodeError>(e),
        },
{
    let ghost s = old(cur).bytes();
    let ghost p0 = old(cur).pos_int();
    let mut images: Vec<FrameImage> = Vec::new();
    let ghost mut item_pos = p0;
    let mut item = match read_chunk(cur) {
        Ok(c) => c,
        Err(e) => {
            return Err(e);
        },
    };
    proof {
        match frames_at(s, p0) {
            Ok((models, q)) => {
                assert(Seq::<ImageModel>::empty() + models =~= models);
            },
            Err(_) => {},
        }
        assert(image_views(images@) =~= Seq::<ImageModel>::empty());
    }
    while item.sig == SIG_FRAM
        invariant
            cur.wf(),
            cur.bytes() == s,
            chunk_at(s, item_pos) == Ok::<ChunkModel, DecodeError>(item@),
            cur.pos_int() == item@.start,
            forall|i: int| 0 <= i < images@.len() ==> (#[trigger] images@[i])@.wf(),
            frames_at(s, p0) == frames_compose(image_views(images@), frames_at(s, item_pos)),
        decreases span(item_pos, s.len() as int),
    {
        let ghost snap = image_views(images@);
        let img = match parse_frame_inner(cur) {
            Ok(img) => img,
            Err(e) => {
                return Err(e);
            },
        };
        proof {
            lemma_frame_at_props(s, item@.start);
        }
        images.push(img);
        proof {
            assert(image_views(images@) =~= snap + seq![img@]);
        }
        proof {
            item_pos = cur.pos_int();
        }
        item = match read_chunk(cur) {
            Ok(c) => c,
            Err(e) => {
                proof {
                    frames_compose_err(snap, seq![img@], s, item_pos);
                }
                return Err(e);
            },
        };
        proof {
            frames_compose_step(snap, seq![img@], frames_at(s, item_pos));
        }
    }
    proof {
        assert(image_views(images@) + Seq::<ImageModel>::empty() =~= image_views(images@));
    }
    Ok((images, item, Ghost(item_pos)))
}

/// Composition of image prefixes is associative.
proof fn frames_compose_step(
    a: Seq<ImageModel>,
    b: Seq<ImageModel>,
    r: Result<(Seq<ImageModel>, int), DecodeError>,
)
    ensures
        frames_compose(a, frames_compose(b, r)) == frames_compose(a + b, r),
{
    match r {
        Ok((imgs, q)) => {
            assert(a + (b + imgs) =~= (a + b) + imgs);
        },
        Err(_) => {},
    }
}

/// A failing continuation makes the whole composition fail.
proof fn frames_compose_err(a: Seq<ImageModel>, b: Seq<ImageModel>, s: Seq<u8>, p: int)
    ensures
        frames_at(s, p) matches Err(e) ==> frames_compose(a, frames_compose(b, frames_at(s, p)))
            == Err::<(Seq<ImageModel>, int), DecodeError>(e),
{
}

/// Composes a decoded animation prefix with the rest of a sequence-run
/// result.
pub open spec fn seqs_compose(
    prefix: Seq<AnimModel>,
    r: Result<Seq<AnimModel>, DecodeError>,
) -> Result<Seq<AnimModel>, DecodeError> {
    match r {
        Ok(anims) => Ok(prefix + anims),
        Err(e) => Err(e),
    }
}

/// Decodes the run of `SEQ ` chunks. `lookahead` is the chunk header already
/// consumed at offset `pos`, with the cursor at its body.
#[verifier::loop_isolation(false)]
#[verifier::rlimit(100)]
#[verifier::spinoff_prover]
fn parse_seqs(
    cur: &mut ByteCursor,
    lookahead: Chunk,
    Ghost(pos): Ghost<int>,
    file_end: u64,
    images: &Vec<FrameImage>,
    atlas: &AnimationAtlas,
) -> (r: Result<Vec<Animation>, DecodeError>)
    requires
        old(cur).wf(),
        chunk_at(old(cur).bytes(), pos) == Ok::<ChunkModel, DecodeError>(lookahead@),
        old(cur).pos_int() == lookahead@.start,
        images@.len() > 0,
    ensures
        final(cur).wf(),
        final(cur).bytes() == old(cur).bytes(),
        match seqs_at(old(cur).bytes(), pos, file_end as int, image_views(images@), atlas@) {
            Ok(anims) => r matches Ok(v) && anim_views(v@) == anims,
            Err(e) => r == Err::<Vec<Animation>, DecodeError>(e),
        },
{
    let ghost s = old(cur).bytes();
    let ghost views = image_views(images@);
    let ghost fe = file_end as int;
    let mut animations: Vec<Animation> = Vec::new();
    let mut item = lookahead;
    let ghost mut item_pos = pos;
    let mut finished = item.sig != SIG_SEQ;
    proof {
        match seqs_at(s, pos, fe, views, atlas@) {
            Ok(anims) => {
                assert(Seq::<AnimModel>::empty() + anims =~= anims);
            },
            Err(_) => {},
        }
        assert(anim_views(animations@) =~= Seq::<AnimModel>::empty());
    }
    while !finished
        invariant
            cur.wf(),
            cur.bytes() == s,
            finished ==> seqs_at(s, pos, fe, views, atlas@) == Ok::<Seq<AnimModel>, DecodeError>(
                anim_views(animations@),
            ),
            !finished ==> {
                &&& chunk_at(s, item_pos) == Ok::<ChunkModel, DecodeError>(item@)
                &&& item@.sig == SIG_SEQ
                &&& cur.pos_int() == item@.start
                &&& seqs_at(s, pos, fe, views, atlas@) == seqs_compose(
                    anim_views(animations@),
                    seqs_at(s, item_pos, fe, views, atlas@),
                )
            },
        decreases (if finished { 0int } else { 1int }), span(item_pos, s.len() as int),
    {
        let ghost snap = anim_views(animations@);
        let anim = match parse_animation(cur, &item, images, atlas) {
            Ok(a) => a,
            Err(e) => {
                return Err(e);
            },
        };
        animations.push(anim);
        proof {
            assert(anim_views(animations@) =~= snap + seq![anim@]);
            lemma_anim_at_end(s, item@.start, item@.end(), views, atlas@);
        }
        if cur.position() as u64 >= file_end {
            finished = true;
            proof {
                seqs_compose_step(snap, seq![anim@], seqs_at(s, cur.pos_int(), fe, views, atlas@));
                assert(anim_views(animations@) + Seq::<AnimModel>::empty() =~= anim_views(
                    animations@,
                ));
            }
        } else {
            proof {
                item_pos = cur.pos_int();
            }
            item = match read_chunk(cur) {
                Ok(c) => c,
                Err(e) => {
                    proof {
                        seqs_compose_step(snap, seq![anim@], seqs_at(s, item_pos, fe, views, atlas@));
                    }
                    return Err(e);
                },
            };
            proof {
                seqs_compose_step(snap, seq![anim@], seqs_at(s, item_pos, fe, views, atlas@));
            }
            if item.sig != SIG_SEQ {
                finished = true;
                proof {
                    assert(anim_views(animations@) + Seq::<AnimModel>::empty() =~= anim_views(
                        animations@,
                    ));
                }
            }
        }
    }
    Ok(animations)
}

/// Composition of animation prefixes is associative.
proof fn seqs_compose_step(a: Seq<AnimModel>, b: Seq<AnimModel>, r: Result<Seq<AnimModel>, DecodeError>)
    ensures
        seqs_compose(a, seqs_compose(b, r)) == seqs_compose(a + b, r),
{
    match r {
        Ok(anims) => {
            assert(a + (b + anims) =~= (a + b) + anims);
        },
        Err(_) => {},
    }
}

/// Decodes a whole animation container: the file header, the skipped header
/// chunks, every frame image, the shared atlas, and every named animation.
///
/// On success every animation has at least one frame, every frame index lies
/// below the atlas tile count, and the atlas buffer holds exactly
/// `4 * tile_width * tile_height * tile_count` bytes.
pub fn decode_animation_bundle(bytes: &[u8]) -> (r: Result<AnimationBundle, DecodeError>)
    ensures
        match bundle_at(bytes@) {
            Ok(anims) => r matches Ok(b) && b@ == anims,
            Err(e) => r == Err::<AnimationBundle, DecodeError>(e),
        },
        r matches Ok(b) ==> forall|i: int|
            0 <= i < b@.len() ==> {
                &&& (#[trigger] b@[i]).frames.len() > 0
                &&& b@[i].atlas.buffer.len() == 4 * b@[i].atlas.tile_width
                    * b@[i].atlas.tile_height * b@[i].atlas.tile_count
                &&& forall|j: int| 0 <= j < b@[i].frames.len() ==> 0 <= (#[trigger] b@[i].frames[j]).index < b@[i].atlas.tile_count
            },
{
    let mut decoder = match AniDecoder::new(bytes) {
        Ok(d) => d,
        Err(e) => {
            return Err(e);
        },
    };
    let out = decoder.load_animation_bundle();
    proof {
        lemma_bundle_at_props(bytes@);
    }
    out
}

/// Every animation of a successfully decoded bundle has frames, in-range
/// frame indices, and an atlas buffer of exactly the declared size.
pub proof fn lemma_bundle_at_props(s: Seq<u8>)
    ensures
        bundle_at(s) matches Ok(anims) ==> forall|i: int|
            0 <= i < anims.len() ==> {
                &&& (#[trigger] anims[i]).frames.len() > 0
                &&& anims[i].atlas.buffer.len() == 4 * anims[i].atlas.tile_width
                    * anims[i].atlas.tile_height * anims[i].atlas.tile_count
                &&& forall|j: int| 0 <= j < anims[i].frames.len() ==> 0 <= (#[trigger] anims[i].frames[j]).index < anims[i].atlas.tile_count
            },
{
    match file_header_at(s) {
        Err(_) => {},
        Ok((file_end, p)) => {
            match skip_expected_at(s, p, SIG_HEAD) {
                Err(_) => {},
                Ok(p1) => match skip_expected_at(s, p1, SIG_PAL) {
                    Err(_) => {},
                    Ok(p2) => match skip_expected_at(s, p2, SIG_TPAL) {
                        Err(_) => {},
                        Ok(p3) => match skip_expected_at(s, p3, SIG_CBOX) {
                            Err(_) => {},
                            Ok(p4) => {
                                lemma_frames_at_props(s, p4);
                                match frames_at(s, p4) {
                                    Err(_) => {},
                                    Ok((imgs, q)) => {
                                        if imgs.len() > 0 {
                                            lemma_atlas_of_len(imgs);
                                            lemma_seqs_at_props(
                                                s,
                                                q,
                                                file_end,
                                                imgs,
                                                atlas_of(imgs),
                                            );
                                        }
                                    },
                                }
                            },
                        },
                    },
                },
            }
        },
    }
}

} // verus!
