use vstd::prelude::*;

use crate::error::DecodeError;
use crate::image::{FrameImage, ImageModel};
use crate::rle::repeat_value;

verus! {

/// The tile metrics and the packed pixel buffer shared by every animation
/// decoded from one file: one tile-height-tall slot per source frame image,
/// stacked vertically in file order.
pub ghost struct AtlasModel {
    pub tile_width: int,
    pub tile_height: int,
    pub tile_count: int,
    pub buffer: Seq<u8>,
}

/// The sprite sheet built from all frame images of one file.
pub struct AnimationAtlas {
    pub tile_width: u32,
    pub tile_height: u32,
    pub tile_count: usize,
    /// 32-bit RGBA encoded pixels of the whole sheet.
    pub buffer: Vec<u8>,
}

impl View for AnimationAtlas {
    type V = AtlasModel;

    open spec fn view(&self) -> AtlasModel {
        AtlasModel {
            tile_width: self.tile_width as int,
            tile_height: self.tile_height as int,
            tile_count: self.tile_count as int,
            buffer: self.buffer@,
        }
    }
}

/// The widest width among the images.
pub open spec fn max_width(imgs: Seq<ImageModel>) -> int
    decreases imgs.len(),
{
    if imgs.len() == 0 {
        0
    } else {
        let rest = max_width(imgs.drop_last());
        if imgs.last().width > rest {
            imgs.last().width
        } else {
            rest
        }
    }
}

/// The tallest height among the images.
pub open spec fn max_height(imgs: Seq<ImageModel>) -> int
    decreases imgs.len(),
{
    if imgs.len() == 0 {
        0
    } else {
        let rest = max_height(imgs.drop_last());
        if imgs.last().height > rest {
            imgs.last().height
        } else {
            rest
        }
    }
}

/// The first `r` pixel rows of an image of width `w`, each padded on the
/// right with transparent pixels to the tile width `tw`.
pub open spec fn padded_rows(data: Seq<u8>, w: int, tw: int, r: int) -> Seq<u8>
    decreases r,
{
    if r <= 0 {
        Seq::empty()
    } else {
        padded_rows(data, w, tw, r - 1) + data.subrange(4 * w * (r - 1), 4 * w * r)
            + repeat_value(0u8, 4 * (tw - w))
    }
}

/// `n` fully transparent rows of the tile width `tw`.
pub open spec fn zero_rows(tw: int, n: int) -> Seq<u8>
    decreases n,
{
    if n <= 0 {
        Seq::empty()
    } else {
        zero_rows(tw, n - 1) + repeat_value(0u8, 4 * tw)
    }
}

/// One image padded on the right to the tile width and at the bottom to the
/// tile height.
pub open spec fn pad_image(m: ImageModel, tw: int, th: int) -> Seq<u8> {
    padded_rows(m.data, m.width, tw, m.height) + zero_rows(tw, th - m.height)
}

/// All images padded to the uniform tile size and concatenated in order.
pub open spec fn atlas_buffer(imgs: Seq<ImageModel>, tw: int, th: int) -> Seq<u8>
    decreases imgs.len(),
{
    if imgs.len() == 0 {
        Seq::empty()
    } else {
        atlas_buffer(imgs.drop_last(), tw, th) + pad_image(imgs.last(), tw, th)
    }
}

/// The atlas of a non-empty image list: the tile size covers the widest and
/// the tallest image, and the buffer packs every padded image in file order.
pub open spec fn atlas_of(imgs: Seq<ImageModel>) -> AtlasModel {
    AtlasModel {
        tile_width: max_width(imgs),
        tile_height: max_height(imgs),
        tile_count: imgs.len() as int,
        buffer: atlas_buffer(imgs, max_width(imgs), max_height(imgs)),
    }
}

/// The views of a list of frame images.
pub open spec fn image_views(imgs: Seq<FrameImage>) -> Seq<ImageModel> {
    imgs.map_values(|im: FrameImage| im@)
}

pub proof fn lemma_max_width_ge(imgs: Seq<ImageModel>, i: int)
    requires
        0 <= i < imgs.len(),
    ensures
        imgs[i].width <= max_width(imgs),
        imgs[i].height <= max_height(imgs),
    decreases imgs.len(),
{
    if i + 1 < imgs.len() {
        lemma_max_width_ge(imgs.drop_last(), i);
    }
}

/// The tile size of well-formed images stays within the 16-bit field range.
pub proof fn lemma_max_bounds(imgs: Seq<ImageModel>)
    requires
        forall|i: int| 0 <= i < imgs.len() ==> (#[trigger] imgs[i]).wf(),
    ensures
        0 <= max_width(imgs) <= 0xFFFF,
        0 <= max_height(imgs) <= 0xFFFF,
    decreases imgs.len(),
{
    if imgs.len() > 0 {
        lemma_max_bounds(imgs.drop_last());
    }
}

pub proof fn lemma_padded_rows_len(data: Seq<u8>, w: int, tw: int, r: int)
    requires
        0 <= w <= tw,
        0 <= r,
        4 * w * r <= data.len(),
    ensures
        padded_rows(data, w, tw, r).len() == 4 * tw * r,
    decreases r,
{
    if r == 0 {
        assert(4 * tw * r == 0) by (nonlinear_arith)
            requires
                r == 0,
        ;
    } else {
        assert(0 <= 4 * w * (r - 1) && 4 * w * (r - 1) + 4 * w == 4 * w * r) by (nonlinear_arith)
            requires
                0 <= w && 1 <= r,
        ;
        lemma_padded_rows_len(data, w, tw, r - 1);
        assert(4 * tw * (r - 1) + 4 * w + 4 * (tw - w) == 4 * tw * r) by (nonlinear_arith);
    }
}

pub proof fn lemma_zero_rows_len(tw: int, n: int)
    requires
        0 <= tw,
        0 <= n,
    ensures
        zero_rows(tw, n).len() == 4 * tw * n,
    decreases n,
{
    if n == 0 {
        assert(4 * tw * n == 0) by (nonlinear_arith)
            requires
                n == 0,
        ;
    } else {
        lemma_zero_rows_len(tw, n - 1);
        assert(4 * tw * (n - 1) + 4 * tw == 4 * tw * n) by (nonlinear_arith);
    }
}

pub proof fn lemma_pad_image_len(m: ImageModel, tw: int, th: int)
    requires
        m.wf(),
        m.width <= tw,
        m.height <= th,
    ensures
        pad_image(m, tw, th).len() == 4 * tw * th,
{
    lemma_padded_rows_len(m.data, m.width, tw, m.height);
    lemma_zero_rows_len(tw, th - m.height);
    assert(4 * tw * m.height + 4 * tw * (th - m.height) == 4 * tw * th) by (nonlinear_arith);
}

pub proof fn lemma_atlas_buffer_len(imgs: Seq<ImageModel>, tw: int, th: int)
    requires
        forall|i: int| 0 <= i < imgs.len() ==> (#[trigger] imgs[i]).wf(),
        forall|i: int| 0 <= i < imgs.len() ==> (#[trigger] imgs[i]).width <= tw,
        forall|i: int| 0 <= i < imgs.len() ==> (#[trigger] imgs[i]).height <= th,
        0 <= tw,
        0 <= th,
    ensures
        atlas_buffer(imgs, tw, th).len() == 4 * tw * th * imgs.len(),
    decreases imgs.len(),
{
    if imgs.len() == 0 {
        assert(4 * tw * th * 0 == 0) by (nonlinear_arith);
    } else {
        lemma_atlas_buffer_len(imgs.drop_last(), tw, th);
        lemma_pad_image_len(imgs.last(), tw, th);
        let n = imgs.len() as int;
        assert(4 * tw * th * (n - 1) + 4 * tw * th == 4 * tw * th * n) by (nonlinear_arith);
    }
}

/// The atlas buffer of a non-empty, well-formed image list has exactly
/// `4 * tile_width * tile_height * tile_count` bytes.
pub proof fn lemma_atlas_of_len(imgs: Seq<ImageModel>)
    requires
        forall|i: int| 0 <= i < imgs.len() ==> (#[trigger] imgs[i]).wf(),
    ensures
        atlas_of(imgs).buffer.len() == 4 * atlas_of(imgs).tile_width * atlas_of(imgs).tile_height
            * atlas_of(imgs).tile_count,
        0 <= atlas_of(imgs).tile_width,
        0 <= atlas_of(imgs).tile_height,
{
    let tw = max_width(imgs);
    let th = max_height(imgs);
    assert forall|i: int| 0 <= i < imgs.len() implies (#[trigger] imgs[i]).width <= tw
        && imgs[i].height <= th by {
        lemma_max_width_ge(imgs, i);
    }
    assert(0 <= tw && 0 <= th) by {
        if imgs.len() > 0 {
            lemma_max_width_ge(imgs, 0);
        }
    }
    lemma_atlas_buffer_len(imgs, tw, th);
}

/// Appends one image to the atlas buffer, padded on the right to the tile
/// width and at the bottom to the tile height with transparent pixels.
#[verifier::loop_isolation(false)]
#[verifier::rlimit(100)]
#[verifier::spinoff_prover]
fn push_padded_image(buffer: &mut Vec<u8>, img: &FrameImage, tile_width: u32, tile_height: u32)
    requires
        img@.wf(),
        img@.width <= tile_width <= 0xFFFF,
        img@.height <= tile_height <= 0xFFFF,
    ensures
        final(buffer)@ == old(buffer)@ + pad_image(img@, tile_width as int, tile_height as int),
{
    let ghost tw = tile_width as int;
    let ghost th = tile_height as int;
    let ghost outer_snap = buffer@;
    let w = img.width as usize;
    let data_len = img.data.len();
    assert(data_len == 4 * img@.width * img@.height);
    // Copy each pixel row, padding it on the right to the tile width.
    let mut base: usize = 0;
    let mut r: usize = 0;
    while r < img.height as usize
        invariant
            r <= img@.height,
            base == 4 * img@.width * r,
            buffer@ == outer_snap + padded_rows(img@.data, img@.width, tw, r as int),
        decreases img@.height - r,
    {
        let ghost row_snap = buffer@;
        proof {
            assert(4 * img@.width * (r as int) + 4 * img@.width == 4 * img@.width * (r as int
                + 1)) by (nonlinear_arith);
            assert(4 * img@.width * (r as int + 1) <= 4 * img@.width * img@.height)
                by (nonlinear_arith)
                requires
                    r as int + 1 <= img@.height,
                    0 <= img@.width,
            ;
        }
        let mut k: usize = 0;
        while k < 4 * w
            invariant
                k <= 4 * w,
                buffer@ == row_snap + img@.data.subrange(base as int, base as int + k as int),
            decreases 4 * w - k,
        {
            proof {
                assert(img@.data.subrange(base as int, base as int + k as int) + seq![
                    img@.data[base as int + k as int],
                ] =~= img@.data.subrange(base as int, base as int + k as int + 1));
            }
            buffer.push(img.data[base + k]);
            k = k + 1;
        }
        let pad = 4 * ((tile_width as usize) - w);
        let ghost mid_snap = buffer@;
        let mut k: usize = 0;
        while k < pad
            invariant
                k <= pad,
                buffer@ == mid_snap + repeat_value(0u8, k as int),
            decreases pad - k,
        {
            proof {
                assert(repeat_value(0u8, k as int) + seq![0u8] =~= repeat_value(
                    0u8,
                    k as int + 1,
                ));
            }
            buffer.push(0);
            k = k + 1;
        }
        proof {
            assert(buffer@ =~= row_snap + img@.data.subrange(
                4 * img@.width * (r as int),
                4 * img@.width * (r as int + 1),
            ) + repeat_value(0u8, 4 * (tw - img@.width)));
            assert(buffer@ =~= outer_snap + padded_rows(img@.data, img@.width, tw, r as int + 1));
        }
        base = base + 4 * w;
        r = r + 1;
    }
    // Pad with transparent rows at the bottom to the tile height.
    let ghost rows_done = buffer@;
    let mut extra: usize = 0;
    let rows_missing = (tile_height as usize) - (img.height as usize);
    while extra < rows_missing
        invariant
            extra <= rows_missing,
            buffer@ == rows_done + zero_rows(tw, extra as int),
        decreases rows_missing - extra,
    {
        let ghost zr_snap = buffer@;
        let mut k: usize = 0;
        let row_len = 4 * (tile_width as usize);
        while k < row_len
            invariant
                k <= row_len,
                buffer@ == zr_snap + repeat_value(0u8, k as int),
            decreases row_len - k,
        {
            proof {
                assert(repeat_value(0u8, k as int) + seq![0u8] =~= repeat_value(
                    0u8,
                    k as int + 1,
                ));
            }
            buffer.push(0);
            k = k + 1;
        }
        proof {
            assert(buffer@ =~= rows_done + zero_rows(tw, extra as int) + repeat_value(
                0u8,
                4 * tw,
            ));
        }
        extra = extra + 1;
    }
    proof {
        assert(buffer@ =~= outer_snap + pad_image(img@, tw, th));
    }
}

/// Computes the uniform tile size over every decoded frame image, pads each
/// image on the right and at the bottom with transparent pixels to that size,
/// and concatenates them into one vertical sprite sheet. An empty image list
/// is a malformed file.
#[verifier::loop_isolation(false)]
pub fn build_atlas(images: &Vec<FrameImage>) -> (r: Result<AnimationAtlas, DecodeError>)
    requires
        forall|i: int| 0 <= i < images@.len() ==> (#[trigger] images@[i])@.wf(),
    ensures
        images@.len() == 0 ==> r == Err::<AnimationAtlas, DecodeError>(
            DecodeError::MalformedHeader,
        ),
        images@.len() > 0 ==> {
            &&& r matches Ok(atlas) && atlas@ == atlas_of(image_views(images@))
        },
{
    if images.len() == 0 {
        return Err(DecodeError::MalformedHeader);
    }
    let ghost views = image_views(images@);
    assert(views.len() == images@.len());
    // The uniform tile size: the widest width and the tallest height.
    let mut tile_width: u32 = 0;
    let mut tile_height: u32 = 0;
    let mut i: usize = 0;
    while i < images.len()
        invariant
            i <= images@.len(),
            tile_width == max_width(views.take(i as int)),
            tile_height == max_height(views.take(i as int)),
        decreases images@.len() - i,
    {
        proof {
            assert(views.take(i as int + 1).drop_last() =~= views.take(i as int));
            assert(views[i as int] == images@[i as int]@);
        }
        if images[i].width > tile_width {
            tile_width = images[i].width;
        }
        if images[i].height > tile_height {
            tile_height = images[i].height;
        }
        i = i + 1;
    }
    proof {
        assert(views.take(views.len() as int) =~= views);
        assert forall|j: int| 0 <= j < views.len() implies (#[trigger] views[j]).wf() by {
            assert(views[j] == images@[j]@);
        }
        lemma_max_bounds(views);
    }
    let mut buffer: Vec<u8> = Vec::new();
    let mut i: usize = 0;
    while i < images.len()
        invariant
            i <= images@.len(),
            buffer@ == atlas_buffer(views.take(i as int), tile_width as int, tile_height as int),
        decreases images@.len() - i,
    {
        proof {
            assert(views[i as int] == images@[i as int]@);
            lemma_max_width_ge(views, i as int);
        }
        push_padded_image(&mut buffer, &images[i], tile_width, tile_height);
        proof {
            assert(views.take(i as int + 1).drop_last() =~= views.take(i as int));
        }
        i = i + 1;
    }
    proof {
        assert(views.take(views.len() as int) =~= views);
    }
    Ok(AnimationAtlas { tile_width, tile_height, tile_count: images.len(), buffer })
}

} // verus!
