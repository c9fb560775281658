//! Decoders for two legacy sprite-asset formats: a chunked animation
//! container ("ANI") and an indexed-colour still image ("PCX"), plus the
//! small fixed-size lookup assets that accompany them.
//!
//! Every decoder works over an in-memory byte buffer supplied by the caller,
//! runs in a single pass, and reports malformed input through [`error::DecodeError`]
//! instead of panicking.

pub mod ani;
pub mod atlas;
pub mod chunk;
pub mod cursor;
pub mod error;
pub mod image;
pub mod list;
pub mod palette;
pub mod pcx;
pub mod rle;
pub mod scheme;
pub mod sequence;

pub use ani::{decode_animation_bundle, AniDecoder, AnimationBundle};
pub use atlas::{build_atlas, AnimationAtlas};
pub use cursor::ByteCursor;
pub use error::DecodeError;
pub use image::{rgba_from_pixel16, FrameImage};
pub use list::AnimationList;
pub use palette::{ColorPalette, ColorRemapTable};
pub use pcx::{decode_pcx_image, PcxDecoder, PcxImage};
pub use rle::{decode_tga_rle, PixelWidth, RleIterator};
pub use scheme::{Cell, Powerup, PowerupInfo, Scheme};
pub use sequence::{Animation, Frame};
