//! One tip bitmap for each brush of a file, thumbnails and contact sheets.
pub mod abr_pack;
pub mod archive;
pub mod bitmap;
pub mod bounds;
pub mod codec;
pub mod decode;
pub mod entry;
pub mod jpeg;
pub mod label;
pub mod laws;
pub mod members;
pub mod placement;
pub mod procreate;
pub mod sampling;
pub mod shades;
pub mod sheet;
pub mod shown;
pub mod synth;
pub mod thumbnail;

pub use crate::preview::abr_pack::{preview_abr, preview_abr_first_available};
pub use crate::preview::bitmap::{downsample, tip_bitmap_of, to_grayscale, GrayscaleBitmap};
pub use crate::preview::decode::{decode_tip_image, TipImageError};
pub use crate::preview::entry::{
    PreviewEntry, PreviewError, PreviewOptions, PreviewSet, SourceDimensions, TipPreview,
    UnavailableReason, MAX_PREVIEW_BYTES,
};
pub use crate::preview::members::{
    preview_brush, preview_brush_first_available, preview_brushset,
    preview_brushset_first_available,
};
pub use crate::preview::sheet::{
    generate_contact_sheet_png, ContactSheetConfig, GlyphPixel, LabelMetrics, SheetBackground,
    SheetBrush,
};
pub use crate::preview::synth::{can_synthesize, synthesize_computed_tip};
pub use crate::preview::thumbnail::generate_preview_png;
