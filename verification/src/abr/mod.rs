//! Photoshop brush packs: brushes, presets, patterns, and what of a file is in none.
pub mod blocks;
pub mod cut;
pub mod deferred;
pub mod descriptor;
pub mod dual;
pub mod dump;
pub mod dumped;
pub mod found;
pub mod inner;
pub mod laws;
pub mod legacy;
pub mod limits;
pub mod local;
pub mod nested;
pub mod objects;
pub mod order;
pub mod ordinals;
pub mod packed;
pub mod packs;
pub mod pairing;
pub mod parser;
pub mod pattern;
pub mod preset;
pub mod records;
pub mod rle;
pub mod samp;
pub mod settings;
pub mod shares;
pub mod streams;
pub mod texts;
pub mod textures;
pub mod tip;
pub mod types;
pub mod written;

pub use crate::abr::deferred::{
    parse_abr_all_deferred_without_patterns, parse_abr_deferred,
    parse_abr_deferred_without_patterns, DeferredPack,
};
pub use crate::abr::parser::parse_abr;
pub use crate::abr::samp::DeferredTip;
pub use crate::abr::types::{
    AbrBrush, AbrError, AbrPack, AbrPattern, AbrVersion, BrushDescriptor, ComputedGeometry,
    ComputedPreset, DroppedPatternDetail, DroppedPatternReason, DroppedTipDetail, DualBrush,
    ShapeTipFamily, SkippedPresetDetail, TipBitmap, TipShape, UnreadablePattChunk,
    UnsupportedTipPresetDetail,
};
