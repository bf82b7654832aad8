//! Reading of brush files: Photoshop packs ([`abr`]), Procreate brushes and brush sets, and
//! the tip bitmap of every brush in them ([`preview`]).
pub mod abr;
pub mod fixture;
pub mod preview;
pub mod round_trip;
pub mod support;
