//! Core of a game mod manager: the layer beneath the rendering shell.
//!
//! The crate owns the mod/profile data model with its dependency
//! resolution, the lint engine that inspects mod archives for packaging
//! problems, and the generation-tagged bookkeeping that lets a user
//! interface start, track, supersede and cancel long-running background
//! operations without races. Rendering, networking and file access live
//! outside; they hand this crate plain values and take plain values back.

pub mod codec;
pub mod lint;
pub mod model;
pub mod ops;
pub mod request;
pub mod resolve;
pub mod shell;
pub mod text;
