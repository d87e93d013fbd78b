//! Library for resolving a desired multi-display arrangement against the
//! displays that are currently attached, selecting an unambiguous mode for
//! each display, and applying the change through an all-or-nothing
//! transaction.
//!
//! The modules mirror the stages of the pipeline: raw configuration records
//! ([`config`]), validation into indexed groups ([`valid_config`]), display
//! and mode data ([`displays`], [`fake_displays`]), the resolution and apply
//! pipeline ([`knoll`]), and small helpers for the platform backend
//! ([`core_graphics`], [`real_displays`]).

pub mod config;
pub mod core_graphics;
pub mod displays;
pub mod fake_displays;
pub mod knoll;
pub mod real_displays;
pub mod serde;
pub mod valid_config;
