//! Backend-agnostic 2D imaging: recording and validating command streams, and the integer pixel
//! work of raster backends.
//!
//! - [`record`] keeps an owned command stream with its payload tables and validates it;
//!   [`validation`] guards a streamed one; [`paint`] replays a recorded scene into a sink, and
//!   [`painter`] brackets authoring work in clip and group pushes and pops.
//! - [`stream`] keeps the deferred error and stack depths of a backend translating a stream.
//! - [`pixel`], [`blit`], [`blur`] and [`layer`] compute on premultiplied RGBA8 pixels;
//!   [`readback`] copies padded GPU rows; [`target`] describes caller-owned CPU targets.
//! - [`blend`] and [`gpu_format`] map blend modes and texture formats onto backend names.
//! - [`cache`] and [`skia_config`] hold cache retention rules and budgets.
//! - [`case_filter`] selects snapshot cases by wildcard pattern.

use vstd::prelude::*;

pub mod record;
pub mod validation;
pub mod pixel;
pub mod target;
pub mod skia_config;
pub mod grid;
pub mod readback;
pub mod cache;
pub mod blur;
pub mod case_filter;
pub mod blit;
pub mod stream;
pub mod layer;
pub mod blend;
pub mod gpu_format;
pub mod paint;
pub mod painter;

verus! {

/// How a mask scene modulates a masked content scene.
#[derive(Copy, Clone, Debug, PartialEq, Eq, Structural)]
pub enum MaskMode {
    /// Use the mask scene's alpha channel.
    Alpha,
    /// Use the mask scene's luminance.
    Luminance,
}

} // verus!
