//! The logic of a spectral compressor: an FFT based compressor with a compressor for each bin.
//!
//! - Values: [`single`] holds floating-point values by their encodings, [`arithmetic`] names the
//!   operations that compute new ones, [`exact`] says which numbers they stand for, [`text`] and
//!   [`lists`] work on texts and lists.
//! - Signal: [`curve`] is the threshold curve, [`dynamics`] and [`envelope`] the compression of a bin,
//!   [`compressors`] the precomputed values of one direction, [`gain_smoothing`] the smoothing across
//!   bins. [`compressor_bank`], [`processing`] and [`process`] run all of them on a channel.
//! - Matching: [`match_level`] for the output gain, [`match_curve`] and [`free_fit`] for the curve.
//! - Export: [`frozen_ir`] turns frozen gains into an impulse response.
//! - Editor: [`editor_model`], [`editor_layout`], [`buttons`], [`window`], [`analyzer_view`] and
//!   [`analyzer_drawing`] decide what the editor does and shows; [`curve_preset`], [`preset_list`] and
//!   [`param_writes`] are its presets.
//! - Between threads: [`shared_cells`], [`handoff`], [`updates`] and [`match_state`].

use vstd::prelude::*;

pub mod analyzer;
pub mod analyzer_drawing;
pub mod analyzer_view;
pub mod arithmetic;
pub mod buttons;
pub mod compressor_bank;
pub mod compressors;
pub mod curve;
pub mod curve_preset;
pub mod dynamics;
pub mod editor_layout;
pub mod editor_model;
pub mod envelope;
pub mod exact;
pub mod free_fit;
pub mod frozen_ir;
pub mod gain_smoothing;
pub mod handoff;
pub mod lists;
pub mod match_curve;
pub mod match_level;
pub mod match_state;
pub mod param_writes;
pub mod params;
pub mod pointer;
pub mod preset_list;
pub mod process;
pub mod processing;
pub mod shared_cells;
pub mod single;
pub mod text;
pub mod updates;
pub mod window;

verus! {

/// The largest FFT window that is supported.
pub const MAX_WINDOW_SIZE: usize = 32_768;

} // verus!
