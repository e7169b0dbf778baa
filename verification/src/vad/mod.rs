//! Voice activity: settings, the segmentation of frame probabilities into speech segments,
//! and the framing of a sample stream for the model.

pub mod config;
pub mod segmenter;
pub mod stream;
pub mod threshold;
