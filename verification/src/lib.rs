//! Acoustic fingerprinting compatible with Chromaprint, with a
//! machine-checked contract on every function.
//!
//! The modules are the stages of the pipeline, from the resampler to the
//! text form of the fingerprint; `fingerprinter` puts them together. The
//! stages that compute with numbers work on any type with the operations
//! that they need, see `arithmetic`; the few functions of real numbers that
//! they need come from the caller.

pub mod arithmetic;
pub mod audio_processor;
pub mod bit_writer;
pub mod chroma;
pub mod chroma_filter;
pub mod chroma_normalize;
pub mod classifiers;
pub mod combined_buffer;
pub mod encode;
pub mod fft;
pub mod filter;
pub mod fingerprint_calculator;
pub mod fingerprint_compressor;
pub mod fingerprinter;
pub mod quantizer;
pub mod resampler;
pub mod rolling_integral_image;
pub mod slicer;
