//! The verified core of a local text-to-speech service: text in, cached playable audio out.
//!
//! What is proved here is everything that is decided between the outside collaborators: the
//! cache keys and the expiry of cache entries, the symbol table and the tokenizer, the
//! clean-up of the phonemizer's output and the fallback for it, the layout of voice files and
//! of the voice index, the cutting of long texts into sentences and the joining of their
//! waveforms, and the WAV container. The model, the phonemizer tool and the file system are
//! not run from here: a caller runs them and hands back what came out.
//!
//! Sample values never pass through this crate as floating-point numbers. Waveforms are
//! generic in their sample type, style vectors are carried as the bit patterns of their
//! components, and the WAV encoder takes 16-bit integers.

pub mod cache;
pub mod engine;
pub mod phonemes;
pub mod segment;
pub mod service;
pub mod text;
pub mod vocab;
pub mod voices;
pub mod wav;
