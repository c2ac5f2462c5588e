//! Verified core of an offline Japanese text-to-speech command line tool:
//! model registry, synthesis planning, phoneme alignment, WAV helpers,
//! command-line parsing and the resident-mode protocol decisions.

pub mod cli;
pub mod error;
pub mod ident;
pub mod numbers;
pub mod outside;
pub mod registry;
pub mod run;
pub mod serve;
pub mod synthesis;
pub mod text;
pub mod tts_util;
pub mod wav;

pub use error::EngineError;
pub use ident::TTSIdent;
pub use registry::{TTSModel, TTSModelHolder};
