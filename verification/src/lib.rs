//! A quick text translator's core: configuration, language switching, the
//! choice and request shaping of translation providers, text normalization
//! for speech, usage accounting, and window placement rules.
pub mod text;
pub mod table;
pub mod pattern;
pub mod keyorder;
pub mod normalizer;
pub mod config;
pub mod window;
pub mod headless;
pub mod translation;
pub mod usage;
pub mod tts;
