//! Turns chat messages into text that a Japanese speech synthesiser can read aloud.

pub mod announce;
pub mod charset;
pub mod lexicon;
pub mod markup;
pub mod member;
pub mod message;
pub mod pattern;
pub mod reading;
pub mod segment;
pub mod settings;
pub mod speech;
pub mod substitute;
pub mod voice;
