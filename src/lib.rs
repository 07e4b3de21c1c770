//! Flashcard collections: a bounded-memory text codec, a filtered navigator
//! over a mutable collection, and a decoder that turns pointer samples into
//! navigation pulses.

pub mod card;
pub mod gesture;
pub mod outside;
pub mod picker;
pub mod selector;
pub mod viewer;
