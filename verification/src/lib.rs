//! Decision logic of the exposé view: a grid of window thumbnails that can be
//! navigated with the keyboard, hit-tested with the pointer, and opened,
//! closed and handed over to other views.
//!
//! Positions are fixed-point logical coordinates (`i64`); the caller chooses
//! the unit and converts to and from its own representation.

pub mod geometry;
pub mod navigation;
pub mod expose;
pub mod layout;
