//! Sample code of the kind that fixtures hold, in three flavours: a control
//! sample that a lint checker has nothing to say about, a sample with one
//! function per lint rule, and a sample whose source is laid out badly.
//!
//! A sample is there to draw complaints about its style, never to misbehave.
//! Each function here is verified to run to its end without overflow or
//! panic and to compute what its contract says. Where a sample prints, the
//! function hands the line to its caller instead.

pub mod control;
pub mod layout;
pub mod lints;
