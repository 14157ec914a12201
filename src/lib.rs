//! A fitness-proportionate selection container: a wheel of items, each with a
//! positive integer weight, from which an item is drawn with a probability
//! proportional to its share of the total weight.
//!
//! The selection itself is verified against a model over sequences of
//! `(weight, item)` pairs (see [`weights`]); only the uniform draw of a
//! distance comes from `rand`.

mod draw;
pub mod weights;
pub mod random_wheel;
pub mod laws;

pub use random_wheel::RandomWheel;
