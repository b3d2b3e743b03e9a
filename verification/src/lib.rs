//! A lazy sequence generator: a state and a transition function that is applied to
//! that state again and again, each application either giving the next state together
//! with one item of the sequence, or reporting that the sequence has ended.
//!
//! - [`generator`] holds the generator, [`Unfold`], with its steps and their contracts.
//! - [`transition`] names what the contracts need to say of a transition function.
//! - [`sequence`] defines the sequence that a mathematical function unfolds from a seed.
//! - [`laws`] proves what holds of every generator over any number of steps.

pub mod generator;
pub mod laws;
pub mod sequence;
pub mod transition;

pub use generator::Unfold;
