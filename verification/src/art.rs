//! The creatures and scenery of the aquarium: their art and the rules that
//! build their shapes.
pub mod fish;
pub mod environment;
pub mod duck;
pub mod random;
