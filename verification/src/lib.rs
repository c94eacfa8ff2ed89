//! An aquarium of ASCII-art creatures for the terminal: the shapes, colours,
//! parsers, scene rules and screen composition, with their contracts.
pub mod text;
pub mod chance;
pub mod color;
pub mod shape;
pub mod renderer;
pub mod image_to_ascii;
pub mod entity;
pub mod input;
pub mod cli;
pub mod scene;
pub mod art;
