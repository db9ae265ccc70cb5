//! A small layout language that assembles a binary image: each line places a
//! file, a fetched resource, a fixed-width integer or a checksum at an offset.
pub mod error;
pub mod lexer;
pub mod parser;
pub mod env;
pub mod image;
pub mod checksum;
pub mod interp;
