//! Smaller programs: exercises on collections, traits, generics and more.
pub mod aliases;
pub mod average;
pub mod closures;
pub mod collections;
pub mod draw;
pub mod enums;
pub mod fibonacci;
pub mod generics;
pub mod lifetimes;
pub mod media;
pub mod operators;
pub mod pointers;
pub mod restaurant;
pub mod shapes;
pub mod shoes;
pub mod testing;
pub mod workspace;
