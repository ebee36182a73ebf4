//! A cleaner for build artifacts: the state, the rules and the screens of a
//! terminal program that finds projects, lists them and frees the space that
//! their build output takes.

pub mod age;
pub mod bars;
pub mod discover;
pub mod effects;
pub mod header;
pub mod info;
pub mod keys;
pub mod laws;
pub mod layout;
pub mod model;
pub mod order;
pub mod outside;
pub mod path;
pub mod project;
pub mod rows;
pub mod state;
pub mod style;
pub mod text;
