//! A manuscript generator's core: a small placeholder grammar over narrative
//! text, a nested variable context, a recursive document tree, and the
//! interpolation passes that tie them together.

pub mod builder;
pub mod config;
pub mod context;
pub mod extensions;
pub mod files;
pub mod interpolator;
pub mod story;
pub mod text;
