//! Parametric L-system curves: a rewriting grammar, the line-oriented
//! configuration language that binds symbols to drawing operations, the
//! injection of literal text into an expanded string, and the control of the
//! turtle that walks it.
//!
//! Every function here is verified against the contract it carries, but for
//! the few calls that leave the crate, which are gathered in `outside`. A
//! number that may have a fraction is held as the literal that was read and
//! checked, a colour and a parsed expression as the values that their
//! libraries made: this crate carries them and never computes with them.

pub mod config;
pub mod engine;
pub mod export;
pub mod failure;
pub mod inject;
pub mod loader;
pub mod number;
pub mod outside;
pub mod parser;
pub mod reader;
pub mod renderer;
pub mod roundtrip;
pub mod text;
pub mod turtle;

pub use config::ConfigLines;
pub use engine::LSystem;
pub use export::ConfEditor;
pub use parser::{LineType, ParsingError};
pub use reader::Updatable;
pub use renderer::{Expression, LSystemRenderer, Operation};
