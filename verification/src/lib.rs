//! Verified core of a Lua binding to the Typst typesetting system: the
//! conversion of Lua data into Typst values, and the file, package and
//! diagnostic logic of the world in which a document is compiled.

pub mod text;
pub mod value;
pub mod lua;
pub mod convert;
pub mod legacy;
pub mod world;
pub mod package;
pub mod diagnostics;
pub mod compiler;
