//! A parser for the data files of a game, written in a small dialect of Lua, and the
//! conversion of what they declare into records.
//!
//! `lua_parser` reads a source into a `LuaContext`; `decode` and `recipe` turn the values
//! that it gathered into records; `grammar` says what each rule of the parser matches,
//! and `laws` holds what is proved of it.

pub mod decode;
pub mod describe;
pub mod dict;
pub mod grammar;
pub mod laws;
pub mod lexer;
pub mod lua_parser;
pub mod model;
pub mod numbers;
pub mod progress;
pub mod recipe;
pub mod simplify;
pub mod technology;
pub mod tree;
