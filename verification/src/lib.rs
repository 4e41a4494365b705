//! RivetLua: a verified Lua compiler front end and RVLU bytecode codec.
//!
//! The crate holds the lexer, the parser, the name resolver, the lowering
//! to typed IR, the fixed RVLU v2 bytecode instruction set, the structural
//! bytecode verifier and the little-endian module codec, together with Lua
//! values, object identities and integer arithmetic.  Floating-point
//! arithmetic is not part of the library.

pub mod limits;
pub mod error;
pub mod integer;
pub mod value;
pub mod bytecode;
pub mod module;
pub mod wire;
pub mod format;
pub mod encode;
pub mod decode;
pub mod rules;
pub mod validation;
pub mod injective;
pub mod codec;
pub mod literal;
pub mod trivia;
pub mod lexer;
pub mod cursor;
pub mod scanner;
pub mod ast;
pub mod parser;
pub mod resolved;
pub mod resolve;
pub mod ir;
pub mod codegen;
