//! Compiler for RFC 4506 XDR interface descriptions.
//!
//! The crate turns a sequence of XDR definitions into a symbol table and,
//! from it, a neutral intermediate representation of target-language type
//! declarations together with matching encoders and decoders.  A separate
//! module gives the wire format itself a reference semantics, and another
//! implements the record-marking framing layer over byte buffers.

pub mod ast;
pub mod classify;
pub mod codec;
pub mod codegen;
pub mod generate;
pub mod order;
pub mod parser;
pub mod record;
pub mod symtab;
pub mod wire;

pub use ast::Value;
pub use ast::Type;
pub use ast::EnumDefn;
pub use ast::UnionCase;
pub use ast::Decl;
pub use ast::Typedef;
pub use ast::Const;
pub use ast::Defn;
pub use classify::TypeTok;
pub use classify::SizeRef;
pub use classify::GenErr;
pub use codec::XdrValue;
pub use codec::CodecErr;
pub use codec::encode_value;
pub use codec::decode_value;
pub use codegen::Item;
pub use codegen::PackBody;
pub use codegen::UnpackBody;
pub use codegen::UnpackStep;
pub use codegen::Emit;
pub use codegen::Emitpack;
pub use generate::generate_items;
pub use generate::generate_defns;
pub use generate::generate_with_diags;
pub use generate::Diagnostics;
pub use symtab::resolution_diags;
pub use record::XdrRecordReader;
pub use record::XdrRecordWriter;
pub use symtab::Symtab;
