//! Build-time compiler for a small UI markup language.
//!
//! A markup document is tokenized, parsed into a tree of named and unnamed
//! elements, and compiled into host-language source text that constructs the
//! equivalent element graph.  Tag names are resolved against a [`registry::Registry`]
//! of tag-to-type-path entries, which is populated from built-in entries and
//! from a persisted meta table produced by scanning annotated type
//! declarations in the project's own sources.  A module linker derives the
//! module-declaration files that expose the generated output.

pub mod chars;
pub mod strutil;
pub mod registry;
pub mod xml_lexer;
pub mod xml_tree;
pub mod xml_parser;
pub mod codegen;
pub mod meta_token;
pub mod meta_lexer;
pub mod meta_scan;
pub mod linker;
