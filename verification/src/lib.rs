//! AST-based code chunking (the cAST algorithm): source code is split into
//! chunks that follow the syntax tree and respect a budget of
//! non-whitespace characters per chunk.
//!
//! The pipeline runs from a [`types::Document`] through
//! [`chunker::CastChunker`] to [`types::AstChunk`]s, through a
//! [`formatter::Formatter`] to [`types::TextChunk`]s, and through
//! [`output`] to export records. [`builder::AstChunkBuilder`] offers the
//! window-based interface with metadata templates of [`metadata`].

pub mod builder;
pub mod byte_range;
pub mod chunk;
pub mod chunker;
pub mod cli;
pub mod display;
pub mod error;
pub mod formatter;
pub mod internal;
pub mod lang;
pub mod metadata;
pub mod nws;
pub mod output;
pub mod text;
pub mod types;
