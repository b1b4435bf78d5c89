//! Source documents and their origin.

use vstd::prelude::*;
use vstd::utf8::encode_utf8;

use crate::lang::Language;

verus! {

/// Unique identifier for a document within a processing batch.
#[derive(Debug, Clone, Copy, PartialEq, Eq, Hash, Structural)]
pub struct DocumentId(
    /// Numeric identifier.
    pub u32,
);

/// Source origin metadata.
#[derive(Debug, Clone)]
pub struct Origin {
    /// Repository-relative logical path (forward-slash normalized).
    pub path: Option<String>,
    /// Repository name or identifier.
    pub repo: Option<String>,
    /// Revision (commit hash, tag, branch).
    pub revision: Option<String>,
}

impl Default for Origin {
    fn default() -> (r: Self)
        ensures
            r.path is None,
            r.repo is None,
            r.revision is None,
    {
        Origin { path: None, repo: None, revision: None }
    }
}

/// A source document to be chunked.
#[derive(Debug, Clone)]
pub struct Document {
    /// Unique identifier for this document.
    pub document_id: DocumentId,
    /// Programming language of the source.
    pub language: Language,
    /// Full source code.
    pub source: String,
    /// Origin metadata.
    pub origin: Origin,
}

impl Document {
    /// The UTF-8 bytes of the source.
    pub open spec fn source_bytes(&self) -> Seq<u8> {
        encode_utf8(self.source@)
    }
}

} // verus!
