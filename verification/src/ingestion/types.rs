//! Records of the ingestion pipeline.

use vstd::prelude::*;

verus! {

/// A processed document as stored in the datalake.
#[derive(Debug)]
pub struct RawDocument {
    pub book_id: String,
    pub header: String,
    pub body: String,
    pub source_url: String,
}

impl Clone for RawDocument {
    fn clone(&self) -> (r: Self)
        ensures
            r == *self,
    {
        RawDocument {
            book_id: self.book_id.clone(),
            header: self.header.clone(),
            body: self.body.clone(),
            source_url: self.source_url.clone(),
        }
    }
}

/// The answer to an ingestion request.
#[derive(Debug)]
pub struct IngestResponse {
    pub book_id: String,
    pub status: String,
    pub source_url: String,
}

/// The answer to an ingestion status request.
#[derive(Debug)]
pub struct IngestStatusResponse {
    pub book_id: String,
    pub status: String,
}

/// The payload of an indexing task.
#[derive(Debug)]
pub struct IndexTaskPayload {
    pub book_id: String,
}

} // verus!
