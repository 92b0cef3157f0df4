//! What an executor sends to its parent.
use crate::array::DataChunk;
use crate::error::RwError;
use vstd::prelude::*;

verus! {

/// All that an executor sends: the chunks that it yields, in order, and how its stream ends.
#[derive(Debug, PartialEq, Eq)]
pub struct ChunkStream {
    pub chunks: Vec<DataChunk>,
    /// The error that ends the stream, if one does.
    pub outcome: Result<(), RwError>,
}

} // verus!
