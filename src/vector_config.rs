//! Configuration of the HNSW vector index and the checks made before a
//! vector reaches it.
use vstd::prelude::*;

verus! {

/// Errors of the vector index.
#[derive(Debug)]
pub enum VectorIndexError {
    /// The index library failed, with its message.
    Usearch(String),
    /// Reading or writing the index file failed, with the message.
    Io(String),
    /// A vector's length differs from the index dimension.
    DimensionMismatch { expected: usize, got: usize },
}

/// Parameters of the HNSW index (cosine distance, 32-bit floats, no
/// duplicate keys).
#[derive(Debug, Clone, Copy)]
pub struct VectorIndexConfig {
    /// Vector dimension.
    pub dimensions: usize,
    /// Links per node (M).
    pub connectivity: usize,
    /// Candidate list size while building.
    pub expansion_add: usize,
    /// Candidate list size while searching.
    pub expansion_search: usize,
}

impl Default for VectorIndexConfig {
    /// 1024 dimensions, M = 16, 128 while building, 64 while searching.
    fn default() -> (r: VectorIndexConfig)
        ensures
            r.dimensions == 1024,
            r.connectivity == 16,
            r.expansion_add == 128,
            r.expansion_search == 64,
    {
        VectorIndexConfig {
            dimensions: 1024,
            connectivity: 16,
            expansion_add: 128,
            expansion_search: 64,
        }
    }
}

impl VectorIndexConfig {
    /// A small configuration for tests: the given dimension, M = 8, 64 while
    /// building, 32 while searching.
    pub fn for_test(dimensions: usize) -> (r: VectorIndexConfig)
        ensures
            r.dimensions == dimensions,
            r.connectivity == 8,
            r.expansion_add == 64,
            r.expansion_search == 32,
    {
        VectorIndexConfig { dimensions, connectivity: 8, expansion_add: 64, expansion_search: 32 }
    }

    /// Whether a vector of length `len` fits the index: the dimension
    /// error otherwise.
    pub fn check_dimensions(&self, len: usize) -> (r: Result<(), VectorIndexError>)
        ensures
            len == self.dimensions <==> r is Ok,
            len != self.dimensions ==> (r matches Err(VectorIndexError::DimensionMismatch {
                expected,
                got,
            }) && expected == self.dimensions && got == len),
    {
        if len != self.dimensions {
            Err(VectorIndexError::DimensionMismatch { expected: self.dimensions, got: len })
        } else {
            Ok(())
        }
    }
}

/// The capacity to reserve so that one more vector fits: the current
/// capacity grown by 1000 when the index is full (saturating).
pub fn grown_capacity(size: usize, capacity: usize) -> (r: Option<usize>)
    ensures
        size < capacity ==> r is None,
        size >= capacity ==> r == Some(
            if capacity <= usize::MAX - 1000 {
                (capacity + 1000) as usize
            } else {
                usize::MAX
            },
        ),
{
    if size >= capacity {
        if capacity <= usize::MAX - 1000 {
            Some(capacity + 1000)
        } else {
            Some(usize::MAX)
        }
    } else {
        None
    }
}

/// The capacity a rebuilt index reserves for `count` units: 1000 more
/// (saturating).
pub fn rebuild_capacity(count: usize) -> (r: usize)
    ensures
        r == if count <= usize::MAX - 1000 {
            (count + 1000) as usize
        } else {
            usize::MAX
        },
{
    if count <= usize::MAX - 1000 {
        count + 1000
    } else {
        usize::MAX
    }
}

} // verus!
