//! What the index knows of the embedding provider.

use vstd::prelude::*;

verus! {

/// The number of values in an embedding of the sentence encoder.
pub const EMBEDDING_SIZE: i32 = 768;

} // verus!
