//! Search across text, image and audio embeddings. The embeddings and
//! their weighted fusion are floating-point work left to the caller; the
//! engine fixes the shape of a hybrid search.

use vstd::prelude::*;
use crate::text::{decimal, push_decimal};

verus! {

/// The multi-modal search engine.
#[derive(Debug)]
pub struct MultiModalSearchEngine {}

/// The identifier of the `i`-th hybrid result.
pub open spec fn hybrid_result_id(i: nat) -> Seq<char> {
    "hybrid_result_"@ + decimal(i)
}

impl MultiModalSearchEngine {
    /// A new engine.
    pub fn new() -> (r: Result<Self, String>)
        ensures
            r is Ok,
    {
        Ok(MultiModalSearchEngine {})
    }

    /// A hybrid search needs one weight per embedding.
    pub fn check_hybrid_query(&self, embeddings: usize, weights: usize) -> (r: Result<(), String>)
        ensures
            r is Ok <==> embeddings == weights,
            r matches Err(m) ==> m@ == "Embeddings and weights must have same length"@,
    {
        if embeddings != weights {
            return Err("Embeddings and weights must have same length".to_owned());
        }
        Ok(())
    }

    /// The identifiers of a hybrid search's results: `limit` of them, in
    /// rank order.
    pub fn hybrid_result_ids(&self, limit: usize) -> (r: Vec<String>)
        ensures
            r@.len() == limit,
            forall|i: int| 0 <= i < limit ==> #[trigger] r@[i]@ == hybrid_result_id(i as nat),
    {
        let mut out: Vec<String> = Vec::new();
        let mut i: usize = 0;
        while i < limit
            invariant
                i <= limit,
                out@.len() == i,
                forall|k: int| 0 <= k < i ==> #[trigger] out@[k]@ == hybrid_result_id(k as nat),
            decreases limit - i,
        {
            let mut id = "hybrid_result_".to_owned();
            push_decimal(&mut id, i as u64);
            out.push(id);
            i += 1;
        }
        out
    }
}

} // verus!
