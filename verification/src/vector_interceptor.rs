//! What vector operations add to a request, carried from the caller to the
//! point where the request's body is rewritten.

use crate::vector::{VectorIndex, VectorIndexUpdate, VectorSearch};
use vstd::prelude::*;

verus! {

/// What is added to the body of a request.
#[derive(Debug)]
pub struct VectorRequestStore {
    pub vector_indexes: Option<Vec<VectorIndex>>,
    pub vector_index_updates: Option<Vec<VectorIndexUpdate>>,
    pub vector_search: Option<VectorSearch>,
}

impl VectorRequestStore {
    /// The search, where there is one, has a query vector that can be sent.
    pub open spec fn valid(self) -> bool {
        self.vector_search is Some ==> self.vector_search->0.valid()
    }
}

/// Attaches to one request what is added to its body.
#[derive(Debug)]
pub struct VectorRequestStoreInterceptor {
    pub store: VectorRequestStore,
}

impl VectorRequestStoreInterceptor {
    /// Adds vector indexes to the creation of a table.
    pub fn for_vector_indexes(vector_indexes: Vec<VectorIndex>) -> (r: Self)
        ensures
            r.store == (VectorRequestStore {
                vector_indexes: Some(vector_indexes),
                vector_index_updates: None,
                vector_search: None,
            }),
    {
        VectorRequestStoreInterceptor {
            store: VectorRequestStore {
                vector_indexes: Some(vector_indexes),
                vector_index_updates: None,
                vector_search: None,
            },
        }
    }

    /// Adds updates of vector indexes to the update of a table.
    pub fn for_vector_index_updates(updates: Vec<VectorIndexUpdate>) -> (r: Self)
        ensures
            r.store == (VectorRequestStore {
                vector_indexes: None,
                vector_index_updates: Some(updates),
                vector_search: None,
            }),
    {
        VectorRequestStoreInterceptor {
            store: VectorRequestStore {
                vector_indexes: None,
                vector_index_updates: Some(updates),
                vector_search: None,
            },
        }
    }

    /// Adds a vector search to a query.
    pub fn for_vector_search(search: VectorSearch) -> (r: Self)
        ensures
            r.store == (VectorRequestStore {
                vector_indexes: None,
                vector_index_updates: None,
                vector_search: Some(search),
            }),
    {
        VectorRequestStoreInterceptor {
            store: VectorRequestStore {
                vector_indexes: None,
                vector_index_updates: None,
                vector_search: Some(search),
            },
        }
    }
}

} // verus!
