//! The default query a collection tab opens with, keyed by tree path.

use vstd::prelude::*;
use crate::kv::StrMap;

verus! {

/// The query bar's contents for one collection.
pub struct DefaultQuery {
    pub mode: String,
    pub filter: String,
    pub sort: String,
    pub projection: String,
    pub skip: i64,
    pub limit: i64,
    pub pipeline: String,
}

impl DefaultQuery {
    /// A field-by-field copy.
    pub fn duplicate(&self) -> (r: DefaultQuery)
        ensures
            r == *self,
    {
        DefaultQuery {
            mode: self.mode.clone(),
            filter: self.filter.clone(),
            sort: self.sort.clone(),
            projection: self.projection.clone(),
            skip: self.skip,
            limit: self.limit,
            pipeline: self.pipeline.clone(),
        }
    }
}

/// The default queries, keyed by tree path.
pub struct DefaultQueryStorage {
    inner: StrMap<DefaultQuery>,
}

impl View for DefaultQueryStorage {
    type V = Map<Seq<char>, DefaultQuery>;

    closed spec fn view(&self) -> Map<Seq<char>, DefaultQuery> {
        self.inner.map()
    }
}

impl DefaultQueryStorage {
    /// No default queries.
    pub fn new() -> (r: DefaultQueryStorage)
        ensures
            r@ == Map::<Seq<char>, DefaultQuery>::empty(),
    {
        DefaultQueryStorage { inner: StrMap::new() }
    }

    /// The default query stored for `key`, if any.
    pub fn get(&self, key: &str) -> (r: Option<DefaultQuery>)
        ensures
            r == self@.get(key@),
    {
        match self.inner.get(key) {
            Some(q) => Some(q.duplicate()),
            None => None,
        }
    }

    /// Stores `entry` as the default query for `key`.
    pub fn set(&mut self, key: &str, entry: DefaultQuery)
        ensures
            final(self)@ == old(self)@.insert(key@, entry),
    {
        self.inner.insert(key.to_owned(), entry);
    }

    /// Forgets the default query for `key`.
    pub fn clear(&mut self, key: &str)
        ensures
            final(self)@ == old(self)@.remove(key@),
    {
        self.inner.remove(key);
    }

    /// The stored pairs, for persisting.
    pub fn entries(&self) -> (r: &Vec<(String, DefaultQuery)>)
        ensures
            crate::kv::pairs_map(crate::kv::pairs_view(r@)) == self@,
    {
        self.inner.entries()
    }
}

}
