//! "High-water marks" for incremental export: the largest `_id` already exported
//! for a collection, keyed by tree path "connId/dbName/collName", as a canonical
//! Extended-JSON string. An absent entry means "never exported incrementally".

use vstd::prelude::*;
use crate::kv::{StrMap, text_map, text_pairs, stored_in_turn, keys_unique};

verus! {

/// The watermarks, keyed by tree path.
pub struct ExportWatermarkStorage {
    inner: StrMap<String>,
}

impl View for ExportWatermarkStorage {
    type V = Map<Seq<char>, Seq<char>>;

    closed spec fn view(&self) -> Map<Seq<char>, Seq<char>> {
        text_map(self.inner.map())
    }
}

impl ExportWatermarkStorage {
    /// No watermarks.
    pub fn new() -> (r: ExportWatermarkStorage)
        ensures
            r@ == Map::<Seq<char>, Seq<char>>::empty(),
    {
        let r = ExportWatermarkStorage { inner: StrMap::new() };
        assert(r@ =~= Map::<Seq<char>, Seq<char>>::empty());
        r
    }

    /// The watermarks given as pairs, a later pair replacing an earlier one.
    pub fn from_pairs(pairs: &Vec<(String, String)>) -> (r: ExportWatermarkStorage)
        ensures
            r@ == stored_in_turn(text_pairs(pairs@)),
    {
        ExportWatermarkStorage { inner: StrMap::from_text_pairs(pairs) }
    }

    /// Every watermark, as distinct-key pairs.
    pub fn pairs(&self) -> (r: Vec<(String, String)>)
        ensures
            keys_unique(text_pairs(r@)),
            stored_in_turn(text_pairs(r@)) == self@,
    {
        self.inner.text_entries()
    }

    /// The watermark stored for `key`, if any.
    pub fn get(&self, key: &str) -> (r: Option<String>)
        ensures
            match r {
                Some(w) => self@.contains_key(key@) && self@[key@] == w@,
                None => !self@.contains_key(key@),
            },
    {
        match self.inner.get(key) {
            Some(w) => Some(w.clone()),
            None => None,
        }
    }

    /// Records `watermark` as the boundary for `key`.
    pub fn set(&mut self, key: &str, watermark: &str)
        ensures
            final(self)@ == old(self)@.insert(key@, watermark@),
    {
        let ghost before = self@;
        self.inner.insert(key.to_owned(), watermark.to_owned());
        assert(self@ =~= before.insert(key@, watermark@));
    }
}

}
