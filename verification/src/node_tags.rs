//! Colour tags for database and collection tree nodes, keyed by tree path:
//! "connId/dbName" for a database and "connId/dbName/collName" for a collection.
//! Clearing a node removes its entry, so only tagged nodes are held.

use vstd::prelude::*;
use crate::kv::{StrMap, text_map, text_pairs, stored_in_turn, keys_unique};
use crate::text::push_char;

verus! {

/// The colour tags, keyed by tree path.
pub struct NodeTagStorage {
    inner: StrMap<String>,
}

impl View for NodeTagStorage {
    type V = Map<Seq<char>, Seq<char>>;

    closed spec fn view(&self) -> Map<Seq<char>, Seq<char>> {
        text_map(self.inner.map())
    }
}

/// The tags whose keys do not start with `prefix`.
pub open spec fn outside_prefix(m: Map<Seq<char>, Seq<char>>, prefix: Seq<char>) -> Map<Seq<char>, Seq<char>> {
    m.restrict(Set::new(|k: Seq<char>| !prefix.is_prefix_of(k)))
}

impl NodeTagStorage {
    /// No tags.
    pub fn new() -> (r: NodeTagStorage)
        ensures
            r@ == Map::<Seq<char>, Seq<char>>::empty(),
    {
        let r = NodeTagStorage { inner: StrMap::new() };
        assert(r@ =~= Map::<Seq<char>, Seq<char>>::empty());
        r
    }

    /// The tags given as pairs, a later pair replacing an earlier one.
    pub fn from_pairs(pairs: &Vec<(String, String)>) -> (r: NodeTagStorage)
        ensures
            r@ == stored_in_turn(text_pairs(pairs@)),
    {
        NodeTagStorage { inner: StrMap::from_text_pairs(pairs) }
    }

    /// Every tag, as distinct-key pairs.
    pub fn load(&self) -> (r: Vec<(String, String)>)
        ensures
            keys_unique(text_pairs(r@)),
            stored_in_turn(text_pairs(r@)) == self@,
    {
        self.inner.text_entries()
    }

    /// Tags the node at `key` with `color`.
    pub fn set(&mut self, key: &str, color: &str)
        ensures
            final(self)@ == old(self)@.insert(key@, color@),
    {
        let ghost before = self@;
        self.inner.insert(key.to_owned(), color.to_owned());
        assert(self@ =~= before.insert(key@, color@));
    }

    /// Removes the tag of the node at `key`.
    pub fn clear(&mut self, key: &str)
        ensures
            final(self)@ == old(self)@.remove(key@),
    {
        let ghost before = self@;
        self.inner.remove(key);
        assert(self@ =~= before.remove(key@));
    }

    /// Drops every tag whose key starts with `prefix` (resetting a subtree).
    pub fn remove_under(&mut self, prefix: &str)
        ensures
            final(self)@ == outside_prefix(old(self)@, prefix@),
    {
        let ghost before = self@;
        self.inner.remove_prefixed(prefix);
        assert(self@ =~= outside_prefix(before, prefix@));
    }

    /// Drops every tag belonging to a connection: all keys under "connId/".
    pub fn remove_connection(&mut self, conn_id: &str)
        ensures
            final(self)@ == outside_prefix(old(self)@, conn_id@.push('/')),
    {
        let mut prefix = conn_id.to_owned();
        push_char(&mut prefix, '/');
        self.remove_under(prefix.as_str());
    }
}

/// Resetting a subtree forgets every tag under the prefix and keeps every other tag
/// as it was.
pub proof fn law_remove_under(before: Map<Seq<char>, Seq<char>>, prefix: Seq<char>, key: Seq<char>)
    ensures
        prefix.is_prefix_of(key) ==> !outside_prefix(before, prefix).contains_key(key),
        !prefix.is_prefix_of(key) ==> outside_prefix(before, prefix).get(key) == before.get(key),
{
}

/// Deleting a connection forgets the tags of its databases and collections, and only
/// those: a key "connId/..." goes, a key of another connection stays.
pub proof fn law_remove_connection(before: Map<Seq<char>, Seq<char>>, conn_id: Seq<char>, key: Seq<char>)
    ensures
        conn_id.push('/').is_prefix_of(key) ==> !outside_prefix(before, conn_id.push('/')).contains_key(key),
        !conn_id.push('/').is_prefix_of(key) ==> outside_prefix(before, conn_id.push('/')).get(key) == before.get(key),
{
}

}
