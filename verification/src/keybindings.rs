//! Persisted keyboard-shortcut overrides, keyed by menu-action id (e.g.
//! "file:connect") with an accelerator string as the value (e.g. "CmdOrCtrl+N").
//! An empty map means "use the built-in defaults everywhere".

use vstd::prelude::*;
use crate::kv::{StrMap, text_map, text_pairs, stored_in_turn, keys_unique};

verus! {

/// The shortcut bindings, keyed by menu-action id.
pub struct KeybindingStorage {
    inner: StrMap<String>,
}

impl View for KeybindingStorage {
    type V = Map<Seq<char>, Seq<char>>;

    closed spec fn view(&self) -> Map<Seq<char>, Seq<char>> {
        text_map(self.inner.map())
    }
}

impl KeybindingStorage {
    /// No bindings.
    pub fn new() -> (r: KeybindingStorage)
        ensures
            r@ == Map::<Seq<char>, Seq<char>>::empty(),
    {
        let r = KeybindingStorage { inner: StrMap::new() };
        assert(r@ =~= Map::<Seq<char>, Seq<char>>::empty());
        r
    }

    /// The bindings given as pairs, a later pair replacing an earlier one.
    pub fn from_pairs(pairs: &Vec<(String, String)>) -> (r: KeybindingStorage)
        ensures
            r@ == stored_in_turn(text_pairs(pairs@)),
    {
        KeybindingStorage { inner: StrMap::from_text_pairs(pairs) }
    }

    /// Every binding, as distinct-key pairs.
    pub fn load(&self) -> (r: Vec<(String, String)>)
        ensures
            keys_unique(text_pairs(r@)),
            stored_in_turn(text_pairs(r@)) == self@,
    {
        self.inner.text_entries()
    }

    /// Replaces the whole binding map with the given pairs (the full effective set).
    pub fn save(&mut self, bindings: &Vec<(String, String)>)
        ensures
            final(self)@ == stored_in_turn(text_pairs(bindings@)),
    {
        self.inner = StrMap::from_text_pairs(bindings);
    }
}

}
