//! Maps and sets of texts.

use crate::path::RepoPath;
use crate::text;
use vstd::hash_map::StringHashMap;
use vstd::hash_set::StringHashSet;
use vstd::prelude::*;

verus! {

/// A map from text to text.
pub struct TextMap {
    map: StringHashMap<String>,
}

impl View for TextMap {
    type V = Map<Seq<char>, Seq<char>>;

    closed spec fn view(&self) -> Map<Seq<char>, Seq<char>> {
        self.map@.map_values(|v: String| v@)
    }
}

impl TextMap {
    /// An empty map.
    pub fn new() -> (r: TextMap)
        ensures
            r@ == Map::<Seq<char>, Seq<char>>::empty(),
    {
        let r = TextMap { map: StringHashMap::new() };
        assert(r@ =~= Map::<Seq<char>, Seq<char>>::empty());
        r
    }

    /// Whether the map holds nothing.
    pub fn is_empty(&self) -> (r: bool)
        ensures
            r == self@.is_empty(),
    {
        assert(self@.dom() =~= self.map@.dom());
        self.map.is_empty()
    }

    /// How many keys the map holds.
    pub fn len(&self) -> (r: usize)
        ensures
            r == self@.len(),
    {
        assert(self@.dom() =~= self.map@.dom());
        self.map.len()
    }

    /// Gives `key` the value `value`.
    pub fn insert(&mut self, key: String, value: String)
        ensures
            final(self)@ == old(self)@.insert(key@, value@),
    {
        self.map.insert(key, value);
        assert(self@ =~= old(self)@.insert(key@, value@));
    }

    /// The value of `key`.
    pub fn get(&self, key: &str) -> (r: Option<&String>)
        ensures
            text::option_view(r) == self@.get(key@),
    {
        self.map.get(key)
    }
}

/// A set of repository paths.
pub struct PathSet {
    set: StringHashSet,
}

impl View for PathSet {
    type V = Set<Seq<char>>;

    closed spec fn view(&self) -> Set<Seq<char>> {
        self.set@
    }
}

impl PathSet {
    /// An empty set.
    pub fn new() -> (r: PathSet)
        ensures
            r@ == Set::<Seq<char>>::empty(),
    {
        PathSet { set: StringHashSet::new() }
    }

    /// How many paths the set holds.
    pub fn len(&self) -> (r: usize)
        ensures
            r == self@.len(),
    {
        self.set.len()
    }

    /// Adds a path.
    pub fn insert(&mut self, path: &RepoPath)
        ensures
            final(self)@ == old(self)@.insert(path@),
    {
        self.set.insert(path.as_unix_str().to_owned());
    }

    /// Whether the set holds the path.
    pub fn contains(&self, path: &RepoPath) -> (r: bool)
        ensures
            r == self@.contains(path@),
    {
        self.set.contains(path.as_unix_str())
    }
}

} // verus!
