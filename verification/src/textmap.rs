//! A map from texts to texts.

use crate::text;
use vstd::prelude::*;

verus! {

/// A map from texts to texts, kept as the list of what was put in; what was put
/// in last counts.
#[derive(Debug)]
pub struct TextMap {
    entries: Vec<(String, String)>,
}

/// The map that a list of entries makes.
pub open spec fn map_of(entries: Seq<(String, String)>) -> Map<Seq<char>, Seq<char>>
    decreases entries.len(),
{
    if entries.len() == 0 {
        Map::empty()
    } else {
        map_of(entries.drop_last()).insert(entries.last().0@, entries.last().1@)
    }
}

impl View for TextMap {
    type V = Map<Seq<char>, Seq<char>>;

    closed spec fn view(&self) -> Map<Seq<char>, Seq<char>> {
        map_of(self.entries@)
    }
}

/// What a map holds under a key.
pub open spec fn value_in(map: Map<Seq<char>, Seq<char>>, key: Seq<char>) -> Option<Seq<char>> {
    if map.dom().contains(key) {
        Some(map[key])
    } else {
        None
    }
}

impl TextMap {
    /// A map with nothing in it.
    pub fn new() -> (r: Self)
        ensures
            r@ == Map::<Seq<char>, Seq<char>>::empty(),
    {
        TextMap { entries: Vec::new() }
    }

    /// Puts a value in, in place of what the key had.
    pub fn insert(&mut self, key: String, value: String)
        ensures
            final(self)@ == old(self)@.insert(key@, value@),
    {
        let ghost before = self.entries@;
        self.entries.push((key, value));
        proof {
            assert(self.entries@.drop_last() =~= before);
        }
    }

    /// What the map holds under a key.
    pub fn get(&self, key: &str) -> (r: Option<&str>)
        ensures
            (match r {
                Some(v) => Some(v@),
                None => None,
            }) == value_in(self@, key@),
    {
        let mut n: usize = self.entries.len();
        proof {
            assert(self.entries@.take(n as int) =~= self.entries@);
        }
        while n > 0
            invariant
                n <= self.entries.len(),
                value_in(self@, key@) == value_in(map_of(self.entries@.take(n as int)), key@),
            decreases n,
        {
            proof {
                assert(self.entries@.take(n as int).drop_last() =~= self.entries@.take(n - 1));
                assert(self.entries@.take(n as int).last() == self.entries@[n - 1]);
            }
            if text::same(self.entries[n - 1].0.as_str(), key) {
                return Some(self.entries[n - 1].1.as_str());
            }
            n = n - 1;
        }
        proof {
            assert(self.entries@.take(0) =~= Seq::<(String, String)>::empty());
        }
        None
    }

    /// Whether the map holds anything under a key.
    pub fn contains_key(&self, key: &str) -> (r: bool)
        ensures
            r == self@.dom().contains(key@),
    {
        self.get(key).is_some()
    }
}

} // verus!
