//! The registry of the characters whose persona the bot speaks with.

use vstd::prelude::*;
use crate::config::assoc::{
    as_map, distinct_keys, insert_all, lemma_as_map_index, lemma_as_map_push, lemma_as_map_set,
};

verus! {

/// The characters the bot knows.
#[derive(Clone, Copy, Debug, PartialEq, Eq, Hash, Structural)]
pub enum Character {
    Emilia,
}

impl Character {
    /// The lower-case name of the character (its key in the configuration).
    pub open spec fn name_spec(self) -> Seq<char> {
        match self {
            Character::Emilia => "emilia"@,
        }
    }

    /// The lower-case name of the character.
    pub fn name(&self) -> (r: &'static str)
        ensures
            r@ == self.name_spec(),
    {
        match self {
            Character::Emilia => "emilia",
        }
    }
}

/// A character's configuration.
pub struct CharacterConfig {
    pub name: String,
    pub personality: String,
}

/// The configured characters.
pub struct CharacterRegistry {
    pub characters: Vec<(Character, CharacterConfig)>,
}

impl CharacterRegistry {
    /// One configuration per character.
    pub open spec fn wf(&self) -> bool {
        distinct_keys(self.characters@)
    }

    /// The configuration of each configured character.
    pub open spec fn character_map(&self) -> Map<Character, CharacterConfig> {
        as_map(self.characters@)
    }

    /// Builds the registry from the configurations `entries` (a later entry
    /// for a character replaces an earlier one).
    pub fn new(entries: Vec<(Character, CharacterConfig)>) -> (r: Self)
        ensures
            r.wf(),
            r.character_map() == insert_all(entries@),
    {
        let ghost all = entries@;
        let mut rest = entries;
        let mut rev: Vec<(Character, CharacterConfig)> = Vec::new();
        while rest.len() > 0
            invariant
                all == rest@ + rev@.reverse(),
            decreases rest@.len(),
        {
            let e = rest.pop().unwrap();
            let ghost before = rev@;
            rev.push(e);
            assert(rev@.reverse() =~= seq![e] + before.reverse());
        }
        assert(rest@ + rev@.reverse() =~= rev@.reverse());
        assert(all.take(0) + rev@.reverse() =~= rev@.reverse());
        let mut characters: Vec<(Character, CharacterConfig)> = Vec::new();
        let mut i: usize = 0;
        let n = rev.len();
        while rev.len() > 0
            invariant
                all == all.take(i as int) + rev@.reverse(),
                i + rev@.len() == n,
                n == all.len(),
                distinct_keys(characters@),
                as_map(characters@) == insert_all(all.take(i as int)),
            decreases rev@.len(),
        {
            let ghost before_rev = rev@;
            let (k, v) = rev.pop().unwrap();
            assert(all.take(i + 1).drop_last() == all.take(i as int));
            assert(before_rev.reverse() == seq![(k, v)] + rev@.reverse());
            assert(all[i as int] == (k, v));
            assert(all.take(i + 1).last() == (k, v));
            let mut j: usize = 0;
            let mut found: Option<usize> = None;
            while j < characters.len()
                invariant
                    j <= characters@.len(),
                    found matches Some(f) ==> f < characters@.len() && characters@[f as int].0 == k,
                    found is None ==> forall|q: int| 0 <= q < j ==> characters@[q].0 != k,
                decreases characters@.len() - j,
            {
                if found.is_none() && characters[j].0 == k {
                    found = Some(j);
                }
                j += 1;
            }
            match found {
                Some(f) => {
                    proof {
                        lemma_as_map_set(characters@, f as int, k, v);
                    }
                    characters.set(f, (k, v));
                },
                None => {
                    proof {
                        lemma_as_map_push(characters@, k, v);
                    }
                    characters.push((k, v));
                },
            }
            i += 1;
        }
        assert(all.take(n as int) == all);
        CharacterRegistry { characters }
    }

    /// The configuration of `key`, if the character is configured.
    pub fn get_character(&self, key: &Character) -> (r: Option<&CharacterConfig>)
        requires
            self.wf(),
        ensures
            match r {
                Some(c) => self.character_map().contains_key(*key) && *c
                    == self.character_map()[*key],
                None => !self.character_map().contains_key(*key),
            },
    {
        let mut i: usize = 0;
        while i < self.characters.len()
            invariant
                i <= self.characters@.len(),
                self.wf(),
                forall|q: int| 0 <= q < i ==> self.characters@[q].0 != *key,
            decreases self.characters@.len() - i,
        {
            if self.characters[i].0 == *key {
                proof {
                    lemma_as_map_index(self.characters@, i as int);
                }
                return Some(&self.characters[i].1);
            }
            i += 1;
        }
        None
    }
}

} // verus!
