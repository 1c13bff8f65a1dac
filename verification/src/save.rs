//! Saved game states: one opaque key-value record per game.
use vstd::prelude::*;
use std::collections::HashMap;
use crate::store::{
    keys_unique, has_key, index_of, lemma_index_of, lemma_replace, lemma_push, find_key, last_write, lemma_last_write,
};

verus! {

pub struct SaveManager {
    /// One entry per game.
    pub saves: Vec<(String, HashMap<String, String>)>,
}

impl View for SaveManager {
    type V = Map<Seq<char>, HashMap<String, String>>;

    open spec fn view(&self) -> Map<Seq<char>, HashMap<String, String>> {
        Map::new(|k: Seq<char>| has_key(self.saves@, k), |k: Seq<char>| self.saves@[index_of(self.saves@, k)].1)
    }
}

impl SaveManager {
    pub open spec fn wf(&self) -> bool {
        keys_unique(self.saves@)
    }

    /// No saves.
    pub fn new() -> (s: Self)
        ensures
            s.wf(),
            s@ == Map::<Seq<char>, HashMap<String, String>>::empty(),
    {
        let s = SaveManager { saves: Vec::new() };
        assert(s@ =~= Map::<Seq<char>, HashMap<String, String>>::empty());
        s
    }

    /// Stores `data` for `game`, replacing an earlier save.
    pub fn save(&mut self, game: &str, data: HashMap<String, String>)
        requires
            old(self).wf(),
        ensures
            final(self).wf(),
            final(self)@ == old(self)@.insert(game@, data),
    {
        let k = String::from_str(game);
        let ghost old_s = self.saves@;
        match find_key(&self.saves, &k) {
            Some(i) => {
                self.saves.set(i, (k, data));
                proof {
                    lemma_replace(old_s, self.saves@, i as int);
                    lemma_index_of(old_s, game@, i as int);
                    assert(self@ =~= old(self)@.insert(game@, data));
                }
            },
            None => {
                self.saves.push((k, data));
                proof {
                    lemma_push(old_s, self.saves@.last());
                    assert(self.saves@ == old_s.push(self.saves@.last()));
                    assert(self@ =~= old(self)@.insert(game@, data));
                }
            },
        }
    }

    /// The save of `game`, if there is one.
    pub fn load(&self, game: &str) -> (r: Option<&HashMap<String, String>>)
        requires
            self.wf(),
        ensures
            r == if self@.dom().contains(game@) {
                Some(&self@[game@])
            } else {
                None
            },
    {
        let k = String::from_str(game);
        match find_key(&self.saves, &k) {
            Some(i) => {
                proof {
                    lemma_index_of(self.saves@, game@, i as int);
                }
                Some(&self.saves[i].1)
            },
            None => None,
        }
    }
}

/// A load gives back what the last save of that game stored.
pub proof fn law_load_after_save(before: SaveManager, after: SaveManager, game: Seq<char>, data: HashMap<String, String>)
    requires
        after@ == before@.insert(game, data),
    ensures
        after@.dom().contains(game),
        after@[game] == data,
{
}

/// After any run of saves (each as `save` states it), loading a game gives
/// what the last save of that game stored; a game that no save touched
/// keeps what it had before the run: nothing, for a manager that started
/// empty.
pub proof fn law_load_after_saves(states: Seq<SaveManager>, writes: Seq<(Seq<char>, HashMap<String, String>)>, game: Seq<char>)
    requires
        states.len() == writes.len() + 1,
        forall|i: int|
            0 <= i < writes.len() ==> states[i + 1]@ == states[i]@.insert(#[trigger] writes[i].0, writes[i].1),
    ensures
        match last_write(writes, game) {
            Some(v) => states.last()@.dom().contains(game) && states.last()@[game] == v,
            None => states.last()@.dom().contains(game) == states[0]@.dom().contains(game) && (states[0]@.dom().contains(
                game,
            ) ==> states.last()@[game] == states[0]@[game]),
        },
{
    let views = Seq::new(states.len(), |i: int| states[i]@);
    assert forall|i: int| 0 <= i < writes.len() implies views[i + 1] == views[i].insert(
        #[trigger] writes[i].0,
        writes[i].1,
    ) by {}
    lemma_last_write(views, writes, game);
}

} // verus!
