//! User settings: text values under text keys.
use vstd::prelude::*;
use crate::store::{
    keys_unique, has_key, index_of, lemma_index_of, lemma_replace, lemma_push, find_key, last_write, lemma_last_write,
};

verus! {

pub struct SettingsManager {
    /// One entry per key.
    pub settings: Vec<(String, String)>,
}

impl View for SettingsManager {
    type V = Map<Seq<char>, Seq<char>>;

    open spec fn view(&self) -> Map<Seq<char>, Seq<char>> {
        Map::new(
            |k: Seq<char>| has_key(self.settings@, k),
            |k: Seq<char>| self.settings@[index_of(self.settings@, k)].1@,
        )
    }
}

impl SettingsManager {
    pub open spec fn wf(&self) -> bool {
        keys_unique(self.settings@)
    }

    /// The defaults: theme `tokyo-night`, animations and audio on.
    pub fn new() -> (s: Self)
        ensures
            s.wf(),
            s@ == map![
                "theme"@ => "tokyo-night"@,
                "animations"@ => "true"@,
                "audio"@ => "true"@,
            ],
    {
        let mut s = SettingsManager { settings: Vec::new() };
        s.set("theme", "tokyo-night");
        s.set("animations", "true");
        s.set("audio", "true");
        s
    }

    /// The value under `key`, or the empty text.
    pub fn get(&self, key: &str) -> (r: &str)
        requires
            self.wf(),
        ensures
            r@ == if self@.dom().contains(key@) {
                self@[key@]
            } else {
                Seq::<char>::empty()
            },
    {
        let k = String::from_str(key);
        match find_key(&self.settings, &k) {
            Some(i) => {
                proof {
                    lemma_index_of(self.settings@, key@, i as int);
                }
                self.settings[i].1.as_str()
            },
            None => {
                proof {
                    reveal_strlit("");
                }
                ""
            },
        }
    }

    /// Stores `val` under `key`, replacing any earlier value.
    pub fn set(&mut self, key: &str, val: &str)
        requires
            old(self).wf(),
        ensures
            final(self).wf(),
            final(self)@ == old(self)@.insert(key@, val@),
    {
        let k = String::from_str(key);
        let v = String::from_str(val);
        let ghost old_s = self.settings@;
        match find_key(&self.settings, &k) {
            Some(i) => {
                self.settings.set(i, (k, v));
                proof {
                    lemma_replace(old_s, self.settings@, i as int);
                    lemma_index_of(old_s, key@, i as int);
                    assert(self@ =~= old(self)@.insert(key@, val@));
                }
            },
            None => {
                self.settings.push((k, v));
                proof {
                    lemma_push(old_s, self.settings@.last());
                    assert(self.settings@ == old_s.push(self.settings@.last()));
                    assert(self@ =~= old(self)@.insert(key@, val@));
                }
            },
        }
    }
}

/// What a write stores is what a read gives back, and other keys keep their
/// values.
pub proof fn law_read_after_write(m: Map<Seq<char>, Seq<char>>, k: Seq<char>, v: Seq<char>, other: Seq<char>)
    requires
        other != k,
    ensures
        m.insert(k, v).dom().contains(k),
        m.insert(k, v)[k] == v,
        m.insert(k, v).dom().contains(other) == m.dom().contains(other),
        m.dom().contains(other) ==> m.insert(k, v)[other] == m[other],
{
}

/// After any run of `set` calls, `get` of a key gives the value of the last
/// call that set it; a key that no call touched keeps its value from before
/// the run.
pub proof fn law_get_after_sets(states: Seq<SettingsManager>, writes: Seq<(Seq<char>, Seq<char>)>, key: Seq<char>)
    requires
        states.len() == writes.len() + 1,
        forall|i: int|
            0 <= i < writes.len() ==> states[i + 1]@ == states[i]@.insert(#[trigger] writes[i].0, writes[i].1),
    ensures
        match last_write(writes, key) {
            Some(v) => states.last()@.dom().contains(key) && states.last()@[key] == v,
            None => states.last()@.dom().contains(key) == states[0]@.dom().contains(key) && (states[0]@.dom().contains(
                key,
            ) ==> states.last()@[key] == states[0]@[key]),
        },
{
    let views = Seq::new(states.len(), |i: int| states[i]@);
    assert forall|i: int| 0 <= i < writes.len() implies views[i + 1] == views[i].insert(
        #[trigger] writes[i].0,
        writes[i].1,
    ) by {}
    lemma_last_write(views, writes, key);
}

} // verus!
