//! Named ASCII art, stored line by line.
use vstd::prelude::*;
use crate::store::{
    keys_unique, has_key, index_of, lemma_index_of, lemma_replace, lemma_push, find_key, last_write, lemma_last_write,
};

verus! {

/// The position of the first `\n` at or after `i`, or the length.
pub open spec fn first_newline(s: Seq<char>, i: int) -> int
    decreases s.len() - i,
{
    if i >= s.len() {
        s.len() as int
    } else if s[i] == '\n' {
        i
    } else {
        first_newline(s, i + 1)
    }
}

pub proof fn lemma_first_newline(s: Seq<char>, i: int)
    requires
        0 <= i,
    ensures
        i <= first_newline(s, i) || (i > s.len() && first_newline(s, i) == s.len()),
        first_newline(s, i) <= s.len() || i > s.len(),
        0 <= first_newline(s, i),
    decreases s.len() - i,
{
    if i < s.len() && s[i] != '\n' {
        lemma_first_newline(s, i + 1);
    }
}

/// The lines of `s` as the standard library's `str::lines` documents them:
/// cut at each `\n`, a `\r` right before the `\n` dropped with it, and no
/// empty line after a final `\n`.
pub open spec fn lines_of(s: Seq<char>) -> Seq<Seq<char>>
    decreases s.len(),
{
    if s.len() == 0 {
        Seq::empty()
    } else {
        let n = first_newline(s, 0);
        if n >= s.len() {
            seq![s]
        } else {
            let line = s.take(n);
            let line = if line.len() > 0 && line.last() == '\r' {
                line.drop_last()
            } else {
                line
            };
            proof {
                lemma_first_newline(s, 0);
            }
            seq![line] + lines_of(s.skip(n + 1))
        }
    }
}

/// `str::lines`, each line copied into a `String`; its documentation gives
/// the cut described by `lines_of`.
#[verifier::external_body]
fn split_lines(art: &str) -> (r: Vec<String>)
    ensures
        r@.len() == lines_of(art@).len(),
        forall|i: int| 0 <= i < r@.len() ==> #[trigger] r@[i]@ == lines_of(art@)[i],
{
    art.lines().map(|l| l.to_string()).collect()
}

pub struct ResourceManager {
    /// One entry per name.
    pub ascii_art: Vec<(String, Vec<String>)>,
}

/// The text of each line.
pub open spec fn texts(v: Vec<String>) -> Seq<Seq<char>> {
    Seq::new(v@.len(), |i: int| v@[i]@)
}

impl View for ResourceManager {
    type V = Map<Seq<char>, Seq<Seq<char>>>;

    open spec fn view(&self) -> Map<Seq<char>, Seq<Seq<char>>> {
        Map::new(
            |k: Seq<char>| has_key(self.ascii_art@, k),
            |k: Seq<char>| texts(self.ascii_art@[index_of(self.ascii_art@, k)].1),
        )
    }
}

impl ResourceManager {
    pub open spec fn wf(&self) -> bool {
        keys_unique(self.ascii_art@)
    }

    /// No art.
    pub fn new() -> (s: Self)
        ensures
            s.wf(),
            s@ == Map::<Seq<char>, Seq<Seq<char>>>::empty(),
    {
        let s = ResourceManager { ascii_art: Vec::new() };
        assert(s@ =~= Map::<Seq<char>, Seq<Seq<char>>>::empty());
        s
    }

    /// Stores `art` under `name`, split into lines.
    pub fn add_art(&mut self, name: &str, art: &str)
        requires
            old(self).wf(),
        ensures
            final(self).wf(),
            final(self)@ == old(self)@.insert(name@, lines_of(art@)),
    {
        let k = String::from_str(name);
        let lines = split_lines(art);
        assert(texts(lines) =~= lines_of(art@));
        let ghost old_s = self.ascii_art@;
        match find_key(&self.ascii_art, &k) {
            Some(i) => {
                self.ascii_art.set(i, (k, lines));
                proof {
                    lemma_replace(old_s, self.ascii_art@, i as int);
                    lemma_index_of(old_s, name@, i as int);
                    assert(self@ =~= old(self)@.insert(name@, lines_of(art@)));
                }
            },
            None => {
                self.ascii_art.push((k, lines));
                proof {
                    lemma_push(old_s, self.ascii_art@.last());
                    assert(self.ascii_art@ == old_s.push(self.ascii_art@.last()));
                    assert(self@ =~= old(self)@.insert(name@, lines_of(art@)));
                }
            },
        }
    }

    /// The lines of the art named `name`, if any.
    pub fn get_art(&self, name: &str) -> (r: Option<&Vec<String>>)
        requires
            self.wf(),
        ensures
            match r {
                Some(v) => self@.dom().contains(name@) && texts(*v) == self@[name@],
                None => !self@.dom().contains(name@),
            },
    {
        let k = String::from_str(name);
        match find_key(&self.ascii_art, &k) {
            Some(i) => {
                proof {
                    lemma_index_of(self.ascii_art@, name@, i as int);
                }
                Some(&self.ascii_art[i].1)
            },
            None => None,
        }
    }
}

/// After any run of `add_art` calls (each storing `lines_of` of its art, as
/// `add_art` states it), `get_art` of a name gives the lines of the last art
/// added under it; a name that no call touched keeps what it had before the
/// run: nothing, for a manager that started empty.
pub proof fn law_get_after_adds(states: Seq<ResourceManager>, writes: Seq<(Seq<char>, Seq<Seq<char>>)>, name: Seq<char>)
    requires
        states.len() == writes.len() + 1,
        forall|i: int|
            0 <= i < writes.len() ==> states[i + 1]@ == states[i]@.insert(#[trigger] writes[i].0, writes[i].1),
    ensures
        match last_write(writes, name) {
            Some(v) => states.last()@.dom().contains(name) && states.last()@[name] == v,
            None => states.last()@.dom().contains(name) == states[0]@.dom().contains(name) && (states[0]@.dom().contains(
                name,
            ) ==> states.last()@[name] == states[0]@[name]),
        },
{
    let views = Seq::new(states.len(), |i: int| states[i]@);
    assert forall|i: int| 0 <= i < writes.len() implies views[i + 1] == views[i].insert(
        #[trigger] writes[i].0,
        writes[i].1,
    ) by {}
    lemma_last_write(views, writes, name);
}

} // verus!
