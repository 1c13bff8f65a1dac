//! High-score tables: per game, the entries in the order they were added,
//! and the best ones on request.
use vstd::prelude::*;
use crate::store::{keys_unique, has_key, index_of, lemma_index_of, lemma_replace, lemma_push, find_key};

verus! {

/// `std::time::UNIX_EPOCH.elapsed()` in whole seconds, 0 if the clock is
/// before the epoch. Nothing is promised of the value: it is the clock.
#[verifier::external_body]
fn now_secs() -> u64 {
    std::time::UNIX_EPOCH.elapsed().unwrap_or_default().as_secs()
}

/// A table entry: player, score, time in seconds since the epoch.
pub type Entry = (String, i32, u64);

pub open spec fn entry_view(e: Entry) -> (Seq<char>, i32, u64) {
    (e.0@, e.1, e.2)
}

pub open spec fn entries_view(v: Vec<Entry>) -> Seq<(Seq<char>, i32, u64)> {
    v@.map_values(|e: Entry| entry_view(e))
}

/// Where an entry with score `sc` goes in `t`, sorted best first, after
/// every entry at least as good: the first position from `i` on whose score
/// is below `sc`.
pub open spec fn ins_pos(t: Seq<(Seq<char>, i32, u64)>, sc: i32, i: int) -> int
    decreases t.len() - i,
{
    if i >= t.len() {
        t.len() as int
    } else if t[i].1 < sc {
        i
    } else {
        ins_pos(t, sc, i + 1)
    }
}

/// `s` ordered by score, best first; equal scores keep their order.
pub open spec fn best_first(s: Seq<(Seq<char>, i32, u64)>) -> Seq<(Seq<char>, i32, u64)>
    decreases s.len(),
{
    if s.len() == 0 {
        s
    } else {
        let t = best_first(s.drop_last());
        t.insert(ins_pos(t, s.last().1, 0), s.last())
    }
}

proof fn lemma_ins_pos(t: Seq<(Seq<char>, i32, u64)>, sc: i32, i: int)
    requires
        0 <= i <= t.len(),
    ensures
        i <= ins_pos(t, sc, i) <= t.len(),
        forall|j: int| i <= j < ins_pos(t, sc, i) ==> #[trigger] t[j].1 >= sc,
        ins_pos(t, sc, i) < t.len() ==> t[ins_pos(t, sc, i)].1 < sc,
    decreases t.len() - i,
{
    if i < t.len() && t[i].1 >= sc {
        lemma_ins_pos(t, sc, i + 1);
    }
}

proof fn lemma_best_first_len(s: Seq<(Seq<char>, i32, u64)>)
    ensures
        best_first(s).len() == s.len(),
    decreases s.len(),
{
    if s.len() > 0 {
        lemma_best_first_len(s.drop_last());
        lemma_ins_pos(best_first(s.drop_last()), s.last().1, 0);
    }
}

/// The order is by score, best first.
pub proof fn lemma_best_first_sorted(s: Seq<(Seq<char>, i32, u64)>)
    ensures
        forall|i: int, j: int| 0 <= i < j < best_first(s).len() ==> #[trigger] best_first(s)[i].1 >= #[trigger] best_first(
            s,
        )[j].1,
    decreases s.len(),
{
    if s.len() > 0 {
        let t = best_first(s.drop_last());
        lemma_best_first_sorted(s.drop_last());
        lemma_best_first_len(s.drop_last());
        let p = ins_pos(t, s.last().1, 0);
        lemma_ins_pos(t, s.last().1, 0);
        let r = t.insert(p, s.last());
        assert forall|i: int, j: int| 0 <= i < j < r.len() implies #[trigger] r[i].1 >= #[trigger] r[j].1 by {
            if j < p {
                assert(r[i] == t[i] && r[j] == t[j]);
            } else if j == p {
                assert(r[i] == t[i]);
            } else if i < p {
                assert(r[i] == t[i] && r[j] == t[j - 1]);
                if i < j - 1 {
                    assert(t[i].1 >= t[j - 1].1);
                }
            } else if i == p {
                assert(r[j] == t[j - 1]);
                assert(t[p].1 < s.last().1);
                if p < j - 1 {
                    assert(t[p].1 >= t[j - 1].1);
                }
            } else {
                assert(r[i] == t[i - 1] && r[j] == t[j - 1]);
            }
        }
    }
}

/// The order holds every entry as often as the table does.
pub proof fn lemma_best_first_perm(s: Seq<(Seq<char>, i32, u64)>)
    ensures
        best_first(s).to_multiset() == s.to_multiset(),
    decreases s.len(),
{
    broadcast use vstd::seq_lib::group_to_multiset_ensures;
    if s.len() > 0 {
        let t = best_first(s.drop_last());
        lemma_best_first_perm(s.drop_last());
        lemma_best_first_len(s.drop_last());
        let p = ins_pos(t, s.last().1, 0);
        lemma_ins_pos(t, s.last().1, 0);
        t.insert(p, s.last()).remove(p);
        assert(t.insert(p, s.last()).remove(p) =~= t);
        assert(s.drop_last().push(s.last()) =~= s);
    }
}

pub struct LeaderboardManager {
    /// One entry per game.
    pub scores: Vec<(String, Vec<Entry>)>,
}

impl View for LeaderboardManager {
    type V = Map<Seq<char>, Seq<(Seq<char>, i32, u64)>>;

    open spec fn view(&self) -> Map<Seq<char>, Seq<(Seq<char>, i32, u64)>> {
        Map::new(
            |k: Seq<char>| has_key(self.scores@, k),
            |k: Seq<char>| entries_view(self.scores@[index_of(self.scores@, k)].1),
        )
    }
}

impl LeaderboardManager {
    pub open spec fn wf(&self) -> bool {
        keys_unique(self.scores@)
    }

    /// The entries of `game`, in the order they were added.
    pub open spec fn table(&self, game: Seq<char>) -> Seq<(Seq<char>, i32, u64)> {
        if self@.dom().contains(game) {
            self@[game]
        } else {
            Seq::empty()
        }
    }

    /// No tables.
    pub fn new() -> (m: Self)
        ensures
            m.wf(),
            m@ == Map::<Seq<char>, Seq<(Seq<char>, i32, u64)>>::empty(),
    {
        let m = LeaderboardManager { scores: Vec::new() };
        assert(m@ =~= Map::<Seq<char>, Seq<(Seq<char>, i32, u64)>>::empty());
        m
    }

    /// Appends an entry for `player` with `score`, stamped `now` (seconds
    /// since the epoch), to the table of `game`.
    pub fn add_at(&mut self, game: &str, player: &str, score: i32, now: u64)
        requires
            old(self).wf(),
        ensures
            final(self).wf(),
            final(self)@.dom() == old(self)@.dom().insert(game@),
            forall|g: Seq<char>| g != game@ ==> #[trigger] final(self).table(g) == old(self).table(g),
            final(self).table(game@) == old(self).table(game@).push((player@, score, now)),
    {
        let k = String::from_str(game);
        let e: Entry = (String::from_str(player), score, now);
        let ghost old_s = self.scores@;
        match find_key(&self.scores, &k) {
            Some(i) => {
                let ghost old_list = self.scores@[i as int].1@;
                self.scores[i].1.push(e);
                proof {
                    lemma_replace(old_s, self.scores@, i as int);
                    lemma_index_of(old_s, game@, i as int);
                    lemma_index_of(self.scores@, game@, i as int);
                    assert(self.scores@[i as int].1@ == old_list.push(e));
                    assert(entries_view(self.scores@[i as int].1).drop_last() =~= entries_view(old_s[i as int].1));
                    assert(self@.dom() =~= old(self)@.dom().insert(game@));
                    assert forall|g: Seq<char>| g != game@ implies #[trigger] self.table(g) == old(self).table(g) by {
                        if has_key(self.scores@, g) {
                            let j = index_of(self.scores@, g);
                            assert(j != i);
                            assert(self.scores@[j] == old_s[j]);
                        }
                    }
                }
            },
            None => {
                let mut list: Vec<Entry> = Vec::new();
                list.push(e);
                self.scores.push((k, list));
                proof {
                    lemma_push(old_s, self.scores@.last());
                    assert(self.scores@ == old_s.push(self.scores@.last()));
                    assert(entries_view(self.scores@.last().1).drop_last() =~= Seq::<(Seq<char>, i32, u64)>::empty());
                    assert(self@.dom() =~= old(self)@.dom().insert(game@));
                    assert forall|g: Seq<char>| g != game@ implies #[trigger] self.table(g) == old(self).table(g) by {
                        if has_key(self.scores@, g) {
                            let j = index_of(self.scores@, g);
                            assert(self.scores@[j] == old_s[j]);
                        }
                    }
                }
            },
        }
    }

    /// Appends an entry for `player` with `score` to the table of `game`,
    /// stamped with the current time (see `add_at`).
    pub fn add(&mut self, game: &str, player: &str, score: i32)
        requires
            old(self).wf(),
        ensures
            final(self).wf(),
            final(self)@.dom() == old(self)@.dom().insert(game@),
            forall|g: Seq<char>| g != game@ ==> #[trigger] final(self).table(g) == old(self).table(g),
            final(self).table(game@).len() == old(self).table(game@).len() + 1,
            final(self).table(game@).drop_last() == old(self).table(game@),
            final(self).table(game@).last().0 == player@,
            final(self).table(game@).last().1 == score,
    {
        self.add_at(game, player, score, now_secs());
    }

    /// The best `limit` entries of `game`, best first; equal scores in the
    /// order they were added.
    pub fn top(&self, game: &str, limit: usize) -> (r: Vec<&Entry>)
        requires
            self.wf(),
        ensures
            r@.map_values(|e: &Entry| entry_view(*e)) == best_first(self.table(game@)).take(
                if limit < self.table(game@).len() {
                    limit as int
                } else {
                    self.table(game@).len() as int
                },
            ),
    {
        let k = String::from_str(game);
        let mut entries: Vec<&Entry> = Vec::new();
        let ghost src: Seq<(Seq<char>, i32, u64)> = Seq::empty();
        match find_key(&self.scores, &k) {
            Some(gi) => {
                proof {
                    lemma_index_of(self.scores@, game@, gi as int);
                }
                let list = &self.scores[gi].1;
                proof {
                    src = entries_view(*list);
                }
                let mut n: usize = 0;
                while n < list.len()
                    invariant
                        n <= list@.len(),
                        src == entries_view(*list),
                        entries@.map_values(|e: &Entry| entry_view(*e)) == best_first(src.take(n as int)),
                    decreases list@.len() - n,
                {
                    let e = &list[n];
                    let ghost t = entries@.map_values(|e: &Entry| entry_view(*e));
                    let mut j: usize = 0;
                    while j < entries.len() && entries[j].1 >= e.1
                        invariant
                            j <= entries@.len(),
                            t == entries@.map_values(|e: &Entry| entry_view(*e)),
                            ins_pos(t, e.1, 0) == ins_pos(t, e.1, j as int),
                        decreases entries@.len() - j,
                    {
                        j += 1;
                    }
                    entries.insert(j, e);
                    proof {
                        assert(src.take(n + 1).drop_last() =~= src.take(n as int));
                        assert(src.take(n + 1).last() == entry_view(*e));
                        assert(entries@.map_values(|e: &Entry| entry_view(*e)) =~= t.insert(j as int, entry_view(*e)));
                    }
                    n += 1;
                }
                assert(src.take(list@.len() as int) =~= src);
            },
            None => {
                assert(entries@.map_values(|e: &Entry| entry_view(*e)) =~= best_first(src));
            },
        }
        proof {
            lemma_best_first_len(src);
        }
        entries.truncate(limit);
        assert(entries@.map_values(|e: &Entry| entry_view(*e)) =~= best_first(src).take(
            if limit < src.len() {
                limit as int
            } else {
                src.len() as int
            },
        ));
        entries
    }
}

} // verus!
