//! Keyed entries kept in a vector, each key at most once: the shared model of
//! the settings, saves, art and score tables.
use vstd::prelude::*;

verus! {

/// No key occurs twice.
pub open spec fn keys_unique<V>(s: Seq<(String, V)>) -> bool {
    forall|i: int, j: int| 0 <= i < s.len() && 0 <= j < s.len() && i != j ==> #[trigger] s[i].0@ != #[trigger] s[j].0@
}

/// Some entry has key `k`.
pub open spec fn has_key<V>(s: Seq<(String, V)>, k: Seq<char>) -> bool {
    exists|i: int| 0 <= i < s.len() && #[trigger] s[i].0@ == k
}

/// The position of the entry with key `k`.
pub open spec fn index_of<V>(s: Seq<(String, V)>, k: Seq<char>) -> int {
    choose|i: int| 0 <= i < s.len() && #[trigger] s[i].0@ == k
}

/// With unique keys, the entry with key `k` is the one at `i`.
pub proof fn lemma_index_of<V>(s: Seq<(String, V)>, k: Seq<char>, i: int)
    requires
        keys_unique(s),
        0 <= i < s.len(),
        s[i].0@ == k,
    ensures
        index_of(s, k) == i,
{
    let j = index_of(s, k);
    assert(0 <= j < s.len() && s[j].0@ == k);
}

/// Replacing the value at `i`, or pushing a new key, keeps keys unique.
pub proof fn lemma_push_unique<V>(s: Seq<(String, V)>, e: (String, V))
    requires
        keys_unique(s),
        !has_key(s, e.0@),
    ensures
        keys_unique(s.push(e)),
{
    assert forall|i: int, j: int|
        0 <= i < s.push(e).len() && 0 <= j < s.push(e).len() && i != j implies #[trigger] s.push(e)[i].0@
        != #[trigger] s.push(e)[j].0@ by {
        if i < s.len() && j < s.len() {
            assert(s.push(e)[i] == s[i] && s.push(e)[j] == s[j]);
        } else if i < s.len() {
            assert(s.push(e)[i] == s[i]);
        } else {
            assert(s.push(e)[j] == s[j]);
        }
    }
}

/// Replacing the entry at `i` by one with the same key keeps the keys and
/// where each one sits.
pub proof fn lemma_replace<V>(old_s: Seq<(String, V)>, s: Seq<(String, V)>, i: int)
    requires
        keys_unique(old_s),
        0 <= i < old_s.len(),
        s.len() == old_s.len(),
        s[i].0@ == old_s[i].0@,
        forall|j: int| 0 <= j < s.len() && j != i ==> #[trigger] s[j] == old_s[j],
    ensures
        keys_unique(s),
        forall|k: Seq<char>| #[trigger] has_key(s, k) == has_key(old_s, k),
        forall|k: Seq<char>| has_key(s, k) ==> #[trigger] index_of(s, k) == index_of(old_s, k),
{
    assert forall|a: int, b: int| 0 <= a < s.len() && 0 <= b < s.len() && a != b implies #[trigger] s[a].0@
        != #[trigger] s[b].0@ by {
        if a != i {
            assert(s[a] == old_s[a]);
        }
        if b != i {
            assert(s[b] == old_s[b]);
        }
        assert(old_s[a].0@ != old_s[b].0@);
    }
    assert forall|k: Seq<char>| #[trigger] has_key(s, k) == has_key(old_s, k) by {
        if has_key(old_s, k) {
            let j = index_of(old_s, k);
            if j != i {
                assert(s[j] == old_s[j]);
            }
            assert(s[j].0@ == k);
        }
        if has_key(s, k) {
            let j = index_of(s, k);
            if j != i {
                assert(s[j] == old_s[j]);
            }
            assert(old_s[j].0@ == k);
        }
    }
    assert forall|k: Seq<char>| has_key(s, k) implies #[trigger] index_of(s, k) == index_of(old_s, k) by {
        let j = index_of(s, k);
        if j != i {
            assert(s[j] == old_s[j]);
        }
        lemma_index_of(old_s, k, j);
    }
}

/// Pushing an entry with a new key keeps the old keys where they were.
pub proof fn lemma_push<V>(old_s: Seq<(String, V)>, e: (String, V))
    requires
        keys_unique(old_s),
        !has_key(old_s, e.0@),
    ensures
        keys_unique(old_s.push(e)),
        forall|k: Seq<char>| #[trigger] has_key(old_s.push(e), k) == (has_key(old_s, k) || k == e.0@),
        forall|k: Seq<char>|
            has_key(old_s.push(e), k) ==> #[trigger] index_of(old_s.push(e), k) == if k == e.0@ {
                old_s.len() as int
            } else {
                index_of(old_s, k)
            },
{
    let s = old_s.push(e);
    lemma_push_unique(old_s, e);
    assert forall|k: Seq<char>| #[trigger] has_key(s, k) == (has_key(old_s, k) || k == e.0@) by {
        if has_key(old_s, k) {
            let j = index_of(old_s, k);
            assert(s[j] == old_s[j]);
        }
        if k == e.0@ {
            assert(s[old_s.len() as int] == e);
        }
        if has_key(s, k) {
            let j = index_of(s, k);
            if j < old_s.len() {
                assert(s[j] == old_s[j]);
            }
        }
    }
    assert forall|k: Seq<char>| has_key(s, k) implies #[trigger] index_of(s, k) == if k == e.0@ {
        old_s.len() as int
    } else {
        index_of(old_s, k)
    } by {
        let j = index_of(s, k);
        lemma_index_of(s, k, j);
        if j < old_s.len() {
            assert(s[j] == old_s[j]);
            lemma_index_of(old_s, k, j);
        } else {
            assert(s[j] == e);
        }
    }
}

/// The position of the entry whose key is `key`, if any.
pub fn find_key<V>(s: &Vec<(String, V)>, key: &String) -> (r: Option<usize>)
    ensures
        match r {
            Some(i) => i < s@.len() && s@[i as int].0@ == key@,
            None => !has_key(s@, key@),
        },
{
    let mut i: usize = 0;
    while i < s.len()
        invariant
            i <= s@.len(),
            forall|j: int| 0 <= j < i ==> #[trigger] s@[j].0@ != key@,
        decreases s@.len() - i,
    {
        if s[i].0 == *key {
            return Some(i);
        }
        i += 1;
    }
    None
}

/// The value that the last of `writes` made to key `k` wrote, if any.
pub open spec fn last_write<V>(writes: Seq<(Seq<char>, V)>, k: Seq<char>) -> Option<V>
    decreases writes.len(),
{
    if writes.len() == 0 {
        None
    } else if writes.last().0 == k {
        Some(writes.last().1)
    } else {
        last_write(writes.drop_last(), k)
    }
}

/// Each map of `states` is the one before it with the write of the same
/// position in `writes` inserted.
pub open spec fn written_in_turn<V>(states: Seq<Map<Seq<char>, V>>, writes: Seq<(Seq<char>, V)>) -> bool {
    &&& states.len() == writes.len() + 1
    &&& forall|i: int|
        0 <= i < writes.len() ==> states[i + 1] == states[i].insert(#[trigger] writes[i].0, writes[i].1)
}

/// After a run of writes, a key holds what the last write to it wrote, or
/// what it held at the start when no write touched it.
pub proof fn lemma_last_write<V>(states: Seq<Map<Seq<char>, V>>, writes: Seq<(Seq<char>, V)>, k: Seq<char>)
    requires
        written_in_turn(states, writes),
    ensures
        match last_write(writes, k) {
            Some(v) => states.last().dom().contains(k) && states.last()[k] == v,
            None => states.last().dom().contains(k) == states[0].dom().contains(k) && (states[0].dom().contains(k)
                ==> states.last()[k] == states[0][k]),
        },
    decreases writes.len(),
{
    if writes.len() > 0 {
        let n = writes.len() as int;
        let s1 = states.drop_last();
        let w1 = writes.drop_last();
        assert forall|i: int| 0 <= i < w1.len() implies s1[i + 1] == s1[i].insert(#[trigger] w1[i].0, w1[i].1) by {
            assert(writes[i] == w1[i]);
        }
        lemma_last_write(s1, w1, k);
        assert(writes[n - 1] == writes.last());
        assert(states[n] == states[n - 1].insert(writes[n - 1].0, writes[n - 1].1));
    }
}

} // verus!
