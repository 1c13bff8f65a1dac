//! Achievements: a fixed list, and the set of ids a player has unlocked.
use vstd::prelude::*;

verus! {

pub struct Achievement {
    pub id: &'static str,
    pub name: &'static str,
    pub desc: &'static str,
    pub points: i32,
}

/// The number of achievements.
pub const ACHIEVEMENT_COUNT: usize = 7;

/// The id and points of achievement `i` of the fixed list.
pub open spec fn ach(i: int) -> (Seq<char>, i32) {
    if i == 0 {
        ("first_game"@, 10)
    } else if i == 1 {
        ("hundred_wins"@, 50)
    } else if i == 2 {
        ("thousand_points"@, 30)
    } else if i == 3 {
        ("ten_hours"@, 40)
    } else if i == 4 {
        ("pong_master"@, 30)
    } else if i == 5 {
        ("snake_king"@, 40)
    } else {
        ("tetris_clear"@, 50)
    }
}

/// Achievement `i` of the fixed list.
pub fn achievement(i: usize) -> (a: Achievement)
    requires
        i < ACHIEVEMENT_COUNT,
    ensures
        a.id@ == ach(i as int).0,
        a.points == ach(i as int).1,
{
    match i {
        0 => Achievement { id: "first_game", name: "First Steps", desc: "Play your first game", points: 10 },
        1 => Achievement { id: "hundred_wins", name: "Century", desc: "Win 100 games", points: 50 },
        2 => Achievement {
            id: "thousand_points",
            name: "Point Collector",
            desc: "Score 1000 points",
            points: 30,
        },
        3 => Achievement { id: "ten_hours", name: "Dedicated", desc: "Play for 10 hours", points: 40 },
        4 => Achievement { id: "pong_master", name: "Pong Master", desc: "Win 10 Pong matches", points: 30 },
        5 => Achievement { id: "snake_king", name: "Snake King", desc: "Reach length 50 in Snake", points: 40 },
        _ => Achievement {
            id: "tetris_clear",
            name: "Tetris Clear",
            desc: "Clear 100 lines in Tetris",
            points: 50,
        },
    }
}

/// The whole list, in order.
pub fn all_achievements() -> (v: Vec<Achievement>)
    ensures
        v@.len() == ACHIEVEMENT_COUNT,
        forall|i: int| 0 <= i < ACHIEVEMENT_COUNT ==> (#[trigger] v@[i]).id@ == ach(i).0 && v@[i].points == ach(i).1,
{
    let mut v: Vec<Achievement> = Vec::new();
    let mut i: usize = 0;
    while i < ACHIEVEMENT_COUNT
        invariant
            i <= ACHIEVEMENT_COUNT,
            v@.len() == i,
            forall|j: int| 0 <= j < i ==> (#[trigger] v@[j]).id@ == ach(j).0 && v@[j].points == ach(j).1,
        decreases ACHIEVEMENT_COUNT - i,
    {
        v.push(achievement(i));
        i += 1;
    }
    v
}

/// Points of the unlocked achievements among the first `n` of the list.
pub open spec fn points_of(unlocked: Set<Seq<char>>, n: int) -> int
    decreases n,
{
    if n <= 0 {
        0
    } else {
        points_of(unlocked, n - 1) + if unlocked.contains(ach(n - 1).0) {
            ach(n - 1).1 as int
        } else {
            0
        }
    }
}

proof fn lemma_points_bounds(unlocked: Set<Seq<char>>, n: int)
    requires
        0 <= n <= 7,
    ensures
        0 <= points_of(unlocked, n) <= 50 * n,
    decreases n,
{
    if n > 0 {
        lemma_points_bounds(unlocked, n - 1);
    }
}

pub struct AchievementManager {
    /// Each unlocked id once.
    pub unlocked: Vec<String>,
}

impl View for AchievementManager {
    type V = Set<Seq<char>>;

    open spec fn view(&self) -> Set<Seq<char>> {
        Set::new(|k: Seq<char>| exists|i: int| 0 <= i < self.unlocked@.len() && #[trigger] self.unlocked@[i]@ == k)
    }
}

impl AchievementManager {
    /// No id twice.
    pub open spec fn wf(&self) -> bool {
        forall|i: int, j: int|
            0 <= i < self.unlocked@.len() && 0 <= j < self.unlocked@.len() && i != j ==> #[trigger] self.unlocked@[i]@
                != #[trigger] self.unlocked@[j]@
    }

    /// Nothing unlocked.
    pub fn new() -> (m: Self)
        ensures
            m.wf(),
            m@ == Set::<Seq<char>>::empty(),
    {
        let m = AchievementManager { unlocked: Vec::new() };
        assert(m@ =~= Set::<Seq<char>>::empty());
        m
    }

    /// Whether `id` is unlocked.
    pub fn is_unlocked(&self, id: &str) -> (r: bool)
        ensures
            r == self@.contains(id@),
    {
        let k = String::from_str(id);
        let mut i: usize = 0;
        while i < self.unlocked.len()
            invariant
                k@ == id@,
                i <= self.unlocked@.len(),
                forall|j: int| 0 <= j < i ==> #[trigger] self.unlocked@[j]@ != id@,
            decreases self.unlocked@.len() - i,
        {
            if self.unlocked[i] == k {
                return true;
            }
            i += 1;
        }
        false
    }

    /// Unlocks `id`; true when it was not unlocked before.
    pub fn unlock(&mut self, id: &str) -> (r: bool)
        requires
            old(self).wf(),
        ensures
            final(self).wf(),
            r == !old(self)@.contains(id@),
            final(self)@ == old(self)@.insert(id@),
    {
        if self.is_unlocked(id) {
            assert(self@ =~= self@.insert(id@));
            return false;
        }
        let ghost before = self.unlocked@;
        self.unlocked.push(String::from_str(id));
        proof {
            let s = self.unlocked@;
            assert forall|i: int, j: int| 0 <= i < s.len() && 0 <= j < s.len() && i != j implies #[trigger] s[i]@
                != #[trigger] s[j]@ by {
                if i < before.len() && j < before.len() {
                    assert(s[i] == before[i] && s[j] == before[j]);
                } else if i < before.len() {
                    assert(s[i] == before[i]);
                } else {
                    assert(s[j] == before[j]);
                }
            }
            assert forall|k: Seq<char>| #[trigger] self@.contains(k) == old(self)@.insert(id@).contains(k) by {
                if old(self)@.contains(k) {
                    let i = choose|i: int| 0 <= i < before.len() && #[trigger] before[i]@ == k;
                    assert(s[i] == before[i]);
                }
                if self@.contains(k) {
                    let i = choose|i: int| 0 <= i < s.len() && #[trigger] s[i]@ == k;
                    if i < before.len() {
                        assert(s[i] == before[i]);
                    }
                }
                if k == id@ {
                    assert(s[before.len() as int]@ == k);
                }
            }
            assert(self@ =~= old(self)@.insert(id@));
        }
        true
    }

    /// How many ids are unlocked.
    pub fn count(&self) -> (r: usize)
        requires
            self.wf(),
        ensures
            r == self.unlocked@.len(),
            r as nat == self@.len(),
    {
        proof {
            self.lemma_len();
        }
        self.unlocked.len()
    }

    /// The set of unlocked ids has one member per entry.
    proof fn lemma_len(&self)
        requires
            self.wf(),
        ensures
            self@.finite(),
            self@.len() == self.unlocked@.len(),
    {
        let s = self.unlocked@;
        let f = |x: String| x@;
        assert forall|i: int, j: int| 0 <= i < s.len() && 0 <= j < s.len() && i != j implies s.map_values(f)[i]
            != s.map_values(f)[j] by {
            assert(s[i]@ != s[j]@);
        }
        assert(s.map_values(f).no_duplicates());
        s.map_values(f).unique_seq_to_set();
        assert(self@ =~= s.map_values(f).to_set()) by {
            assert forall|k: Seq<char>| self@.contains(k) implies s.map_values(f).to_set().contains(k) by {
                let i = choose|i: int| 0 <= i < s.len() && #[trigger] s[i]@ == k;
                assert(s.map_values(f)[i] == k);
            }
            assert forall|k: Seq<char>| s.map_values(f).to_set().contains(k) implies self@.contains(k) by {
                let i = choose|i: int| 0 <= i < s.map_values(f).len() && s.map_values(f)[i] == k;
                assert(s[i]@ == k);
            }
        }
    }

    /// The points of the unlocked achievements of the list.
    pub fn points(&self) -> (r: i32)
        ensures
            r == points_of(self@, ACHIEVEMENT_COUNT as int),
    {
        let all = all_achievements();
        let mut sum: i32 = 0;
        let mut i: usize = 0;
        while i < all.len()
            invariant
                all@.len() == ACHIEVEMENT_COUNT,
                forall|j: int| 0 <= j < ACHIEVEMENT_COUNT ==> (#[trigger] all@[j]).id@ == ach(j).0 && all@[j].points == ach(j).1,
                i <= ACHIEVEMENT_COUNT,
                sum == points_of(self@, i as int),
            decreases all@.len() - i,
        {
            proof {
                lemma_points_bounds(self@, i as int);
            }
            if self.is_unlocked(all[i].id) {
                sum = sum + all[i].points;
            }
            i += 1;
        }
        sum
    }

    /// The unlocked count as a percentage of the list, rounded down (ids
    /// outside the list count too).
    pub fn pct(&self) -> (r: usize)
        requires
            self.wf(),
            self.unlocked@.len() * 100 <= usize::MAX,
        ensures
            r == self@.len() * 100 / (ACHIEVEMENT_COUNT as nat),
    {
        (self.count() * 100) / ACHIEVEMENT_COUNT
    }
}

/// Unlocking is idempotent: a second unlock of the same id changes nothing
/// and reports false.
pub proof fn law_unlock_twice(s: Set<Seq<char>>, id: Seq<char>)
    ensures
        s.insert(id).contains(id),
        s.insert(id).insert(id) == s.insert(id),
{
    assert(s.insert(id).insert(id) =~= s.insert(id));
}

} // verus!
