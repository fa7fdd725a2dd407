//! The score store: one integer score per user name.

use vstd::prelude::*;
use vstd::hash_map::StringHashMap;
use vstd::string::*;

verus! {

/// The score of `user` in `scores`. A user who has no entry has score 0.
pub open spec fn score_of(scores: Map<Seq<char>, int>, user: Seq<char>) -> int {
    if scores.contains_key(user) {
        scores[user]
    } else {
        0
    }
}

/// Whether `after` is what normalising makes of the score `before`: 0 for a
/// score that is not positive, else the square root rounded down.
pub open spec fn normalizes(before: int, after: int) -> bool {
    if before <= 0 {
        after == 0
    } else {
        0 <= after && after * after <= before < (after + 1) * (after + 1)
    }
}

/// Only one number is the normalised form of a score.
pub proof fn law_normalized_form_is_unique(before: int, a: int, b: int)
    requires
        normalizes(before, a),
        normalizes(before, b),
    ensures
        a == b,
{
    if before > 0 {
        assert(a < b + 1) by (nonlinear_arith)
            requires
                0 <= a,
                0 <= b,
                a * a <= before,
                before < (b + 1) * (b + 1),
        ;
        assert(b < a + 1) by (nonlinear_arith)
            requires
                0 <= a,
                0 <= b,
                b * b <= before,
                before < (a + 1) * (a + 1),
        ;
    }
}

/// The normalised form of a score: its square root rounded down, and 0 for a
/// score below 0.
pub fn normalize(score: i32) -> (r: i32)
    ensures
        normalizes(score as int, r as int),
{
    if score <= 0 {
        return 0;
    }
    let mut low: i32 = 0;
    let mut high: i32 = 46341;
    while high - low > 1
        invariant
            0 <= low < high <= 46341,
            low * low <= score < high * high,
        decreases high - low,
    {
        let mid: i32 = low + (high - low) / 2;
        assert(0 <= mid * mid <= 46340 * 46340) by (nonlinear_arith)
            requires
                0 <= mid <= 46340,
        ;
        if mid * mid <= score {
            low = mid;
        } else {
            high = mid;
        }
    }
    low
}

/// What a store lists: each entry is a user of `scores` with that user's
/// score, every user of `scores` has an entry, and no user has two.
pub open spec fn lists(entries: Seq<(String, i32)>, scores: Map<Seq<char>, int>) -> bool {
    &&& forall|i: int|
        0 <= i < entries.len() ==> scores.contains_key(#[trigger] entries[i].0@)
            && scores[entries[i].0@] == entries[i].1
    &&& forall|user: Seq<char>| #[trigger]
        scores.contains_key(user) ==> exists|i: int|
            0 <= i < entries.len() && #[trigger] entries[i].0@ == user
    &&& forall|i: int, j: int|
        0 <= i < j < entries.len() ==> #[trigger] entries[i].0@ != #[trigger] entries[j].0@
}

/// A score for each user who has ever been given one. Users are never
/// removed, and no user name is empty.
pub struct ScoreStore {
    names: Vec<String>,
    scores: StringHashMap<i32>,
}

impl ScoreStore {
    #[verifier::type_invariant]
    closed spec fn inv(self) -> bool {
        &&& forall|i: int|
            0 <= i < self.names@.len() ==> self.scores@.contains_key(#[trigger] self.names@[i]@)
        &&& forall|user: Seq<char>| #[trigger]
            self.scores@.contains_key(user) ==> user.len() > 0 && exists|i: int|
                0 <= i < self.names@.len() && #[trigger] self.names@[i]@ == user
        &&& forall|i: int, j: int|
            0 <= i < j < self.names@.len() ==> #[trigger] self.names@[i]@
                != #[trigger] self.names@[j]@
    }

    /// The score of each user who has one.
    pub closed spec fn view(&self) -> Map<Seq<char>, int> {
        Map::new(
            |user: Seq<char>| self.scores@.contains_key(user),
            |user: Seq<char>| self.scores@[user] as int,
        )
    }

    /// A store without users.
    pub fn new() -> (r: Self)
        ensures
            r@ == Map::<Seq<char>, int>::empty(),
    {
        let r = ScoreStore { names: Vec::new(), scores: StringHashMap::new() };
        assert(r@ =~= Map::<Seq<char>, int>::empty());
        r
    }

    /// The score of `user`, 0 for one who has no entry.
    pub fn get(&self, user: &str) -> (r: i32)
        ensures
            r == score_of(self@, user@),
    {
        match self.scores.get(user) {
            Some(score) => *score,
            None => 0,
        }
    }

    /// Gives `user` the score `value`, with a new entry where there was none.
    pub fn set(&mut self, user: &str, value: i32)
        requires
            user@.len() > 0,
        ensures
            final(self)@ == old(self)@.insert(user@, value as int),
    {
        proof {
            use_type_invariant(&*self);
        }
        let mut taken = ScoreStore::new();
        std::mem::swap(self, &mut taken);
        let ScoreStore { mut names, mut scores } = taken;
        if !scores.contains_key(user) {
            names.push(user.to_owned());
        }
        scores.insert(user.to_owned(), value);
        proof {
            assert forall|i: int| 0 <= i < names@.len() implies scores@.contains_key(
                #[trigger] names@[i]@,
            ) by {
                if i < old(self).names@.len() {
                    assert(names@[i] == old(self).names@[i]);
                }
            }
            assert forall|i: int, j: int| 0 <= i < j < names@.len() implies #[trigger] names@[i]@
                != #[trigger] names@[j]@ by {
                assert(names@[i] == old(self).names@[i]);
                if j < old(self).names@.len() {
                    assert(names@[j] == old(self).names@[j]);
                }
            }
            let ghost built = ScoreStore { names, scores };
            assert forall|k: Seq<char>| #[trigger] built.scores@.contains_key(k) implies exists|
                i: int,
            | 0 <= i < built.names@.len() && #[trigger] built.names@[i]@ == k by {
                if old(self).scores@.contains_key(k) {
                    let i = choose|i: int|
                        0 <= i < old(self).names@.len() && #[trigger] old(self).names@[i]@ == k;
                    assert(built.names@[i]@ == k);
                } else {
                    assert(built.names@[names@.len() - 1]@ == k);
                }
            }
        }
        *self = ScoreStore { names, scores };
        assert(self@ =~= old(self)@.insert(user@, value as int));
    }

    /// The score of `user`, who gets an entry with score 0 where there was
    /// none.
    pub fn get_or_init(&mut self, user: &str) -> (r: i32)
        requires
            user@.len() > 0,
        ensures
            r == score_of(old(self)@, user@),
            final(self)@ == old(self)@.insert(user@, r as int),
    {
        let score = self.get(user);
        self.set(user, score);
        score
    }

    /// A copy of the store as it is now: every user with their score, each
    /// user once.
    pub fn snapshot(&self) -> (r: Vec<(String, i32)>)
        ensures
            lists(r@, self@),
            forall|i: int| 0 <= i < r@.len() ==> (#[trigger] r@[i]).0@.len() > 0,
    {
        proof {
            use_type_invariant(self);
        }
        let mut entries: Vec<(String, i32)> = Vec::new();
        let mut i: usize = 0;
        while i < self.names.len()
            invariant
                self.inv(),
                i <= self.names@.len(),
                entries@.len() == i,
                forall|j: int|
                    0 <= j < i ==> (#[trigger] entries@[j]).0@ == self.names@[j]@
                        && entries@[j].1 == self.scores@[self.names@[j]@],
            decreases self.names@.len() - i,
        {
            let name = &self.names[i];
            let score = self.get(name.as_str());
            entries.push((name.clone(), score));
            i += 1;
        }
        proof {
            assert forall|user: Seq<char>| #[trigger] self@.contains_key(user) implies exists|j: int|
                0 <= j < entries@.len() && #[trigger] entries@[j].0@ == user by {
                let j = choose|j: int|
                    0 <= j < self.names@.len() && #[trigger] self.names@[j]@ == user;
                assert(entries@[j].0@ == user);
            }
        }
        entries
    }

    /// Replaces every score by its normalised form: the square root rounded
    /// down, and 0 for a score below 0.
    pub fn normalize_all(&mut self)
        ensures
            final(self)@.dom() == old(self)@.dom(),
            forall|user: Seq<char>| #[trigger]
                old(self)@.contains_key(user) ==> normalizes(old(self)@[user], final(self)@[user]),
    {
        proof {
            use_type_invariant(&*self);
        }
        let mut taken = ScoreStore::new();
        std::mem::swap(self, &mut taken);
        let ScoreStore { names, mut scores } = taken;
        let mut i: usize = 0;
        while i < names.len()
            invariant
                old(self).inv(),
                i <= names@.len(),
                names@ == old(self).names@,
                scores@.dom() == old(self).scores@.dom(),
                forall|j: int|
                    0 <= j < i ==> normalizes(
                        old(self).scores@[#[trigger] names@[j]@] as int,
                        scores@[names@[j]@] as int,
                    ),
                forall|j: int|
                    i <= j < names@.len() ==> scores@[#[trigger] names@[j]@] == old(
                        self,
                    ).scores@[names@[j]@],
            decreases names@.len() - i,
        {
            let name = names[i].clone();
            let score = match scores.get(name.as_str()) {
                Some(score) => *score,
                None => 0,
            };
            scores.insert(name, normalize(score));
            proof {
                assert(scores@.dom() =~= old(self).scores@.dom());
            }
            i += 1;
        }
        proof {
            assert forall|i: int| 0 <= i < names@.len() implies scores@.contains_key(
                #[trigger] names@[i]@,
            ) by {
                assert(old(self).scores@.contains_key(old(self).names@[i]@));
            }
            let ghost built = ScoreStore { names, scores };
            assert forall|k: Seq<char>| #[trigger] built.scores@.contains_key(k) implies exists|
                i: int,
            | 0 <= i < built.names@.len() && #[trigger] built.names@[i]@ == k by {
                let i = choose|i: int|
                    0 <= i < old(self).names@.len() && #[trigger] old(self).names@[i]@ == k;
                assert(built.names@[i]@ == k);
            }
        }
        *self = ScoreStore { names, scores };
        proof {
            assert(self@.dom() =~= old(self)@.dom());
            assert forall|user: Seq<char>| #[trigger] old(self)@.contains_key(user) implies normalizes(
                old(self)@[user],
                self@[user],
            ) by {
                let j = choose|j: int|
                    0 <= j < self.names@.len() && #[trigger] self.names@[j]@ == user;
                assert(self.names@[j]@ == user);
            }
        }
    }
}

} // verus!
