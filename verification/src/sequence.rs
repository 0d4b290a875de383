//! The sequence itself: two consecutive terms determine every later term
//! through the rule `next = previous + current`.

use vstd::prelude::*;

use crate::number::{big_add, big_eq, big_from_i128, big_gt, big_value, Number};

verus! {

/// The term at 1-based position `n` of the sequence seeded with `(s1, s2)`:
/// position 1 holds `s1`, position 2 holds `s2`, and every later position
/// holds the sum of the two before it.
pub open spec fn term(s1: int, s2: int, n: nat) -> int
    decreases n,
{
    if n <= 1 {
        s1
    } else if n == 2 {
        s2
    } else {
        term(s1, s2, (n - 1) as nat) + term(s1, s2, (n - 2) as nat)
    }
}

/// Seed identity: for any seed, position 1 holds the first seed value and
/// position 2 the second.
pub proof fn lemma_seed_identity(s1: int, s2: int)
    ensures
        term(s1, s2, 1) == s1,
        term(s1, s2, 2) == s2,
{
}

/// Recurrence law: every term from position 3 on is the sum of the two terms
/// before it.
pub proof fn lemma_recurrence(s1: int, s2: int, n: nat)
    requires
        3 <= n,
    ensures
        term(s1, s2, n) == term(s1, s2, (n - 1) as nat) + term(s1, s2, (n - 2) as nat),
{
}

/// With a non-negative, non-decreasing seed, every term is non-negative and
/// the sequence never decreases from one position to the next.
pub proof fn lemma_term_nonneg_step(s1: int, s2: int, n: nat)
    requires
        0 <= s1,
        s1 <= s2,
        1 <= n,
    ensures
        0 <= term(s1, s2, n),
        term(s1, s2, n) <= term(s1, s2, (n + 1) as nat),
    decreases n,
{
    if n == 2 {
        lemma_recurrence(s1, s2, 3);
    } else if n > 2 {
        lemma_term_nonneg_step(s1, s2, (n - 1) as nat);
        lemma_term_nonneg_step(s1, s2, (n - 2) as nat);
    }
}

/// With a non-negative, non-decreasing seed, the sequence is monotonically
/// non-decreasing over positions.
pub proof fn lemma_term_monotonic(s1: int, s2: int, m: nat, n: nat)
    requires
        0 <= s1,
        s1 <= s2,
        1 <= m,
        m <= n,
    ensures
        term(s1, s2, m) <= term(s1, s2, n),
    decreases n - m,
{
    if m < n {
        lemma_term_nonneg_step(s1, s2, m);
        lemma_term_monotonic(s1, s2, (m + 1) as nat, n);
    }
}

/// With a non-negative, non-decreasing seed whose second value is positive,
/// the terms from position 2 on are positive and grow at least linearly, so
/// the sequence eventually exceeds any target.
pub proof fn lemma_term_growth(s1: int, s2: int, n: nat)
    requires
        0 <= s1,
        s1 <= s2,
        1 <= s2,
        2 <= n,
    ensures
        1 <= term(s1, s2, n),
        n - 2 <= term(s1, s2, n),
    decreases n,
{
    if n == 3 {
        lemma_recurrence(s1, s2, 3);
    } else if n > 3 {
        lemma_term_growth(s1, s2, (n - 1) as nat);
        lemma_term_growth(s1, s2, (n - 2) as nat);
    }
}

/// Monotonic overshoot: with a non-negative, non-decreasing seed whose second
/// value is positive, every position from `target + 3` on holds a term
/// strictly greater than `target`. Together with monotonicity this bounds a
/// forward search for an absent value by the first position whose term
/// exceeds the target.
pub proof fn lemma_overshoot(s1: int, s2: int, target: int, n: nat)
    requires
        0 <= s1,
        s1 <= s2,
        1 <= s2,
        2 <= n,
        target + 3 <= n,
    ensures
        term(s1, s2, n) > target,
{
    lemma_term_growth(s1, s2, n);
}

/// For the canonical Fibonacci seed `(1, 1)` the terms from position 2 on
/// are strictly increasing.
pub proof fn lemma_fib_strictly_increasing(m: nat, n: nat)
    requires
        2 <= m,
        m < n,
    ensures
        term(1, 1, m) < term(1, 1, n),
    decreases n - m,
{
    if m == 2 {
        lemma_recurrence(1, 1, 3);
    } else {
        lemma_term_growth(1, 1, (m - 1) as nat);
    }
    if m + 1 < n {
        lemma_fib_strictly_increasing((m + 1) as nat, n);
    }
}

/// Lookup/term inverse for the canonical Fibonacci seed: the value at
/// position `p` appears at no position before `p`, except that positions 1
/// and 2 both hold the value 1, whose first appearance is position 1.
/// Together with the contract of [`Sequence::find`], which returns the first
/// matching position, this says that looking up the value of position `p`
/// yields `p` for every `p != 2`, and position 1 when `p == 2`.
pub proof fn lemma_lookup_term_inverse(p: nat)
    requires
        1 <= p,
    ensures
        term(1, 1, 2) == term(1, 1, 1),
        p != 2 ==> forall|q: nat| 1 <= q < p ==> term(1, 1, q) != term(1, 1, p),
{
    if p > 2 {
        assert forall|q: nat| 1 <= q < p implies term(1, 1, q) != term(1, 1, p) by {
            if q >= 2 {
                lemma_fib_strictly_increasing(q, p);
            } else {
                lemma_fib_strictly_increasing(2, p);
            }
        }
    }
}

/// The sole state-transition rule: a pair of consecutive terms `(x, y)`
/// advances to the next pair `(y, x + y)`.
fn advance(x: Number, y: Number) -> (r: (Number, Number))
    ensures
        big_value(r.0) == big_value(y),
        big_value(r.1) == big_value(x) + big_value(y),
{
    let next = big_add(&x, &y);
    (y, next)
}

/// An error for when the given input could not be found in the sequence.
#[derive(Debug)]
pub enum FindError {
    /// The input was not found in the sequence.
    NotFound(Number),
}

type FindResult<T> = Result<T, FindError>;

/// A sequence, represented by the two starting values, which are later used
/// to compute further values.
#[derive(Debug, Clone, PartialEq, Eq)]
pub struct Sequence(pub Number, pub Number);

impl View for Sequence {
    type V = (int, int);

    open spec fn view(&self) -> (int, int) {
        (big_value(self.0), big_value(self.1))
    }
}

impl Sequence {
    /// Creates a new sequence with the given starting values.
    pub fn new(sequence: [i128; 2]) -> (r: Self)
        ensures
            r@.0 == sequence[0] as int,
            r@.1 == sequence[1] as int,
    {
        Sequence(big_from_i128(sequence[0]), big_from_i128(sequence[1]))
    }

    /// Returns the canonical Fibonacci sequence, seeded with `(1, 1)`.
    pub fn fibonacci() -> (r: Self)
        ensures
            r@.0 == 1,
            r@.1 == 1,
    {
        Self::new([1, 1])
    }

    /// Calculate the nth term of the sequence, for a 1-based position
    /// `n >= 1`.
    pub fn calculate(self, n: usize) -> (r: Number)
        requires
            1 <= n,
        ensures
            big_value(r) == term(self@.0, self@.1, n as nat),
    {
        let ghost s1: int = self@.0;
        let ghost s2: int = self@.1;
        let Sequence(mut x, mut y) = self;
        if n == 1 {
            return x;
        }
        let mut i: usize = 2;
        while i < n
            invariant
                2 <= i,
                i <= n,
                big_value(x) == term(s1, s2, (i - 1) as nat),
                big_value(y) == term(s1, s2, i as nat),
            decreases n - i,
        {
            let pair = advance(x, y);
            x = pair.0;
            y = pair.1;
            i = i + 1;
        }
        y
    }

    /// Find the given number's position in the sequence: `Ok` with the first
    /// 1-based position whose term equals `number`, or `NotFound` carrying
    /// `number` when the value never appears.
    ///
    /// The overshoot stopping rule rests on the sequence never decreasing, so
    /// the seed must be non-negative and non-decreasing; seeds outside that
    /// range are unsupported. Beyond that, the search must be able to stop:
    /// the target has to match a seed value or be overshot at some position
    /// that fits in `usize` ([`lemma_overshoot`] supplies such a position for
    /// every target that is not astronomically large, whenever the second
    /// seed value is positive).
    pub fn find(self, number: Number) -> (r: FindResult<usize>)
        requires
            0 <= self@.0,
            self@.0 <= self@.1,
            big_value(number) == self@.0 || big_value(number) == self@.1 || exists|k: nat|
                2 <= k && k + 4 <= usize::MAX && term(self@.0, self@.1, k) > big_value(number),
        ensures
            match r {
                Ok(p) => {
                    &&& 1 <= p
                    &&& term(self@.0, self@.1, p as nat) == big_value(number)
                    &&& forall|q: nat|
                        1 <= q < p ==> term(self@.0, self@.1, q) != big_value(number)
                },
                Err(e) => {
                    &&& match e {
                        FindError::NotFound(w) => big_value(w) == big_value(number),
                    }
                    &&& forall|q: nat| 1 <= q ==> term(self@.0, self@.1, q) != big_value(number)
                },
            },
    {
        let ghost s1: int = self@.0;
        let ghost s2: int = self@.1;
        let ghost v: int = big_value(number);
        let Sequence(mut x, mut y) = self;
        if big_eq(&number, &x) {
            return Ok(1);
        }
        if big_eq(&number, &y) {
            return Ok(2);
        }
        let mut n: usize = 2;
        #[verifier::loop_isolation(false)]
        loop
            invariant
                0 <= s1,
                s1 <= s2,
                exists|k: nat| 2 <= k && k + 4 <= usize::MAX && term(s1, s2, k) > v,
                2 <= n,
                big_value(x) == term(s1, s2, (n - 1) as nat),
                big_value(y) == term(s1, s2, n as nat),
                big_value(number) == v,
                forall|q: nat| 1 <= q <= n ==> term(s1, s2, q) != v,
                n > 2 ==> term(s1, s2, n as nat) < v,
            decreases usize::MAX - n,
        {
            proof {
                // the position counter stays below the overshooting
                // position, for the term here is still below the target
                let k = choose|k: nat| 2 <= k && k + 4 <= usize::MAX && term(s1, s2, k) > v;
                if n > 2 && n >= k {
                    lemma_term_monotonic(s1, s2, k, n as nat);
                }
            }
            let pair = advance(x, y);
            x = pair.0;
            y = pair.1;
            n = n + 1;
            if big_gt(&y, &number) {
                proof {
                    assert forall|q: nat| 1 <= q implies term(s1, s2, q) != v by {
                        if q > n {
                            lemma_term_monotonic(s1, s2, n as nat, q);
                        }
                    }
                }
                return Err(FindError::NotFound(number));
            }
            if big_eq(&y, &number) {
                return Ok(n);
            }
        }
    }
}

} // verus!
