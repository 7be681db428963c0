//! Edit distance between texts.
use vstd::prelude::*;
use crate::text::{chars_of, str_eq};

verus! {

/// The smallest of three numbers.
pub open spec fn min3(x: nat, y: nat, z: nat) -> nat {
    if x <= y && x <= z {
        x
    } else if y <= z {
        y
    } else {
        z
    }
}

/// The Levenshtein distance between `a` and `b`: the fewest insertions,
/// deletions and substitutions of characters that turn `a` into `b`.
pub open spec fn edit_distance(a: Seq<char>, b: Seq<char>) -> nat
    decreases a.len() + b.len(),
{
    if a.len() == 0 {
        b.len()
    } else if b.len() == 0 {
        a.len()
    } else {
        min3(
            edit_distance(a.drop_last(), b) + 1,
            edit_distance(a, b.drop_last()) + 1,
            edit_distance(a.drop_last(), b.drop_last()) + (if a.last() == b.last() {
                0nat
            } else {
                1nat
            }),
        )
    }
}

/// The distance is at most the longer length.
pub proof fn lemma_edit_distance_bound(a: Seq<char>, b: Seq<char>)
    ensures
        edit_distance(a, b) <= a.len() || edit_distance(a, b) <= b.len(),
        edit_distance(a, b) <= if a.len() >= b.len() {
            a.len()
        } else {
            b.len()
        },
    decreases a.len() + b.len(),
{
    if a.len() > 0 && b.len() > 0 {
        lemma_edit_distance_bound(a.drop_last(), b.drop_last());
    }
}

/// A text is at distance 0 from itself.
pub proof fn lemma_edit_distance_self(a: Seq<char>)
    ensures
        edit_distance(a, a) == 0,
    decreases a.len(),
{
    if a.len() > 0 {
        lemma_edit_distance_self(a.drop_last());
    }
}

/// The Levenshtein distance between `a` and `b`, in characters (see
/// [`edit_distance`]).
pub fn levenshtein(a: &str, b: &str) -> (d: usize)
    requires
        a@.len() < usize::MAX,
        b@.len() < usize::MAX,
    ensures
        d == edit_distance(a@, b@),
{
    if str_eq(a, b) {
        proof {
            lemma_edit_distance_self(a@);
        }
        return 0;
    }
    let x = chars_of(a);
    let y = chars_of(b);
    let n = x.len();
    let m = y.len();
    if n == 0 {
        return m;
    }
    if m == 0 {
        return n;
    }
    let mut prev: Vec<usize> = Vec::new();
    let mut j: usize = 0;
    while j <= m
        invariant
            j <= m + 1,
            m == y@.len(),
            m < usize::MAX,
            prev@.len() == j,
            forall|k: int| 0 <= k < j ==> #[trigger] prev@[k] == k,
        decreases m + 1 - j,
    {
        prev.push(j);
        j = j + 1;
    }
    let mut i: usize = 0;
    while i < n
        invariant
            i <= n,
            n == x@.len(),
            m == y@.len(),
            x@ == a@,
            y@ == b@,
            n < usize::MAX,
            m < usize::MAX,
            prev@.len() == m + 1,
            forall|k: int|
                0 <= k <= m ==> #[trigger] prev@[k] == edit_distance(
                    x@.take(i as int),
                    y@.take(k),
                ),
        decreases n - i,
    {
        let ghost ai = x@.take(i as int);
        let ghost ai1 = x@.take(i + 1);
        assert(ai1.drop_last() =~= ai);
        let mut curr: Vec<usize> = Vec::new();
        proof {
            assert(y@.take(0) =~= Seq::<char>::empty());
        }
        curr.push(i + 1);
        let mut j: usize = 0;
        while j < m
            invariant
                i < n,
                j <= m,
                n == x@.len(),
                m == y@.len(),
                n < usize::MAX,
                m < usize::MAX,
                ai == x@.take(i as int),
                ai1 == x@.take(i + 1),
                ai1.drop_last() == ai,
                prev@.len() == m + 1,
                forall|k: int| 0 <= k <= m ==> #[trigger] prev@[k] == edit_distance(ai, y@.take(k)),
                curr@.len() == j + 1,
                forall|k: int| 0 <= k <= j ==> #[trigger] curr@[k] == edit_distance(ai1, y@.take(k)),
            decreases m - j,
        {
            let ghost bj = y@.take(j as int);
            let ghost bj1 = y@.take(j + 1);
            proof {
                assert(bj1.drop_last() =~= bj);
                lemma_edit_distance_bound(ai, bj1);
                lemma_edit_distance_bound(ai1, bj);
                lemma_edit_distance_bound(ai, bj);
            }
            let cost: usize = if x[i] == y[j] {
                0
            } else {
                1
            };
            let del = prev[j + 1] + 1;
            let ins = curr[j] + 1;
            let sub = prev[j] + cost;
            let mut best = del;
            if ins < best {
                best = ins;
            }
            if sub < best {
                best = sub;
            }
            proof {
                assert(ai1.last() == x@[i as int]);
                assert(bj1.last() == y@[j as int]);
                assert(best == edit_distance(ai1, bj1));
            }
            curr.push(best);
            j = j + 1;
        }
        prev = curr;
        i = i + 1;
    }
    proof {
        assert(x@.take(n as int) =~= a@);
        assert(y@.take(m as int) =~= b@);
    }
    prev[m]
}

} // verus!
