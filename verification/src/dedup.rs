//! Removal of immediately repeated points.
//!
//! Only neighbours collapse: a point that comes back later, after a different
//! point, stays.

use crate::point::FullUPoint;
use vstd::prelude::*;

verus! {

/// The sequence without the elements that equal their immediate predecessor.
pub open spec fn dedup_adjacent<T>(s: Seq<T>) -> Seq<T>
    decreases s.len(),
{
    if s.len() <= 1 {
        s
    } else if s[s.len() - 1] == s[s.len() - 2] {
        dedup_adjacent(s.drop_last())
    } else {
        dedup_adjacent(s.drop_last()).push(s.last())
    }
}

/// Whether no element equals its immediate predecessor.
pub open spec fn no_adjacent_repeats<T>(s: Seq<T>) -> bool {
    forall|k: int| 0 < k < s.len() ==> #[trigger] s[k] != s[k - 1]
}

/// What is left of a non-empty sequence is not empty, is no longer than the
/// sequence, and starts and ends as the sequence does.
pub proof fn lemma_dedup_keeps_ends<T>(s: Seq<T>)
    requires
        s.len() > 0,
    ensures
        0 < dedup_adjacent(s).len() <= s.len(),
        dedup_adjacent(s).first() == s.first(),
        dedup_adjacent(s).last() == s.last(),
    decreases s.len(),
{
    if s.len() > 1 {
        lemma_dedup_keeps_ends(s.drop_last());
    }
}

/// In what is left, no element equals its immediate predecessor.
pub proof fn lemma_dedup_has_no_repeats<T>(s: Seq<T>)
    ensures
        no_adjacent_repeats(dedup_adjacent(s)),
    decreases s.len(),
{
    if s.len() > 1 {
        lemma_dedup_has_no_repeats(s.drop_last());
        lemma_dedup_keeps_ends(s.drop_last());
    }
}

/// A sequence in which no element equals its immediate predecessor is left as
/// it is.
pub proof fn lemma_dedup_of_distinct_neighbours<T>(s: Seq<T>)
    requires
        no_adjacent_repeats(s),
    ensures
        dedup_adjacent(s) == s,
    decreases s.len(),
{
    if s.len() > 1 {
        let before = s.drop_last();
        assert forall|k: int| 0 < k < before.len() implies #[trigger] before[k] != before[k
            - 1] by {
            assert(s[k] != s[k - 1]);
        }
        lemma_dedup_of_distinct_neighbours(before);
        assert(s[s.len() - 1] != s[s.len() - 2]);
        assert(before.push(s.last()) =~= s);
    }
}

/// Removing repetitions is idempotent: a second pass changes nothing.
pub proof fn lemma_dedup_idempotent<T>(s: Seq<T>)
    ensures
        dedup_adjacent(dedup_adjacent(s)) == dedup_adjacent(s),
{
    lemma_dedup_has_no_repeats(s);
    lemma_dedup_of_distinct_neighbours(dedup_adjacent(s));
}

/// Removes, in one pass from left to right, every point that equals its
/// immediate predecessor in position, cell and tag.
pub fn dedup(points: &mut Vec<FullUPoint>)
    ensures
        final(points)@ == dedup_adjacent(old(points)@),
{
    let n = points.len();
    if n <= 1 {
        return ;
    }
    let ghost input = points@;
    let mut kept: usize = 1;
    let mut i: usize = 1;
    assert(input.take(1) =~= points@.take(1));
    while i < n
        invariant
            1 <= kept <= i <= n,
            n == input.len(),
            points@.len() == n,
            points@.take(kept as int) == dedup_adjacent(input.take(i as int)),
            forall|k: int| i <= k < n ==> points@[k] == input[k],
            points@[kept - 1] == input[i - 1],
        decreases n - i,
    {
        let current = points[i];
        let ghost before = points@;
        assert(input.take(i + 1).drop_last() =~= input.take(i as int));
        proof {
            lemma_dedup_keeps_ends(input.take(i as int));
        }
        if current != points[kept - 1] {
            points.set(kept, current);
            assert(points@.take(kept + 1) =~= before.take(kept as int).push(current));
            kept = kept + 1;
        }
        assert(points@.take(kept as int) =~= dedup_adjacent(input.take(i + 1)));
        i = i + 1;
    }
    assert(input.take(n as int) =~= input);
    points.truncate(kept);
}

} // verus!
