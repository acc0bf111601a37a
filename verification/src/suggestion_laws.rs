//! Which keys are suggested for one that does not exist.

use vstd::prelude::*;

use crate::suggestions::{
    ahead, distance, distance_separates, lemma_ranking_holds, rank_of, ranking, ranking_is_ordered,
    ranks_of, suggested,
};
use crate::text::{begins, lowercase};

verus! {

// ---- edits ----

/// Whether a text is another one with one character inserted, deleted or replaced.
pub open spec fn edited(a: Seq<char>, b: Seq<char>) -> bool {
    ||| exists|i: int, c: char| 0 <= i <= a.len() && b == #[trigger] a.insert(i, c)
    ||| exists|i: int| 0 <= i < a.len() && b == #[trigger] a.remove(i)
    ||| exists|i: int, c: char| 0 <= i < a.len() && b == #[trigger] a.update(i, c)
}

/// Whether two numbers differ by at most one.
pub open spec fn close(m: nat, n: nat) -> bool {
    m <= n + 1 && n <= m + 1
}

proof fn lemma_longer(a: Seq<char>, b: Seq<char>)
    requires
        b.len() > 0,
    ensures
        distance(a, b) <= distance(a, b.drop_last()) + 1,
{
}

proof fn lemma_deleted(a: Seq<char>, i: int, b: Seq<char>)
    requires
        0 <= i < a.len(),
    ensures
        close(distance(a.remove(i), b), distance(a, b)),
    decreases a.len() + b.len(),
{
    let made = a.remove(i);
    let u = a.drop_last();
    if b.len() > 0 {
        let rest = b.drop_last();
        lemma_deleted(a, i, rest);
        lemma_longer(made, b);
        if i == a.len() - 1 {
            assert(made =~= u);
        } else {
            assert(made.drop_last() =~= u.remove(i));
            assert(made.last() == a.last());
            lemma_deleted(u, i, b);
            lemma_deleted(u, i, rest);
        }
    } else {
        assert(distance(a, b) == a.len());
        assert(distance(made, b) == made.len());
    }
}

proof fn lemma_replaced(a: Seq<char>, i: int, c: char, b: Seq<char>)
    requires
        0 <= i < a.len(),
    ensures
        close(distance(a.update(i, c), b), distance(a, b)),
    decreases a.len() + b.len(),
{
    let made = a.update(i, c);
    let u = a.drop_last();
    if b.len() > 0 {
        let rest = b.drop_last();
        lemma_replaced(a, i, c, rest);
        if i == a.len() - 1 {
            assert(made.drop_last() =~= u);
        } else {
            assert(made.drop_last() =~= u.update(i, c));
            assert(made.last() == a.last());
            lemma_replaced(u, i, c, b);
            lemma_replaced(u, i, c, rest);
        }
    } else {
        assert(distance(a, b) == a.len());
        assert(distance(made, b) == made.len());
    }
}

proof fn lemma_edited(a: Seq<char>, made: Seq<char>, b: Seq<char>)
    requires
        edited(a, made),
    ensures
        close(distance(made, b), distance(a, b)),
{
    if exists|i: int, c: char| 0 <= i <= a.len() && made == #[trigger] a.insert(i, c) {
        let (i, c) = choose|i: int, c: char| 0 <= i <= a.len() && made == #[trigger] a.insert(i, c);
        assert(made.remove(i) =~= a);
        lemma_deleted(made, i, b);
    } else if exists|i: int| 0 <= i < a.len() && made == #[trigger] a.remove(i) {
        let i = choose|i: int| 0 <= i < a.len() && made == #[trigger] a.remove(i);
        lemma_deleted(a, i, b);
    } else {
        let (i, c) = choose|i: int, c: char| 0 <= i < a.len() && made == #[trigger] a.update(i, c);
        lemma_replaced(a, i, c, b);
    }
}

/// An edit of the front of a text is an edit of the text.
proof fn lemma_front(u: Seq<char>, v: Seq<char>, z: char)
    requires
        edited(u, v),
    ensures
        edited(u.push(z), v.push(z)),
{
    let a = u.push(z);
    if exists|i: int, c: char| 0 <= i <= u.len() && v == #[trigger] u.insert(i, c) {
        let (i, c) = choose|i: int, c: char| 0 <= i <= u.len() && v == #[trigger] u.insert(i, c);
        assert(v.push(z) =~= a.insert(i, c));
    } else if exists|i: int| 0 <= i < u.len() && v == #[trigger] u.remove(i) {
        let i = choose|i: int| 0 <= i < u.len() && v == #[trigger] u.remove(i);
        assert(v.push(z) =~= a.remove(i));
    } else {
        let (i, c) = choose|i: int, c: char| 0 <= i < u.len() && v == #[trigger] u.update(i, c);
        assert(v.push(z) =~= a.update(i, c));
    }
}

proof fn lemma_nearer(a: Seq<char>, b: Seq<char>) -> (made: Seq<char>)
    requires
        distance(a, b) > 0,
    ensures
        edited(a, made),
        distance(made, b) <= distance(a, b) - 1,
    decreases a.len() + b.len(),
{
    if b.len() == 0 {
        let u = a.drop_last();
        assert(u =~= a.remove(a.len() - 1));
        u
    } else {
        let rest = b.drop_last();
        let z = b.last();
        let longer = a.push(z);
        assert(longer =~= a.insert(a.len() as int, z));
        assert(longer.drop_last() =~= a);
        if a.len() == 0 {
            assert(distance(longer, b) <= distance(a, rest));
            longer
        } else {
            let u = a.drop_last();
            if distance(a, b) == distance(a, rest) + 1 {
                assert(distance(longer, b) <= distance(a, rest));
                longer
            } else if distance(a, b) == distance(u, b) + 1 {
                assert(u =~= a.remove(a.len() - 1));
                u
            } else if a.last() != z {
                let made = u.push(z);
                assert(made =~= a.update(a.len() - 1, z));
                assert(made.drop_last() =~= u);
                assert(distance(made, b) <= distance(u, rest));
                made
            } else {
                let v = lemma_nearer(u, rest);
                lemma_front(u, v, z);
                let made = v.push(z);
                assert(u.push(z) =~= a);
                assert(made.drop_last() =~= v);
                assert(distance(made, b) <= distance(v, rest));
                made
            }
        }
    }
}

/// The distance of two texts is the least number of edits that make one of the other: it is zero
/// exactly where they are equal, one edit changes it by at most one, and where it is not zero there
/// is an edit that brings it down by one.
pub proof fn the_distance_counts_edits(a: Seq<char>, b: Seq<char>, made: Seq<char>)
    ensures
        distance(a, b) == 0 <==> a == b,
        edited(a, made) ==> distance(made, b) <= distance(a, b) + 1 && distance(a, b) <= distance(
            made,
            b,
        ) + 1,
        distance(a, b) > 0 ==> exists|nearer: Seq<char>| #[trigger]
            edited(a, nearer) && distance(nearer, b) + 1 == distance(a, b),
{
    distance_separates(a, b);
    if edited(a, made) {
        lemma_edited(a, made, b);
    }
    if distance(a, b) > 0 {
        let nearer = lemma_nearer(a, b);
        lemma_edited(a, nearer, b);
    }
}

// ---- suggestions ----

/// Whether one text begins with another.
pub open spec fn starts_with(s: Seq<char>, front: Seq<char>) -> bool {
    front.len() <= s.len() && forall|i: int| 0 <= i < front.len() ==> s[i] == #[trigger] front[i]
}

/// Whether a text is the beginning of another, or the other way round.
pub open spec fn in_line(a: Seq<char>, b: Seq<char>) -> bool {
    starts_with(a, b) || starts_with(b, a)
}

/// Whether the key at `i` is to be suggested before that at `j`: one that is the request but for its
/// case comes first, then one that begins with it or that it begins with, then the one that takes
/// fewer edits, then the one that stands first.
pub open spec fn preferred(requested: Seq<char>, available: Seq<Seq<char>>, i: int, j: int) -> bool {
    let want = lowercase(requested);
    let a = lowercase(available[i]);
    let b = lowercase(available[j]);
    if (a == want) != (b == want) {
        a == want
    } else if a != want && in_line(a, want) != in_line(b, want) {
        in_line(a, want)
    } else if distance(want, a) != distance(want, b) {
        distance(want, a) < distance(want, b)
    } else {
        i < j
    }
}

proof fn lemma_starts_with(s: Seq<char>, front: Seq<char>)
    ensures
        begins(s, front) <==> starts_with(s, front),
{
    if front.len() <= s.len() {
        let head = s.take(front.len() as int);
        if begins(s, front) {
            assert forall|i: int| 0 <= i < front.len() implies s[i] == #[trigger] front[i] by {
                assert(head[i] == front[i]);
            }
        }
        if starts_with(s, front) {
            assert(head =~= front);
        }
    }
}

proof fn lemma_preferred(requested: Seq<char>, available: Seq<Seq<char>>, i: int, j: int)
    requires
        0 <= i < available.len(),
        0 <= j < available.len(),
        ahead(ranks_of(lowercase(requested), available), i, j),
    ensures
        preferred(requested, available, i, j),
{
    let want = lowercase(requested);
    let ranks = ranks_of(want, available);
    assert(ranks[i] == rank_of(want, available[i]));
    assert(ranks[j] == rank_of(want, available[j]));
    lemma_starts_with(lowercase(available[i]), want);
    lemma_starts_with(want, lowercase(available[i]));
    lemma_starts_with(lowercase(available[j]), want);
    lemma_starts_with(want, lowercase(available[j]));
}

/// Whether positions are those of the keys to suggest: as many as asked for or as there are, none
/// twice, each before those behind it and before all that are not among them.
pub open spec fn are_preferred(
    requested: Seq<char>,
    available: Seq<Seq<char>>,
    limit: nat,
    order: Seq<int>,
) -> bool {
    &&& order.len() == if limit < available.len() {
        limit
    } else {
        available.len()
    }
    &&& forall|k: int| 0 <= k < order.len() ==> 0 <= #[trigger] order[k] < available.len()
    &&& forall|k: int, m: int|
        0 <= k < m < order.len() ==> #[trigger] order[k] != #[trigger] order[m] && preferred(
            requested,
            available,
            order[k],
            order[m],
        )
    &&& forall|k: int, j: int|
        0 <= k < order.len() && 0 <= j < available.len() && !#[trigger] order.contains(j)
            ==> preferred(requested, available, #[trigger] order[k], j)
}

/// What is suggested for a key are the keys that are nearest to it.
pub proof fn the_nearest_keys_are_suggested(
    requested: Seq<char>,
    available: Seq<Seq<char>>,
    limit: nat,
)
    ensures
        exists|order: Seq<int>|
            {
                &&& #[trigger] are_preferred(requested, available, limit, order)
                &&& suggested(requested, available, limit as int) == order.map_values(
                    |i: int| available[i],
                )
            },
{
    let ranks = ranks_of(lowercase(requested), available);
    let n = available.len();
    ranking_is_ordered(ranks, n);
    let full = ranking(ranks, n);
    let order = if limit < full.len() {
        full.take(limit as int)
    } else {
        full
    };
    assert forall|k: int, m: int| 0 <= k < m < order.len() implies #[trigger] order[k]
        != #[trigger] order[m] && preferred(requested, available, order[k], order[m]) by {
        assert(order[k] == full[k] && order[m] == full[m]);
        assert(ahead(ranks, full[k], full[m]));
        lemma_preferred(requested, available, order[k], order[m]);
        if order[k] == order[m] {
            assert(!ahead(ranks, full[k], full[m]));
        }
    }
    assert forall|k: int, j: int|
        0 <= k < order.len() && 0 <= j < available.len() && !#[trigger] order.contains(
            j,
        ) implies preferred(requested, available, #[trigger] order[k], j) by {
        lemma_ranking_holds(ranks, n, j);
        let m = choose|m: int| 0 <= m < n && #[trigger] full[m] == j;
        if m < order.len() {
            assert(order[m] == j);
        }
        assert(order[k] == full[k]);
        assert(ahead(ranks, full[k], full[m]));
        lemma_preferred(requested, available, order[k], j);
    }
    assert forall|k: int| 0 <= k < order.len() implies 0 <= #[trigger] order[k]
        < available.len() by {
        assert(order[k] == full[k]);
    }
    assert(are_preferred(requested, available, limit, order));
}

} // verus!
