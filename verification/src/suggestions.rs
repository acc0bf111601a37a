//! Suggestions for rule keys that were not found.

use vstd::prelude::*;

use crate::text::{begins, chars_of, lowercase, same, starts_with, strings};

verus! {

pub open spec fn min(a: nat, b: nat) -> nat {
    if a <= b {
        a
    } else {
        b
    }
}

/// The Levenshtein distance: the least number of insertions, deletions and substitutions of one
/// character that turn `a` into `b`.
pub open spec fn distance(a: Seq<char>, b: Seq<char>) -> nat
    decreases a.len(), b.len(),
{
    if a.len() == 0 {
        b.len()
    } else if b.len() == 0 {
        a.len()
    } else {
        let kept: nat = if a.last() == b.last() {
            0
        } else {
            1
        };
        min(
            min(distance(a, b.drop_last()) + 1, distance(a.drop_last(), b) + 1),
            distance(a.drop_last(), b.drop_last()) + kept,
        )
    }
}

proof fn lemma_distance_bound(a: Seq<char>, b: Seq<char>)
    ensures
        distance(a, b) <= a.len() || distance(a, b) <= b.len(),
    decreases a.len(), b.len(),
{
    if a.len() > 0 && b.len() > 0 {
        lemma_distance_bound(a.drop_last(), b.drop_last());
    }
}

/// The distance is the same in both directions.
pub proof fn distance_is_symmetric(a: Seq<char>, b: Seq<char>)
    ensures
        distance(a, b) == distance(b, a),
    decreases a.len() + b.len(),
{
    if a.len() > 0 && b.len() > 0 {
        distance_is_symmetric(a, b.drop_last());
        distance_is_symmetric(a.drop_last(), b);
        distance_is_symmetric(a.drop_last(), b.drop_last());
    }
}

/// Equal texts, and only those, have no distance.
pub proof fn distance_separates(a: Seq<char>, b: Seq<char>)
    ensures
        distance(a, b) == 0 <==> a == b,
    decreases a.len(),
{
    if a.len() > 0 && b.len() > 0 {
        distance_separates(a.drop_last(), b.drop_last());
        if distance(a, b) == 0 {
            assert(a =~= a.drop_last().push(a.last()));
            assert(b =~= b.drop_last().push(b.last()));
        }
    } else if distance(a, b) == 0 {
        assert(a =~= b);
    }
}

/// The Levenshtein distance of two texts.
pub fn levenshtein(left: &str, right: &str) -> (d: usize)
    ensures
        d == distance(left@, right@),
{
    let left = chars_of(left);
    let right = chars_of(right);
    let height: usize = left.len();
    let width: usize = right.len();
    let mut previous: Vec<usize> = Vec::new();
    assert(left@.take(0) =~= Seq::<char>::empty());
    previous.push(0);
    let mut k: usize = 0;
    while k < width
        invariant
            k <= right@.len(),
            width == right@.len(),
            previous@.len() == k + 1,
            left@.take(0).len() == 0,
            forall|j: int|
                0 <= j <= k ==> #[trigger] previous@[j] == distance(left@.take(0), right@.take(j)),
        decreases right@.len() - k,
    {
        k += 1;
        previous.push(k);
    }
    let mut i: usize = 0;
    while i < height
        invariant
            i <= left@.len(),
            height == left@.len(),
            width == right@.len(),
            previous@.len() == right@.len() + 1,
            forall|j: int|
                0 <= j <= right@.len() ==> #[trigger] previous@[j] == distance(
                    left@.take(i as int),
                    right@.take(j),
                ),
        decreases left@.len() - i,
    {
        let ghost a = left@.take(i + 1);
        let mut current: Vec<usize> = Vec::new();
        current.push(i + 1);
        assert(right@.take(0) =~= Seq::<char>::empty());
        let mut j: usize = 0;
        while j < width
            invariant
                i < left@.len(),
                j <= right@.len(),
                height == left@.len(),
                width == right@.len(),
                a == left@.take(i + 1),
                current@.len() == j + 1,
                previous@.len() == right@.len() + 1,
                forall|n: int|
                    0 <= n <= right@.len() ==> #[trigger] previous@[n] == distance(
                        left@.take(i as int),
                        right@.take(n),
                    ),
                forall|n: int|
                    0 <= n <= j ==> #[trigger] current@[n] == distance(a, right@.take(n)),
            decreases right@.len() - j,
        {
            let cost: usize = if left[i] == right[j] {
                0
            } else {
                1
            };
            let mut value: usize = current[j].saturating_add(1);
            let above: usize = previous[j + 1].saturating_add(1);
            if above < value {
                value = above;
            }
            let across: usize = previous[j].saturating_add(cost);
            if across < value {
                value = across;
            }
            proof {
                let b = right@.take(j + 1);
                assert(i + 1 <= height && j + 1 <= width);
                assert(a.drop_last() =~= left@.take(i as int));
                assert(b.drop_last() =~= right@.take(j as int));
                assert(a.last() == left@[i as int]);
                assert(b.last() == right@[j as int]);
                lemma_distance_bound(a, b);
                assert(current@[j as int] == distance(a, b.drop_last()));
                assert(previous@[j + 1] == distance(a.drop_last(), b));
                assert(previous@[j as int] == distance(a.drop_last(), b.drop_last()));
                assert(a.len() == i + 1 && b.len() == j + 1);
                assert(distance(a, b) == min(
                    min(distance(a, b.drop_last()) + 1, distance(a.drop_last(), b) + 1),
                    distance(a.drop_last(), b.drop_last()) + cost as nat,
                ));
                assert(value == distance(a, b));
            }
            current.push(value);
            j += 1;
        }
        previous = current;
        i += 1;
    }
    assert(left@.take(i as int) =~= left@);
    assert(right@.take(right@.len() as int) =~= right@);
    previous[width]
}

/// How close a folded candidate is to a folded request: equal, one a prefix of the other, or
/// neither.
pub open spec fn category(folded: Seq<char>, candidate: Seq<char>) -> int {
    if candidate == folded {
        0
    } else if begins(candidate, folded) || begins(folded, candidate) {
        1
    } else {
        2
    }
}

/// The category of a candidate and its edit distance, case folded.
pub open spec fn rank_of(folded: Seq<char>, candidate: Seq<char>) -> (int, nat) {
    (category(folded, lowercase(candidate)), distance(folded, lowercase(candidate)))
}

pub open spec fn below(a: (int, nat), b: (int, nat)) -> bool {
    a.0 < b.0 || (a.0 == b.0 && a.1 < b.1)
}

/// `order` with the index `at` behind every index whose rank is not above its own.
pub open spec fn slot(ranks: Seq<(int, nat)>, order: Seq<int>, at: int) -> Seq<int>
    decreases order.len(),
{
    if order.len() == 0 || !below(ranks[at], ranks[order.last()]) {
        order.push(at)
    } else {
        slot(ranks, order.drop_last(), at).push(order.last())
    }
}

/// The indices below `n` in ascending order of rank, the lower index first among equal ranks.
pub open spec fn ranking(ranks: Seq<(int, nat)>, n: nat) -> Seq<int>
    decreases n,
{
    if n == 0 {
        Seq::empty()
    } else {
        slot(ranks, ranking(ranks, (n - 1) as nat), n - 1)
    }
}

pub open spec fn ranks_of(folded: Seq<char>, available: Seq<Seq<char>>) -> Seq<(int, nat)> {
    available.map_values(|c: Seq<char>| rank_of(folded, c))
}

/// The first `limit` candidates in ascending order of rank.
pub open spec fn suggested(
    requested: Seq<char>,
    available: Seq<Seq<char>>,
    limit: int,
) -> Seq<Seq<char>> {
    let order = ranking(ranks_of(lowercase(requested), available), available.len());
    let shown = if limit < order.len() {
        order.take(limit)
    } else {
        order
    };
    shown.map_values(|i: int| available[i])
}

/// The category of `candidate` and its edit distance to `folded`, case folded.
pub fn rank(folded: &str, candidate: &str) -> (r: (u8, usize))
    ensures
        (r.0 as int, r.1 as nat) == rank_of(folded@, candidate@),
{
    let candidate_folded = candidate.to_lowercase();
    let other = candidate_folded.as_str();
    let category: u8 = if same(other, folded) {
        0
    } else if starts_with(other, folded) || starts_with(folded, other) {
        1
    } else {
        2
    };
    (category, levenshtein(folded, other))
}

proof fn lemma_slot(ranks: Seq<(int, nat)>, order: Seq<int>, at: int, p: int)
    requires
        0 <= p <= order.len(),
        forall|k: int| p <= k < order.len() ==> below(ranks[at], ranks[#[trigger] order[k]]),
        p > 0 ==> !below(ranks[at], ranks[order[p - 1]]),
    ensures
        slot(ranks, order, at) == order.insert(p, at),
    decreases order.len(),
{
    if p == order.len() {
        assert(order.insert(p, at) =~= order.push(at));
    } else {
        assert(order.last() == order[order.len() - 1]);
        lemma_slot(ranks, order.drop_last(), at, p);
        assert(order.insert(p, at) =~= order.drop_last().insert(p, at).push(order.last()));
    }
}

/// Indices as integers.
spec fn ints(order: Seq<usize>) -> Seq<int> {
    order.map_values(|i: usize| i as int)
}

/// Ranks as integers.
spec fn rank_views(ranks: Seq<(u8, usize)>) -> Seq<(int, nat)> {
    ranks.map_values(|r: (u8, usize)| (r.0 as int, r.1 as nat))
}

/// Candidates for `requested`, best first, at most `limit` of them.
pub fn suggest_keys(requested: &str, available: &Vec<String>, limit: usize) -> (r: Vec<String>)
    ensures
        strings(r@) == suggested(requested@, strings(available@), limit as int),
{
    let folded = requested.to_lowercase();
    let mut ranks: Vec<(u8, usize)> = Vec::new();
    let mut order: Vec<usize> = Vec::new();
    let ghost all = ranks_of(folded@, strings(available@));
    let mut i: usize = 0;
    while i < available.len()
        invariant
            i <= available@.len(),
            ranks@.len() == i,
            all == ranks_of(folded@, strings(available@)),
            forall|k: int| 0 <= k < i ==> rank_views(ranks@)[k] == #[trigger] all[k],
        decreases available@.len() - i,
    {
        let r = rank(folded.as_str(), available[i].as_str());
        assert(all[i as int] == rank_of(folded@, available@[i as int]@));
        let ghost done = ranks@;
        ranks.push(r);
        assert forall|k: int| 0 <= k < i + 1 implies rank_views(ranks@)[k] == #[trigger] all[k] by {
            if k < i {
                assert(rank_views(ranks@)[k] == rank_views(done)[k]);
            }
        }
        i += 1;
    }
    assert(rank_views(ranks@) =~= all);
    i = 0;
    assert(ints(order@) =~= ranking(all, 0));
    while i < ranks.len()
        invariant
            i <= ranks@.len(),
            ranks@.len() == available@.len(),
            rank_views(ranks@) == all,
            ints(order@) == ranking(all, i as nat),
            order@.len() == i,
            forall|k: int| 0 <= k < order@.len() ==> (#[trigger] order@[k]) < i,
        decreases ranks@.len() - i,
    {
        let mut p: usize = order.len();
        while p > 0 && (ranks[i].0 < ranks[order[p - 1]].0 || (ranks[i].0 == ranks[order[p - 1]].0
            && ranks[i].1 < ranks[order[p - 1]].1))
            invariant
                i < ranks@.len(),
                p <= order@.len(),
                order@.len() == i,
                rank_views(ranks@) == all,
                forall|k: int| 0 <= k < order@.len() ==> (#[trigger] order@[k]) < i,
                forall|k: int|
                    p <= k < order@.len() ==> below(
                        all[i as int],
                        all[#[trigger] ints(order@)[k]],
                    ),
            decreases p,
        {
            p -= 1;
            proof {
                let j = order@[p as int];
                assert(rank_views(ranks@)[i as int] == all[i as int]);
                assert(rank_views(ranks@)[j as int] == all[j as int]);
            }
        }
        proof {
            if p > 0 {
                let j = order@[p - 1];
                assert(rank_views(ranks@)[i as int] == all[i as int]);
                assert(rank_views(ranks@)[j as int] == all[j as int]);
            }
            lemma_slot(all, ints(order@), i as int, p as int);
        }
        let ghost before = order@;
        order.insert(p, i);
        proof {
            assert(ints(order@) =~= ints(before).insert(p as int, i as int));
        }
        i += 1;
    }
    let shown: usize = if limit < order.len() {
        limit
    } else {
        order.len()
    };
    let mut out: Vec<String> = Vec::new();
    i = 0;
    while i < shown
        invariant
            i <= shown <= order@.len(),
            out@.len() == i,
            forall|k: int| 0 <= k < order@.len() ==> (#[trigger] order@[k]) < available@.len(),
            forall|k: int| 0 <= k < i ==> (#[trigger] out@[k])@ == available@[order@[k] as int]@,
        decreases shown - i,
    {
        out.push(available[order[i]].clone());
        i += 1;
    }
    assert(strings(out@) =~= suggested(requested@, strings(available@), limit as int));
    out
}

/// Of two indices, the one with the lower rank, or the lower one of equal ranks.
pub open spec fn ahead(ranks: Seq<(int, nat)>, i: int, j: int) -> bool {
    below(ranks[i], ranks[j]) || (ranks[i] == ranks[j] && i < j)
}

proof fn lemma_slot_order(ranks: Seq<(int, nat)>, order: Seq<int>, at: int)
    requires
        forall|k: int| 0 <= k < order.len() ==> 0 <= #[trigger] order[k] < at,
        forall|i: int, j: int|
            0 <= i < j < order.len() ==> ahead(ranks, #[trigger] order[i], #[trigger] order[j]),
    ensures
        slot(ranks, order, at).len() == order.len() + 1,
        forall|k: int|
            0 <= k < slot(ranks, order, at).len() ==> {
                let x = #[trigger] slot(ranks, order, at)[k];
                x == at || order.contains(x)
            },
        forall|i: int, j: int|
            0 <= i < j < slot(ranks, order, at).len() ==> ahead(
                ranks,
                #[trigger] slot(ranks, order, at)[i],
                #[trigger] slot(ranks, order, at)[j],
            ),
    decreases order.len(),
{
    let placed = slot(ranks, order, at);
    if order.len() == 0 || !below(ranks[at], ranks[order.last()]) {
        assert forall|k: int| 0 <= k < placed.len() implies {
            let x = #[trigger] placed[k];
            x == at || order.contains(x)
        } by {
            if k < order.len() {
                assert(order[k] == placed[k]);
            }
        }
        assert forall|i: int, j: int| 0 <= i < j < placed.len() implies ahead(
            ranks,
            #[trigger] placed[i],
            #[trigger] placed[j],
        ) by {
            if j == order.len() {
                assert(ahead(ranks, order.last(), at));
                if i < order.len() - 1 {
                    assert(ahead(ranks, order[i], order[order.len() - 1]));
                }
            }
        }
    } else {
        let rest = order.drop_last();
        assert forall|i: int, j: int| 0 <= i < j < rest.len() implies ahead(
            ranks,
            #[trigger] rest[i],
            #[trigger] rest[j],
        ) by {
            assert(ahead(ranks, order[i], order[j]));
        }
        lemma_slot_order(ranks, rest, at);
        let inner = slot(ranks, rest, at);
        assert(order[order.len() - 1] == order.last());
        assert forall|k: int| 0 <= k < placed.len() implies {
            let x = #[trigger] placed[k];
            x == at || order.contains(x)
        } by {
            if k < inner.len() {
                let x = inner[k];
                if x != at {
                    let m = rest.index_of(x);
                    assert(order[m] == x);
                }
            } else {
                assert(order[order.len() - 1] == placed[k]);
            }
        }
        assert forall|i: int, j: int| 0 <= i < j < placed.len() implies ahead(
            ranks,
            #[trigger] placed[i],
            #[trigger] placed[j],
        ) by {
            if j < inner.len() {
                assert(ahead(ranks, inner[i], inner[j]));
            } else {
                let x = inner[i];
                if x != at {
                    let m = rest.index_of(x);
                    assert(ahead(ranks, order[m], order[order.len() - 1]));
                }
            }
        }
    }
}

/// A ranking lists every index once, in ascending order of category, then of edit distance, then
/// of position.
pub proof fn ranking_is_ordered(ranks: Seq<(int, nat)>, n: nat)
    requires
        n <= ranks.len(),
    ensures
        ranking(ranks, n).len() == n,
        forall|k: int| 0 <= k < n ==> 0 <= #[trigger] ranking(ranks, n)[k] < n,
        forall|i: int, j: int|
            0 <= i < j < n ==> ahead(
                ranks,
                #[trigger] ranking(ranks, n)[i],
                #[trigger] ranking(ranks, n)[j],
            ),
    decreases n,
{
    if n > 0 {
        let m = (n - 1) as nat;
        ranking_is_ordered(ranks, m);
        lemma_slot_order(ranks, ranking(ranks, m), m as int);
        let order = ranking(ranks, n);
        assert forall|k: int| 0 <= k < n implies 0 <= #[trigger] order[k] < n by {
            if order[k] != m {
                let w = ranking(ranks, m).index_of(order[k]);
                assert(0 <= ranking(ranks, m)[w] < m);
            }
        }
    }
}

/// Suggestions are available keys, at most `limit` of them, and never more than there are keys.
pub proof fn suggestions_are_available(
    requested: Seq<char>,
    available: Seq<Seq<char>>,
    limit: nat,
)
    ensures
        suggested(requested, available, limit as int).len() == min(limit, available.len()),
        forall|k: int|
            0 <= k < suggested(requested, available, limit as int).len() ==> available.contains(
                #[trigger] suggested(requested, available, limit as int)[k],
            ),
{
    let ranks = ranks_of(lowercase(requested), available);
    ranking_is_ordered(ranks, available.len());
    let order = ranking(ranks, available.len());
    let picked = suggested(requested, available, limit as int);
    assert forall|k: int| 0 <= k < picked.len() implies available.contains(
        #[trigger] picked[k],
    ) by {
        assert(picked[k] == available[order[k]]);
    }
}

/// A key that equals the request but for its case is suggested first.
pub proof fn folded_match_is_first(
    requested: Seq<char>,
    available: Seq<Seq<char>>,
    limit: nat,
    at: int,
)
    requires
        limit > 0,
        0 <= at < available.len(),
        lowercase(available[at]) == lowercase(requested),
    ensures
        suggested(requested, available, limit as int).len() > 0,
        lowercase(suggested(requested, available, limit as int)[0]) == lowercase(requested),
{
    let folded = lowercase(requested);
    let ranks = ranks_of(folded, available);
    let n = available.len();
    ranking_is_ordered(ranks, n);
    let order = ranking(ranks, n);
    lemma_ranking_holds(ranks, n, at);
    let k = choose|k: int| 0 <= k < n && #[trigger] order[k] == at;
    if k > 0 {
        assert(ahead(ranks, order[0], order[k]));
        assert(ranks[at].0 == 0);
    }
    assert(ranks[order[0]].0 == 0);
}

/// Every index below `n` occurs in the ranking.
pub proof fn lemma_ranking_holds(ranks: Seq<(int, nat)>, n: nat, at: int)
    requires
        n <= ranks.len(),
        0 <= at < n,
    ensures
        exists|k: int| 0 <= k < n && #[trigger] ranking(ranks, n)[k] == at,
    decreases n,
{
    let m = (n - 1) as nat;
    ranking_is_ordered(ranks, m);
    ranking_is_ordered(ranks, n);
    lemma_slot_holds(ranks, ranking(ranks, m), m as int);
    let order = ranking(ranks, n);
    if at < m {
        lemma_ranking_holds(ranks, m, at);
        let k = choose|k: int| 0 <= k < m && #[trigger] ranking(ranks, m)[k] == at;
        assert(order.contains(ranking(ranks, m)[k]));
    }
    assert(order.contains(at));
    let w = order.index_of(at);
    assert(order[w] == at);
}

proof fn lemma_slot_holds(ranks: Seq<(int, nat)>, order: Seq<int>, at: int)
    ensures
        slot(ranks, order, at).contains(at),
        forall|k: int|
            0 <= k < order.len() ==> slot(ranks, order, at).contains(#[trigger] order[k]),
    decreases order.len(),
{
    let placed = slot(ranks, order, at);
    if order.len() == 0 || !below(ranks[at], ranks[order.last()]) {
        assert(placed[order.len() as int] == at);
        assert forall|k: int| 0 <= k < order.len() implies placed.contains(#[trigger] order[k]) by {
            assert(placed[k] == order[k]);
        }
    } else {
        let rest = order.drop_last();
        let inner = slot(ranks, rest, at);
        lemma_slot_holds(ranks, rest, at);
        let w = inner.index_of(at);
        assert(placed[w] == at);
        assert forall|k: int| 0 <= k < order.len() implies placed.contains(#[trigger] order[k]) by {
            if k < rest.len() {
                assert(inner.contains(rest[k]));
                let x = inner.index_of(rest[k]);
                assert(placed[x] == order[k]);
            } else {
                assert(placed[inner.len() as int] == order[k]);
            }
        }
    }
}

} // verus!
