//! Forward reachability through reference plumbing.
//!
//! Objects form a directed graph (an edge for each wire from one object's
//! port to another's). A start object "feeds only refs" when every path out
//! of it stays inside `InputRef`/`OutputRef` nodes. Stated without a
//! traversal order: there is a set of ref nodes that holds every successor
//! of the start and is closed under successors. The least such set is what
//! a breadth-first walk visits.
use vstd::prelude::*;

verus! {

/// `c` holds every successor of `start`, only ref nodes, and is closed
/// under successors.
pub open spec fn closed_ref_set(
    edge: spec_fn(int, int) -> bool,
    is_ref: spec_fn(int) -> bool,
    start: int,
    c: Set<int>,
) -> bool {
    &&& forall|b: int| #[trigger] edge(start, b) ==> c.contains(b)
    &&& forall|a: int| #[trigger] c.contains(a) ==> is_ref(a)
    &&& forall|a: int, b: int| c.contains(a) && #[trigger] edge(a, b) ==> c.contains(b)
}

/// Nothing but ref plumbing is reachable from `start`.
pub open spec fn feeds_only_refs(
    edge: spec_fn(int, int) -> bool,
    is_ref: spec_fn(int) -> bool,
    start: int,
) -> bool {
    exists|c: Set<int>| #[trigger] closed_ref_set(edge, is_ref, start, c)
}

/// `x` lies in every closed ref set of `start`.
pub open spec fn in_every_closed_set(
    edge: spec_fn(int, int) -> bool,
    is_ref: spec_fn(int) -> bool,
    start: int,
    x: int,
) -> bool {
    forall|c: Set<int>| #[trigger] closed_ref_set(edge, is_ref, start, c) ==> c.contains(x)
}

/// The edges of an adjacency list: `a → b` when `b` is listed under `a`.
pub open spec fn adj_edges(adj: Seq<Vec<usize>>) -> spec_fn(int, int) -> bool {
    |a: int, b: int| 0 <= a < adj.len() && exists|k: int| 0 <= k < adj[a]@.len() && adj[a]@[k] == b
}

/// The nodes flagged in `flags`.
pub open spec fn flagged(flags: Seq<bool>) -> spec_fn(int) -> bool {
    |i: int| 0 <= i < flags.len() && flags[i]
}

proof fn lemma_successor_in_every_set(
    edge: spec_fn(int, int) -> bool,
    is_ref: spec_fn(int) -> bool,
    start: int,
    x: int,
    y: int,
)
    requires
        in_every_closed_set(edge, is_ref, start, x),
        edge(x, y),
    ensures
        in_every_closed_set(edge, is_ref, start, y),
{
    assert forall|c: Set<int>| #[trigger] closed_ref_set(edge, is_ref, start, c) implies c.contains(y) by {
        assert(c.contains(x));
    }
}

proof fn lemma_start_successor_in_every_set(
    edge: spec_fn(int, int) -> bool,
    is_ref: spec_fn(int) -> bool,
    start: int,
    y: int,
)
    requires
        edge(start, y),
    ensures
        in_every_closed_set(edge, is_ref, start, y),
{
    assert forall|c: Set<int>| #[trigger] closed_ref_set(edge, is_ref, start, c) implies c.contains(y) by {
    }
}

/// Whether some node that is not ref plumbing is reachable from `start`
/// through ref plumbing alone.
pub fn reaches_non_ref(adj: &Vec<Vec<usize>>, is_ref: &Vec<bool>, start: usize) -> (alive: bool)
    requires
        adj@.len() == is_ref@.len(),
        start < adj@.len(),
        forall|a: int, k: int|
            0 <= a < adj@.len() && 0 <= k < adj@[a]@.len() ==> #[trigger] adj@[a]@[k] < adj@.len(),
    ensures
        alive == !feeds_only_refs(adj_edges(adj@), flagged(is_ref@), start as int),
{
    let ghost edge = adj_edges(adj@);
    let ghost refs = flagged(is_ref@);
    let n = adj.len();
    let mut seen: Vec<bool> = Vec::new();
    let mut i: usize = 0;
    while i < n
        invariant
            0 <= i <= n,
            n == adj@.len(),
            seen@.len() == i,
            forall|x: int| 0 <= x < i ==> !#[trigger] seen@[x],
        decreases n - i,
    {
        seen.push(false);
        i = i + 1;
    }
    let mut queue: Vec<usize> = Vec::new();
    let first = &adj[start];
    let mut k: usize = 0;
    while k < first.len()
        invariant
            0 <= k <= first@.len(),
            first@ == adj@[start as int]@,
            n == adj@.len(),
            start < n,
            edge == adj_edges(adj@),
            queue@ == first@.take(k as int),
            forall|a: int, j: int|
                0 <= a < adj@.len() && 0 <= j < adj@[a]@.len() ==> #[trigger] adj@[a]@[j] < adj@.len(),
        decreases first@.len() - k,
    {
        queue.push(first[k]);
        proof {
            assert(queue@ =~= first@.take(k + 1));
        }
        k = k + 1;
    }
    proof {
        assert(first@.take(first@.len() as int) =~= first@);
        assert forall|j: int| 0 <= j < queue@.len() implies in_every_closed_set(
            edge,
            refs,
            start as int,
            #[trigger] queue@[j] as int,
        ) by {
            assert(edge(start as int, queue@[j] as int));
            lemma_start_successor_in_every_set(edge, refs, start as int, queue@[j] as int);
        }
    }
    let mut head: usize = 0;
    let mut alive = false;
    let mut seen_count: usize = 0;
    proof {
        assert(count_true(seen@) == 0) by {
            lemma_count_none(seen@);
        }
    }
    while head < queue.len() && !alive
        invariant
            n == adj@.len(),
            n == is_ref@.len(),
            start < n,
            seen@.len() == n,
            edge == adj_edges(adj@),
            refs == flagged(is_ref@),
            forall|a: int, j: int|
                0 <= a < adj@.len() && 0 <= j < adj@[a]@.len() ==> #[trigger] adj@[a]@[j] < adj@.len(),
            0 <= head <= queue@.len(),
            count_true(seen@) == seen_count,
            seen_count <= n,
            forall|j: int| 0 <= j < queue@.len() ==> #[trigger] queue@[j] < n,
            // Soundness: whatever the walk meets lies in every closed ref set.
            forall|j: int|
                0 <= j < queue@.len() ==> in_every_closed_set(edge, refs, start as int, #[trigger] queue@[j] as int),
            forall|x: int|
                0 <= x < n && #[trigger] seen@[x] ==> in_every_closed_set(edge, refs, start as int, x),
            alive ==> exists|x: int|
                0 <= x < n && in_every_closed_set(edge, refs, start as int, x) && !#[trigger] refs(x),
            // Completeness while nothing live was met.
            !alive ==> forall|x: int| 0 <= x < n && #[trigger] seen@[x] ==> refs(x),
            !alive ==> forall|x: int, y: int|
                0 <= x < n && seen@[x] && #[trigger] edge(x, y) ==> seen@[y] || exists|j: int|
                    head <= j < queue@.len() && queue@[j] == y,
            !alive ==> forall|y: int|
                #[trigger] edge(start as int, y) ==> seen@[y] || exists|j: int|
                    head <= j < queue@.len() && queue@[j] == y,
        decreases n - seen_count, queue@.len() - head,
    {
        let x = queue[head];
        let ghost old_head = head;
        head = head + 1;
        if !seen[x] {
            proof {
                lemma_count_set(seen@, x as int);
            }
            let ghost before = seen@;
            seen.set(x, true);
            seen_count = seen_count + 1;
            if !is_ref[x] {
                alive = true;
                proof {
                    assert(!refs(x as int));
                    assert(in_every_closed_set(edge, refs, start as int, queue@[old_head as int] as int));
                }
            } else {
                let succ = &adj[x];
                let ghost q0 = queue@;
                let mut k: usize = 0;
                while k < succ.len()
                    invariant
                        0 <= k <= succ@.len(),
                        succ@ == adj@[x as int]@,
                        x < n,
                        n == adj@.len(),
                        edge == adj_edges(adj@),
                        in_every_closed_set(edge, refs, start as int, x as int),
                        forall|a: int, j: int|
                            0 <= a < adj@.len() && 0 <= j < adj@[a]@.len() ==> #[trigger] adj@[a]@[j] < adj@.len(),
                        queue@ == q0 + succ@.take(k as int),
                        forall|j: int| 0 <= j < queue@.len() ==> #[trigger] queue@[j] < n,
                        forall|j: int|
                            0 <= j < queue@.len() ==> in_every_closed_set(
                                edge,
                                refs,
                                start as int,
                                #[trigger] queue@[j] as int,
                            ),
                    decreases succ@.len() - k,
                {
                    let y = succ[k];
                    proof {
                        assert(edge(x as int, y as int));
                        lemma_successor_in_every_set(edge, refs, start as int, x as int, y as int);
                        assert(adj@[x as int]@[k as int] < adj@.len());
                    }
                    queue.push(y);
                    proof {
                        assert(queue@ =~= q0 + succ@.take(k + 1));
                    }
                    k = k + 1;
                }
                proof {
                    assert(succ@.take(succ@.len() as int) =~= succ@);
                    assert forall|a: int, b: int|
                        0 <= a < n && seen@[a] && #[trigger] edge(a, b) implies seen@[b] || exists|j: int|
                            head <= j < queue@.len() && queue@[j] == b by {
                        if a == x {
                            let kk = choose|kk: int| 0 <= kk < adj@[a]@.len() && adj@[a]@[kk] == b;
                            assert(queue@[q0.len() + kk] == b);
                        } else {
                            assert(before[a]);
                            if !before[b] {
                                let j = choose|j: int| old_head <= j < q0.len() && q0[j] == b;
                                if j == old_head {
                                    assert(seen@[b]);
                                } else {
                                    assert(queue@[j] == b);
                                }
                            }
                        }
                    }
                    assert forall|b: int| #[trigger] edge(start as int, b) implies seen@[b] || exists|j: int|
                        head <= j < queue@.len() && queue@[j] == b by {
                        if !before[b] {
                            let j = choose|j: int| old_head <= j < q0.len() && q0[j] == b;
                            if j == old_head {
                                assert(seen@[b]);
                            } else {
                                assert(queue@[j] == b);
                            }
                        }
                    }
                }
            }
        } else {
            proof {
                assert forall|a: int, b: int|
                    0 <= a < n && seen@[a] && #[trigger] edge(a, b) && !alive implies seen@[b] || exists|j: int|
                        head <= j < queue@.len() && queue@[j] == b by {
                    if !seen@[b] {
                        let j = choose|j: int| old_head <= j < queue@.len() && queue@[j] == b;
                        assert(j != old_head);
                    }
                }
                assert forall|b: int| #[trigger] edge(start as int, b) && !alive implies seen@[b] || exists|j: int|
                    head <= j < queue@.len() && queue@[j] == b by {
                    if !seen@[b] {
                        let j = choose|j: int| old_head <= j < queue@.len() && queue@[j] == b;
                        assert(j != old_head);
                    }
                }
            }
        }
    }
    proof {
        if alive {
            let x = choose|x: int| 0 <= x < n && in_every_closed_set(edge, refs, start as int, x) && !#[trigger] refs(x);
            if feeds_only_refs(edge, refs, start as int) {
                let c = choose|c: Set<int>| #[trigger] closed_ref_set(edge, refs, start as int, c);
                assert(c.contains(x));
            }
        } else {
            let c = Set::new(|x: int| 0 <= x < n && seen@[x]);
            assert forall|a: int, b: int| c.contains(a) && #[trigger] edge(a, b) implies c.contains(b) by {
                let kk = choose|kk: int| 0 <= kk < adj@[a]@.len() && adj@[a]@[kk] == b;
                assert(adj@[a]@[kk] < adj@.len());
            }
            assert forall|b: int| #[trigger] edge(start as int, b) implies c.contains(b) by {
                let kk = choose|kk: int| 0 <= kk < adj@[start as int]@.len() && adj@[start as int]@[kk] == b;
                assert(adj@[start as int]@[kk] < adj@.len());
            }
            assert(closed_ref_set(edge, refs, start as int, c));
        }
    }
    alive
}

/// How many entries are set.
pub open spec fn count_true(s: Seq<bool>) -> nat
    decreases s.len(),
{
    if s.len() == 0 {
        0
    } else {
        count_true(s.drop_last()) + if s.last() {
            1nat
        } else {
            0nat
        }
    }
}

proof fn lemma_count_none(s: Seq<bool>)
    requires
        forall|x: int| 0 <= x < s.len() ==> !#[trigger] s[x],
    ensures
        count_true(s) == 0,
    decreases s.len(),
{
    if s.len() > 0 {
        lemma_count_none(s.drop_last());
    }
}

proof fn lemma_count_bound(s: Seq<bool>)
    ensures
        count_true(s) <= s.len(),
    decreases s.len(),
{
    if s.len() > 0 {
        lemma_count_bound(s.drop_last());
    }
}

proof fn lemma_count_set(s: Seq<bool>, i: int)
    requires
        0 <= i < s.len(),
        !s[i],
    ensures
        count_true(s.update(i, true)) == count_true(s) + 1,
        count_true(s.update(i, true)) <= s.len(),
    decreases s.len(),
{
    let t = s.update(i, true);
    if i == s.len() - 1 {
        assert(t.drop_last() =~= s.drop_last());
    } else {
        assert(t.drop_last() =~= s.drop_last().update(i, true));
        lemma_count_set(s.drop_last(), i);
    }
    lemma_count_bound(t);
}

} // verus!
