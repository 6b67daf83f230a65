//! Choosing an objective: the nearest cell of a set, the first in reading order among
//! the equally near.

use vstd::prelude::*;
use crate::board::{cells, scanned};
use crate::geometry::manhattan;

verus! {

/// Whether `p` comes no later than `q` when the board is read row by row.
pub open spec fn reads_before(p: (int, int), q: (int, int)) -> bool {
    p.0 < q.0 || (p.0 == q.0 && p.1 <= q.1)
}

/// Whether, seen from `from`, the cell `c` is at least as good an objective as `q`:
/// nearer, or as near and no later in reading order.
pub open spec fn preferred(from: (int, int), c: (int, int), q: (int, int)) -> bool {
    manhattan(from, c) < manhattan(from, q) || (manhattan(from, c) == manhattan(from, q)
        && reads_before(c, q))
}

/// Whether `c` is the member of `among` nearest to `from`, the first in reading order
/// among the equally near.
pub open spec fn is_nearest(among: Set<(int, int)>, from: (int, int), c: (int, int)) -> bool {
    &&& among.contains(c)
    &&& forall|q: (int, int)| #[trigger] among.contains(q) ==> preferred(from, c, q)
}

/// A set has at most one nearest member.
pub proof fn lemma_nearest_unique(
    among: Set<(int, int)>,
    from: (int, int),
    a: (int, int),
    b: (int, int),
)
    requires
        is_nearest(among, from, a),
        is_nearest(among, from, b),
    ensures
        a == b,
{
    assert(preferred(from, a, b));
    assert(preferred(from, b, a));
}

/// Whether `best` is the nearest member of `among`, or nothing where `among` is empty.
pub open spec fn nearest_or_none(
    among: Set<(int, int)>,
    from: (int, int),
    best: Option<(int, int)>,
) -> bool {
    match best {
        Some(c) => is_nearest(among, from, c),
        None => forall|q: (int, int)| !among.contains(q),
    }
}

/// The nearest member of `among` up to the cell `(i, j)`, from the nearest before it: the
/// cell itself if it belongs to `among` and is strictly nearer, else the same as before.
pub open spec fn nearest_with(
    among: Set<(int, int)>,
    from: (int, int),
    best: Option<(int, int)>,
    cell: (int, int),
) -> Option<(int, int)> {
    if among.contains(cell) && (best is None || manhattan(from, cell) < manhattan(
        from,
        best->Some_0,
    )) {
        Some(cell)
    } else {
        best
    }
}

/// One step of a row-by-row search for the nearest member.
pub proof fn lemma_nearest_step(
    among: Set<(int, int)>,
    n: nat,
    from: (int, int),
    i: int,
    j: int,
    best: Option<(int, int)>,
)
    requires
        0 <= i < n,
        0 <= j < n,
        nearest_or_none(among.intersect(scanned(n, i, j)), from, best),
    ensures
        nearest_or_none(
            among.intersect(scanned(n, i, j + 1)),
            from,
            nearest_with(among, from, best, (i, j)),
        ),
{
    let earlier = among.intersect(scanned(n, i, j));
    let now = among.intersect(scanned(n, i, j + 1));
    let cell = (i, j);
    let next = nearest_with(among, from, best, cell);
    if !among.contains(cell) {
        assert(now =~= earlier);
    } else {
        assert(now =~= earlier.insert(cell));
        match best {
            None => {
                assert forall|q: (int, int)| #[trigger] now.contains(q) implies preferred(
                    from,
                    cell,
                    q,
                ) by {
                    assert(!earlier.contains(q));
                }
            },
            Some(b) => {
                assert(earlier.contains(b));
                assert forall|q: (int, int)| #[trigger] now.contains(q) implies preferred(
                    from,
                    next->Some_0,
                    q,
                ) by {
                    if q != cell {
                        assert(earlier.contains(q));
                        assert(preferred(from, b, q));
                    }
                }
            },
        }
    }
}

proof fn lemma_nearest_among_scanned(
    among: Set<(int, int)>,
    n: nat,
    from: (int, int),
    i: int,
    j: int,
) -> (best: Option<(int, int)>)
    requires
        0 <= i <= n,
        0 <= j <= n,
        i == n ==> j == 0,
    ensures
        nearest_or_none(among.intersect(scanned(n, i, j)), from, best),
    decreases i, j,
{
    if j > 0 {
        let before = lemma_nearest_among_scanned(among, n, from, i, j - 1);
        lemma_nearest_step(among, n, from, i, j - 1, before);
        nearest_with(among, from, before, (i, j - 1))
    } else if i > 0 {
        let before = lemma_nearest_among_scanned(among, n, from, i - 1, n as int);
        assert(scanned(n, i, 0) =~= scanned(n, i - 1, n as int));
        before
    } else {
        None
    }
}

/// A set of cells of the board that is not empty has a nearest member.
pub proof fn lemma_nearest_exists(among: Set<(int, int)>, n: nat, from: (int, int))
    requires
        among.subset_of(cells(n)),
        exists|c: (int, int)| among.contains(c),
    ensures
        exists|c: (int, int)| is_nearest(among, from, c),
{
    let best = lemma_nearest_among_scanned(among, n, from, n as int, 0);
    assert(among.intersect(scanned(n, n as int, 0)) =~= among);
    assert(best is Some);
    assert(is_nearest(among, from, best->Some_0));
}

} // verus!
