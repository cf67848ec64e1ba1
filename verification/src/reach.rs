use vstd::prelude::*;
use crate::map::{between, in_bounds, index_of, TileType};

verus! {

/// `(x, y)` is a cell of the grid and its tile is floor.
pub open spec fn is_floor(tiles: Seq<TileType>, x: int, y: int) -> bool {
    in_bounds(x, y) && index_of(x, y) < tiles.len() && tiles[index_of(x, y)] == TileType::Floor
}

/// The two cells share an edge.
pub open spec fn next_to(a: (int, int), b: (int, int)) -> bool {
    (a.0 == b.0 && (a.1 == b.1 + 1 || b.1 == a.1 + 1)) || (a.1 == b.1 && (a.0 == b.0 + 1 || b.0
        == a.0 + 1))
}

/// `path` is a walk over the floor: it has a first cell, each of its cells is
/// floor, and each cell after the first shares an edge with the one before.
pub open spec fn is_walk(tiles: Seq<TileType>, path: Seq<(int, int)>) -> bool {
    &&& path.len() > 0
    &&& forall|k: int| 0 <= k < path.len() ==> is_floor(tiles, (#[trigger] path[k]).0, path[k].1)
    &&& forall|k: int| 0 < k < path.len() ==> next_to(path[k - 1], #[trigger] path[k])
}

/// A walk over the floor leads from `from` to `to`: filling the floor from
/// `from`, one neighbour across an edge at a time, reaches `to`.
pub open spec fn connected(tiles: Seq<TileType>, from: (int, int), to: (int, int)) -> bool {
    exists|path: Seq<(int, int)>| #[trigger]
        is_walk(tiles, path) && path.first() == from && path.last() == to
}

/// Every floor cell is connected to itself.
pub proof fn connected_to_itself(tiles: Seq<TileType>, cell: (int, int))
    requires
        is_floor(tiles, cell.0, cell.1),
    ensures
        connected(tiles, cell, cell),
{
    let path = seq![cell];
    assert(is_walk(tiles, path));
}

/// A walk can be taken backwards.
pub proof fn connected_is_symmetric(tiles: Seq<TileType>, a: (int, int), b: (int, int))
    requires
        connected(tiles, a, b),
    ensures
        connected(tiles, b, a),
{
    let path = choose|path: Seq<(int, int)>| #[trigger]
        is_walk(tiles, path) && path.first() == a && path.last() == b;
    let n = path.len() as int;
    let back = Seq::new(path.len(), |k: int| path[n - 1 - k]);
    assert forall|k: int| 0 < k < back.len() implies next_to(back[k - 1], #[trigger] back[k]) by {
        assert(next_to(path[n - k - 1], path[n - k]));
    }
    assert(is_walk(tiles, back));
}

/// Two walks that meet make one walk.
pub proof fn connected_is_transitive(
    tiles: Seq<TileType>,
    a: (int, int),
    b: (int, int),
    c: (int, int),
)
    requires
        connected(tiles, a, b),
        connected(tiles, b, c),
    ensures
        connected(tiles, a, c),
{
    let first = choose|path: Seq<(int, int)>| #[trigger]
        is_walk(tiles, path) && path.first() == a && path.last() == b;
    let second = choose|path: Seq<(int, int)>| #[trigger]
        is_walk(tiles, path) && path.first() == b && path.last() == c;
    let n = first.len() as int;
    let whole = first + second.subrange(1, second.len() as int);
    assert forall|k: int| 0 <= k < whole.len() implies is_floor(
        tiles,
        (#[trigger] whole[k]).0,
        whole[k].1,
    ) by {
        if k >= n {
            assert(whole[k] == second[k - n + 1]);
        } else {
            assert(whole[k] == first[k]);
        }
    }
    assert forall|k: int| 0 < k < whole.len() implies next_to(whole[k - 1], #[trigger] whole[k]) by {
        if k > n {
            assert(whole[k] == second[k - n + 1]);
            assert(whole[k - 1] == second[k - n]);
        } else if k == n {
            assert(whole[k] == second[1]);
            assert(whole[k - 1] == second[0]);
        } else {
            assert(whole[k] == first[k]);
            assert(whole[k - 1] == first[k - 1]);
        }
    }
    assert(is_walk(tiles, whole));
    assert(whole.first() == a);
    assert(whole.last() == c) by {
        if second.len() > 1 {
            assert(whole[whole.len() - 1] == second[second.len() - 1]);
        }
    }
}

/// A stretch of floor along a row connects its two ends.
pub proof fn row_is_connected(tiles: Seq<TileType>, y: int, a: int, b: int)
    requires
        forall|x: int| between(a, b, x) ==> #[trigger] is_floor(tiles, x, y),
    ensures
        connected(tiles, (a, y), (b, y)),
    decreases
        if a <= b {
            b - a
        } else {
            a - b
        },
{
    assert(is_floor(tiles, a, y));
    if a == b {
        connected_to_itself(tiles, (a, y));
    } else {
        let next = if a < b {
            a + 1
        } else {
            a - 1
        };
        row_is_connected(tiles, y, next, b);
        assert(is_floor(tiles, next, y));
        let hop = seq![(a, y), (next, y)];
        assert(is_walk(tiles, hop));
        assert(hop.first() == (a, y) && hop.last() == (next, y));
        connected_is_transitive(tiles, (a, y), (next, y), (b, y));
    }
}

/// A stretch of floor along a column connects its two ends.
pub proof fn column_is_connected(tiles: Seq<TileType>, x: int, a: int, b: int)
    requires
        forall|y: int| between(a, b, y) ==> #[trigger] is_floor(tiles, x, y),
    ensures
        connected(tiles, (x, a), (x, b)),
    decreases
        if a <= b {
            b - a
        } else {
            a - b
        },
{
    assert(is_floor(tiles, x, a));
    if a == b {
        connected_to_itself(tiles, (x, a));
    } else {
        let next = if a < b {
            a + 1
        } else {
            a - 1
        };
        column_is_connected(tiles, x, next, b);
        assert(is_floor(tiles, x, next));
        let hop = seq![(x, a), (x, next)];
        assert(is_walk(tiles, hop));
        assert(hop.first() == (x, a) && hop.last() == (x, next));
        connected_is_transitive(tiles, (x, a), (x, next), (x, b));
    }
}

} // verus!
