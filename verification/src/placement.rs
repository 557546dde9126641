//! Ship placement: seeding a board with uniformly random, pairwise distinct
//! coordinates.

use crate::board::MAX_GRID_SIZE;
use crate::strategy::free_cells;
use crate::random::RandomSource;
use vstd::assert_by_contradiction;
use vstd::arithmetic::div_mod::lemma_fundamental_div_mod;
use vstd::arithmetic::div_mod::lemma_mod_bound;
use vstd::prelude::*;
use vstd::set_lib::lemma_int_range;
use vstd::set_lib::lemma_len_subset;
use vstd::set_lib::set_int_range;

verus! {

/// Row-major encoding of a coordinate pair: on an `n`-sided grid it is
/// injective, and it maps the grid onto `[0, n²)`.
spec fn encode(p: (usize, usize), n: int) -> int {
    (p.0 as int) * n + (p.1 as int)
}

proof fn lemma_encode_injective(a: (usize, usize), b: (usize, usize), n: int)
    by (nonlinear_arith)
    requires
        1 <= n,
        (a.0 as int) < n && (a.1 as int) < n,
        (b.0 as int) < n && (b.1 as int) < n,
        encode(a, n) == encode(b, n),
    ensures
        a == b,
{
}

/// A coordinate list that holds every cell of an `n`-sided grid has at least
/// `n²` entries.
proof fn lemma_covering_list_len(list: Seq<(usize, usize)>, n: int)
    requires
        1 <= n <= MAX_GRID_SIZE,
        list.no_duplicates(),
        forall|k: int|
            0 <= k < list.len() ==> ((#[trigger] list[k]).0 as int) < n && (list[k].1 as int) < n,
        forall|p: (usize, usize)|
            (p.0 as int) < n && (p.1 as int) < n ==> list.contains(p),
    ensures
        list.len() >= n * n,
{
    broadcast use vstd::seq_lib::seq_to_set_is_finite;

    let enc = |p: (usize, usize)| encode(p, n);
    let codes = list.map_values(enc);
    assert forall|i: int, j: int| 0 <= i < j < codes.len() implies codes[i] != codes[j] by {
        if codes[i] == codes[j] {
            lemma_encode_injective(list[i], list[j], n);
        }
    }
    assert(codes.no_duplicates());
    codes.unique_seq_to_set();
    assert forall|i: int| 0 <= i < n * n implies codes.to_set().contains(i) by {
        lemma_fundamental_div_mod(i, n);
        lemma_mod_bound(i, n);
        let q = i / n;
        let r = i % n;
        assert(q < n) by (nonlinear_arith)
            requires
                i == n * q + r,
                0 <= r < n,
                i < n * n,
                1 <= n,
        ;
        assert(q >= 0) by (nonlinear_arith)
            requires
                i == n * q + r,
                0 <= r < n,
                0 <= i,
                1 <= n,
        ;
        let p = (((q as usize)), ((r as usize)));
        assert((p.0 as int) == q && (p.1 as int) == r);
        assert(list.contains(p));
        let k = choose|k: int| 0 <= k < list.len() && list[k] == p;
        assert(codes[k] == encode(p, n));
        assert(encode(p, n) == i);
        assert(codes.contains(i));
    }
    lemma_int_range(0, n * n);
    lemma_len_subset(set_int_range(0, n * n), codes.to_set());
}

/// A duplicate-free, in-bounds coordinate list with fewer than `n²` entries
/// leaves some cell of the grid uncovered.
proof fn lemma_grid_not_exhausted(list: Seq<(usize, usize)>, n: int)
    requires
        1 <= n <= MAX_GRID_SIZE,
        list.no_duplicates(),
        forall|k: int|
            0 <= k < list.len() ==> ((#[trigger] list[k]).0 as int) < n && (list[k].1 as int) < n,
        list.len() < n * n,
    ensures
        exists|p: (usize, usize)| (p.0 as int) < n && (p.1 as int) < n && !list.contains(p),
{
    assert_by_contradiction!(
        exists|p: (usize, usize)| (p.0 as int) < n && (p.1 as int) < n && !list.contains(p),
        {
            assert(forall|p: (usize, usize)|
                (p.0 as int) < n && (p.1 as int) < n ==> list.contains(p));
            lemma_covering_list_len(list, n);
        }
    );
}

/// Accumulate uniformly random in-bounds coordinates until exactly
/// `ship_count` distinct ones have been collected: each draw picks uniformly
/// among the cells not yet taken, so a cell is never taken twice.
pub fn place_ships<R: RandomSource>(grid_size: usize, ship_count: usize, rng: &mut R) -> (ships:
    Vec<(usize, usize)>)
    requires
        1 <= grid_size <= MAX_GRID_SIZE,
        1 <= ship_count <= grid_size * grid_size,
    ensures
        ships@.len() == ship_count,
        ships@.no_duplicates(),
        forall|k: int|
            0 <= k < ships@.len() ==> (#[trigger] ships@[k]).0 < grid_size && ships@[k].1
                < grid_size,
{
    let mut ships: Vec<(usize, usize)> = Vec::new();
    while ships.len() < ship_count
        invariant
            1 <= grid_size <= MAX_GRID_SIZE,
            ship_count <= grid_size * grid_size,
            ships@.len() <= ship_count,
            ships@.no_duplicates(),
            forall|k: int|
                0 <= k < ships@.len() ==> (#[trigger] ships@[k]).0 < grid_size && ships@[k].1
                    < grid_size,
        decreases ship_count - ships@.len(),
    {
        proof {
            lemma_grid_not_exhausted(ships@, grid_size as int);
        }
        let frees = free_cells(grid_size, &ships);
        proof {
            let w = choose|p: (usize, usize)|
                (p.0 as int) < grid_size && (p.1 as int) < grid_size && !ships@.contains(p);
            assert(frees@.contains(w));
            assert(frees@.len() > 0);
        }
        let idx = rng.draw_below(frees.len());
        let fresh = frees[idx];
        let ghost before = ships@;
        ships.push(fresh);
        proof {
            assert forall|i: int, j: int|
                0 <= i < j < ships@.len() implies ships@[i] != ships@[j] by {
                if j == ships@.len() - 1 {
                    assert(before[i] == ships@[i]);
                    if before[i] == fresh {
                        assert(before.contains(before[i]));
                    }
                }
            }
        }
    }
    ships
}

} // verus!
