//! The automated opponent's guessing strategy: a uniformly random coordinate
//! that has not been guessed before.

use crate::board::MAX_GRID_SIZE;
use crate::board::contains_coord;
use crate::random::RandomSource;
use vstd::prelude::*;

verus! {

/// The strict row-major order on coordinates.
pub open spec fn row_major_lt(a: (usize, usize), b: (usize, usize)) -> bool {
    a.0 < b.0 || (a.0 == b.0 && a.1 < b.1)
}

/// Every in-bounds coordinate that is not in the history, exactly once each,
/// in row-major order.
pub fn free_cells(grid_size: usize, history: &Vec<(usize, usize)>) -> (frees: Vec<(usize, usize)>)
    requires
        1 <= grid_size <= MAX_GRID_SIZE,
    ensures
        forall|k: int|
            0 <= k < frees@.len() ==> (#[trigger] frees@[k]).0 < grid_size && frees@[k].1
                < grid_size && !history@.contains(frees@[k]),
        forall|p: (usize, usize)|
            p.0 < grid_size && p.1 < grid_size && !history@.contains(p) ==> frees@.contains(p),
        forall|k1: int, k2: int|
            0 <= k1 < k2 < frees@.len() ==> row_major_lt(frees@[k1], frees@[k2]),
        frees@.no_duplicates(),
{
    let mut frees: Vec<(usize, usize)> = Vec::new();
    let mut r: usize = 0;
    while r < grid_size
        invariant
            r <= grid_size,
            forall|k: int|
                0 <= k < frees@.len() ==> (#[trigger] frees@[k]).0 < grid_size && frees@[k].1
                    < grid_size && !history@.contains(frees@[k]),
            forall|p: (usize, usize)|
                p.0 < r && p.1 < grid_size && !history@.contains(p) ==> frees@.contains(p),
            forall|k: int| 0 <= k < frees@.len() ==> (#[trigger] frees@[k]).0 < r,
            forall|k1: int, k2: int|
                0 <= k1 < k2 < frees@.len() ==> row_major_lt(frees@[k1], frees@[k2]),
        decreases grid_size - r,
    {
        let mut c: usize = 0;
        while c < grid_size
            invariant
                r < grid_size,
                c <= grid_size,
                forall|k: int|
                    0 <= k < frees@.len() ==> (#[trigger] frees@[k]).0 < grid_size && frees@[k].1
                        < grid_size && !history@.contains(frees@[k]),
                forall|p: (usize, usize)|
                    p.0 < r && p.1 < grid_size && !history@.contains(p) ==> frees@.contains(p),
                forall|p: (usize, usize)|
                    p.0 == r && p.1 < c && !history@.contains(p) ==> frees@.contains(p),
                forall|k: int|
                    0 <= k < frees@.len() ==> ((#[trigger] frees@[k]).0 < r || (frees@[k].0 == r
                        && frees@[k].1 < c)),
                forall|k1: int, k2: int|
                    0 <= k1 < k2 < frees@.len() ==> row_major_lt(frees@[k1], frees@[k2]),
            decreases grid_size - c,
        {
            if !contains_coord(history, (r, c)) {
                let ghost before = frees@;
                frees.push((r, c));
                proof {
                    assert forall|p: (usize, usize)|
                        before.contains(p) implies frees@.contains(p) by {
                        let k = choose|k: int| 0 <= k < before.len() && before[k] == p;
                        assert(frees@[k] == p);
                    }
                    assert(frees@[frees@.len() - 1] == ((r, c)));
                    assert forall|k1: int, k2: int|
                        0 <= k1 < k2 < frees@.len() implies row_major_lt(
                        frees@[k1],
                        frees@[k2],
                    ) by {
                        if k2 == frees@.len() - 1 {
                            assert(before[k1] == frees@[k1]);
                        }
                    }
                }
            }
            c = c + 1;
        }
        r = r + 1;
    }
    proof {
        assert forall|i: int, j: int|
            0 <= i < j < frees@.len() implies frees@[i] != frees@[j] by {
            assert(row_major_lt(frees@[i], frees@[j]));
        }
    }
    frees
}

/// The opponent's next guess: a uniformly random in-bounds coordinate not yet
/// present in the history of its earlier guesses. The history must not
/// exhaust the grid: some fresh coordinate has to exist.
pub fn next_guess<R: RandomSource>(
    grid_size: usize,
    history: &Vec<(usize, usize)>,
    rng: &mut R,
) -> (guess: (usize, usize))
    requires
        1 <= grid_size <= MAX_GRID_SIZE,
        exists|p: (usize, usize)|
            p.0 < grid_size && p.1 < grid_size && !history@.contains(p),
    ensures
        guess.0 < grid_size && guess.1 < grid_size,
        !history@.contains(guess),
{
    let frees = free_cells(grid_size, history);
    proof {
        let w = choose|p: (usize, usize)|
            p.0 < grid_size && p.1 < grid_size && !history@.contains(p);
        assert(frees@.contains(w));
        assert(frees@.len() > 0);
    }
    let idx = rng.draw_below(frees.len());
    frees[idx]
}

} // verus!
