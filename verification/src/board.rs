//! Board representation and guess resolution.
//!
//! A board is a square grid of cell states together with the set of
//! coordinates that still hold an un-hit ship. A cell is `Ship` exactly when
//! its coordinate is among the remaining ships; resolving a guess turns the
//! guessed cell into `Hit` or `Miss` and never re-adds a ship.

use vstd::prelude::*;

verus! {

/// Largest permitted board side length.
pub const MAX_GRID_SIZE: usize = 10;

/// The state of one cell of a board.
#[derive(Clone, Copy, PartialEq, Eq, Structural, Debug)]
pub enum CellState {
    Empty,
    Ship,
    Hit,
    Miss,
}

/// The outcome reported for a single resolved guess.
#[derive(Clone, Copy, PartialEq, Eq, Structural, Debug)]
pub enum Outcome {
    Hit,
    Miss,
}

/// The display glyph of a cell: ships are concealed behind the water glyph
/// unless the rendering reveals them; hits, misses and water always show
/// as themselves.
pub open spec fn glyph(cell: CellState, reveal_ships: bool) -> char {
    match cell {
        CellState::Empty => '~',
        CellState::Ship => if reveal_ships { 'S' } else { '~' },
        CellState::Hit => 'X',
        CellState::Miss => 'O',
    }
}

/// Whether a coordinate list holds the given coordinate.
pub fn contains_coord(list: &Vec<(usize, usize)>, coord: (usize, usize)) -> (found: bool)
    ensures
        found == list@.contains(coord),
{
    let mut i: usize = 0;
    while i < list.len()
        invariant
            i <= list@.len(),
            forall|k: int| 0 <= k < i ==> list@[k] != coord,
        decreases list@.len() - i,
    {
        if list[i].0 == coord.0 && list[i].1 == coord.1 {
            assert(list@[i as int] == coord);
            return true;
        }
        i = i + 1;
    }
    false
}

/// A square grid of the given side length with every cell `Empty`.
pub fn initialize_grid(size: usize) -> (grid: Vec<Vec<CellState>>)
    ensures
        grid@.len() == size,
        forall|r: int| 0 <= r < size ==> (#[trigger] grid@[r])@.len() == size,
        forall|r: int, c: int| 0 <= r < size && 0 <= c < size ==> grid@[r]@[c] == CellState::Empty,
{
    let mut grid: Vec<Vec<CellState>> = Vec::new();
    let mut r: usize = 0;
    while r < size
        invariant
            r <= size,
            grid@.len() == r,
            forall|i: int| 0 <= i < r ==> (#[trigger] grid@[i])@.len() == size,
            forall|i: int, j: int| 0 <= i < r && 0 <= j < size ==> grid@[i]@[j] == CellState::Empty,
        decreases size - r,
    {
        let mut row: Vec<CellState> = Vec::new();
        let mut c: usize = 0;
        while c < size
            invariant
                c <= size,
                row@.len() == c,
                forall|j: int| 0 <= j < c ==> row@[j] == CellState::Empty,
            decreases size - c,
        {
            row.push(CellState::Empty);
            c = c + 1;
        }
        grid.push(row);
        r = r + 1;
    }
    grid
}

/// A square grid with `Ship` at each listed coordinate and `Empty` elsewhere.
pub fn initialize_grid_with_ships(size: usize, ships: &Vec<(usize, usize)>) -> (grid: Vec<
    Vec<CellState>,
>)
    requires
        forall|k: int| 0 <= k < ships@.len() ==> (#[trigger] ships@[k]).0 < size && ships@[k].1
            < size,
    ensures
        grid@.len() == size,
        forall|r: int| 0 <= r < size ==> (#[trigger] grid@[r])@.len() == size,
        forall|r: int, c: int| 0 <= r < size && 0 <= c < size ==> grid@[r]@[c] == (if ships@.contains(
            ((r as usize, c as usize)),
        ) {
            CellState::Ship
        } else {
            CellState::Empty
        }),
{
    let mut grid: Vec<Vec<CellState>> = Vec::new();
    let mut r: usize = 0;
    while r < size
        invariant
            r <= size,
            grid@.len() == r,
            forall|i: int| 0 <= i < r ==> (#[trigger] grid@[i])@.len() == size,
            forall|i: int, j: int| 0 <= i < r && 0 <= j < size ==> grid@[i]@[j] == (if ships@.contains(
                ((i as usize, j as usize)),
            ) {
                CellState::Ship
            } else {
                CellState::Empty
            }),
        decreases size - r,
    {
        let mut row: Vec<CellState> = Vec::new();
        let mut c: usize = 0;
        while c < size
            invariant
                c <= size,
                row@.len() == c,
                forall|j: int| 0 <= j < c ==> row@[j] == (if ships@.contains(
                    ((r as usize, j as usize)),
                ) {
                    CellState::Ship
                } else {
                    CellState::Empty
                }),
        decreases size - c,
        {
            if contains_coord(ships, (r, c)) {
                row.push(CellState::Ship);
            } else {
                row.push(CellState::Empty);
            }
            c = c + 1;
        }
        grid.push(row);
        r = r + 1;
    }
    grid
}

/// One side's board: the visible grid and the coordinates still holding an
/// un-hit ship.
pub struct Board {
    size: usize,
    grid: Vec<Vec<CellState>>,
    ships: Vec<(usize, usize)>,
}

impl Board {
    /// The side length of the board.
    pub closed spec fn size_spec(&self) -> int {
        self.size as int
    }

    /// The state of the cell at the given row and column.
    pub closed spec fn cell(&self, r: int, c: int) -> CellState {
        self.grid@[r]@[c]
    }

    /// The remaining un-hit ship coordinates, in insertion order.
    pub closed spec fn ship_seq(&self) -> Seq<(usize, usize)> {
        self.ships@
    }

    /// The set of remaining un-hit ship coordinates.
    pub open spec fn ship_set(&self) -> Set<(usize, usize)> {
        self.ship_seq().to_set()
    }

    /// Whether a coordinate lies on the board.
    pub open spec fn coord_in_bounds(&self, coord: (usize, usize)) -> bool {
        (coord.0 as int) < self.size_spec() && (coord.1 as int) < self.size_spec()
    }

    /// Board well-formedness: the grid is square, the ship list is duplicate
    /// free and in bounds, and a cell is `Ship` exactly when its coordinate is
    /// among the remaining ships.
    pub closed spec fn wf(&self) -> bool {
        &&& 1 <= self.size <= MAX_GRID_SIZE
        &&& self.grid@.len() == self.size
        &&& (forall|r: int| 0 <= r < self.grid@.len() ==> (#[trigger] self.grid@[r])@.len()
            == self.size)
        &&& self.ships@.no_duplicates()
        &&& (forall|k: int|
            0 <= k < self.ships@.len() ==> (#[trigger] self.ships@[k]).0 < self.size
                && self.ships@[k].1 < self.size)
        &&& (forall|r: int, c: int|
            0 <= r < self.size && 0 <= c < self.size ==> ((#[trigger] self.cell(r, c))
                == CellState::Ship <==> self.ships@.contains((r as usize, c as usize))))
    }

    /// The number of remaining un-hit ships.
    pub fn remaining_ships(&self) -> (count: usize)
        ensures
            count == self.ship_seq().len(),
    {
        self.ships.len()
    }

    /// The side length of the board.
    pub fn size(&self) -> (size: usize)
        ensures
            size == self.size_spec(),
    {
        self.size
    }

    /// Whether an un-hit ship remains at the given coordinate.
    pub fn has_ship_at(&self, coord: (usize, usize)) -> (present: bool)
        ensures
            present == self.ship_set().contains(coord),
    {
        contains_coord(&self.ships, coord)
    }

    /// The state of the cell at the given coordinate.
    pub fn cell_at(&self, r: usize, c: usize) -> (cell: CellState)
        requires
            self.wf(),
            (r as int) < self.size_spec(),
            (c as int) < self.size_spec(),
        ensures
            cell == self.cell(r as int, c as int),
    {
        self.grid[r][c]
    }

    /// Facts every well-formed board provides to its callers.
    pub proof fn lemma_wf_facts(&self)
        requires
            self.wf(),
        ensures
            1 <= self.size_spec() <= MAX_GRID_SIZE,
            self.ship_seq().no_duplicates(),
            forall|k: int|
                0 <= k < self.ship_seq().len() ==> (#[trigger] self.ship_seq()[k]).0
                    < self.size_spec() && (self.ship_seq()[k].1 as int) < self.size_spec(),
            forall|p: (usize, usize)| #[trigger]
                self.ship_set().contains(p) ==> (p.0 as int) < self.size_spec() && (p.1 as int)
                    < self.size_spec(),
            self.ship_set().finite(),
            self.ship_set().len() == self.ship_seq().len(),
            self.ship_set().is_empty() <==> self.ship_seq().len() == 0,
    {
        self.ships@.unique_seq_to_set();
        assert forall|p: (usize, usize)| #[trigger]
            self.ship_set().contains(p) implies (p.0 as int) < self.size_spec() && (p.1 as int)
            < self.size_spec() by {
            let k = choose|k: int| 0 <= k < self.ships@.len() && self.ships@[k] == p;
            assert(self.ships@[k] == p);
        }
        if self.ship_seq().len() == 0 {
            assert(self.ship_set() =~= Set::empty());
        } else {
            assert(self.ship_set().contains(self.ships@[0]));
        }
    }

    /// A board of the given side length whose cells are `Empty` except for a
    /// `Ship` at each listed position, all of which remain un-hit.
    pub fn create(size: usize, ships: Vec<(usize, usize)>) -> (board: Board)
        requires
            1 <= size <= MAX_GRID_SIZE,
            forall|k: int|
                0 <= k < ships@.len() ==> (#[trigger] ships@[k]).0 < size && ships@[k].1 < size,
            ships@.no_duplicates(),
        ensures
            board.wf(),
            board.size_spec() == size,
            board.ship_seq() == ships@,
            forall|r: int, c: int|
                0 <= r < size && 0 <= c < size ==> #[trigger] board.cell(r, c) == (if ships@.contains(
                    ((r as usize, c as usize)),
                ) {
                    CellState::Ship
                } else {
                    CellState::Empty
                }),
    {
        let grid = initialize_grid_with_ships(size, &ships);
        Board { size, grid, ships }
    }

    /// Whether every ship on this board has been hit.
    pub fn is_defeated(&self) -> (defeated: bool)
        ensures
            defeated <==> self.ship_set().is_empty(),
            defeated <==> self.ship_seq().len() == 0,
    {
        proof {
            if self.ships@.len() == 0 {
                assert(self.ship_set() =~= Set::empty());
            } else {
                assert(self.ship_set().contains(self.ships@[0]));
            }
        }
        self.ships.len() == 0
    }

    /// Resolve a guess at the given coordinate: a guess at a remaining ship
    /// turns the cell into `Hit` and removes the ship, any other guess turns
    /// the cell into `Miss`; no other cell changes.
    pub fn apply_guess(&mut self, coord: (usize, usize)) -> (outcome: Outcome)
        requires
            old(self).wf(),
            old(self).coord_in_bounds(coord),
        ensures
            final(self).wf(),
            resolves(*old(self), *final(self), coord, outcome),
            final(self).ship_set().subset_of(old(self).ship_set()),
    {
        let ghost pre = *self;
        if contains_coord(&self.ships, coord) {
            let idx = index_of_coord(&self.ships, coord);
            self.ships.remove(idx);
            self.grid[coord.0][coord.1] = CellState::Hit;
            proof {
                lemma_remove_at(pre.ships@, idx as int);
                assert(self.ship_set() =~= pre.ship_set().remove(coord));
                assert forall|r: int, c: int|
                    0 <= r < self.size && 0 <= c < self.size implies ((#[trigger] self.cell(r, c))
                    == CellState::Ship <==> self.ships@.contains((r as usize, c as usize))) by {
                    let p = ((r as usize, c as usize));
                    assert(self.ships@.contains(p) == self.ship_set().contains(p));
                    assert(pre.ships@.contains(p) == pre.ship_set().contains(p));
                    if r == coord.0 as int && c == coord.1 as int {
                        assert(p == coord);
                        assert(self.cell(r, c) == CellState::Hit);
                        assert(!self.ship_set().contains(coord));
                    } else {
                        assert(self.cell(r, c) == pre.cell(r, c));
                        assert(p != coord);
                        assert(self.ship_set().contains(p) == pre.ship_set().contains(p));
                    }
                }
                assert(self.wf());
            }
            Outcome::Hit
        } else {
            self.grid[coord.0][coord.1] = CellState::Miss;
            proof {
                assert(!pre.ship_set().contains(coord));
                assert(self.ship_set() =~= pre.ship_set().remove(coord));
                assert forall|r: int, c: int|
                    0 <= r < self.size && 0 <= c < self.size implies ((#[trigger] self.cell(r, c))
                    == CellState::Ship <==> self.ships@.contains((r as usize, c as usize))) by {
                    let p = ((r as usize, c as usize));
                    if r == coord.0 as int && c == coord.1 as int {
                        assert(p == coord);
                        assert(self.cell(r, c) == CellState::Miss);
                    } else {
                        assert(self.cell(r, c) == pre.cell(r, c));
                    }
                }
                assert(self.wf());
            }
            Outcome::Miss
        }
    }

    /// The display grid of this board: one glyph per cell, with ships
    /// concealed unless `reveal_ships` is set.
    pub fn render(&self, reveal_ships: bool) -> (display: Vec<Vec<char>>)
        requires
            self.wf(),
        ensures
            display@.len() == self.size_spec(),
            forall|r: int|
                0 <= r < display@.len() ==> (#[trigger] display@[r])@.len() == self.size_spec(),
            forall|r: int, c: int|
                0 <= r < self.size_spec() && 0 <= c < self.size_spec() ==> (#[trigger] display@[r]@[c])
                    == glyph(self.cell(r, c), reveal_ships),
    {
        let size = self.size;
        let mut display: Vec<Vec<char>> = Vec::new();
        let mut r: usize = 0;
        while r < size
            invariant
                self.wf(),
                size == self.size_spec(),
                r <= size,
                display@.len() == r,
                forall|i: int| 0 <= i < r ==> (#[trigger] display@[i])@.len() == size,
                forall|i: int, j: int|
                    0 <= i < r && 0 <= j < size ==> (#[trigger] display@[i]@[j]) == glyph(
                        self.cell(i, j),
                        reveal_ships,
                    ),
            decreases size - r,
        {
            let mut row: Vec<char> = Vec::new();
            let mut c: usize = 0;
            while c < size
                invariant
                    self.wf(),
                    size == self.size_spec(),
                    r < size,
                    c <= size,
                    row@.len() == c,
                    forall|j: int|
                        0 <= j < c ==> (#[trigger] row@[j]) == glyph(
                            self.cell(r as int, j),
                            reveal_ships,
                        ),
                decreases size - c,
            {
                let cell = self.cell_at(r, c);
                let g: char = match cell {
                    CellState::Empty => '~',
                    CellState::Ship => if reveal_ships {
                        'S'
                    } else {
                        '~'
                    },
                    CellState::Hit => 'X',
                    CellState::Miss => 'O',
                };
                row.push(g);
                c = c + 1;
            }
            display.push(row);
            r = r + 1;
        }
        display
    }
}

/// The relation between a board before and after one guess at `coord` was
/// resolved with the given outcome: the guess hits exactly the remaining
/// ships, a hit ship is removed and never re-added, the guessed cell shows
/// the outcome, and every other cell is untouched.
pub open spec fn resolves(pre: Board, post: Board, coord: (usize, usize), outcome: Outcome) -> bool {
    &&& post.size_spec() == pre.size_spec()
    &&& (outcome == Outcome::Hit <==> pre.ship_set().contains(coord))
    &&& post.ship_set() == pre.ship_set().remove(coord)
    &&& post.ship_seq().len() == (if pre.ship_set().contains(coord) {
        pre.ship_seq().len() - 1
    } else {
        pre.ship_seq().len() as int
    })
    &&& post.cell(coord.0 as int, coord.1 as int) == (if pre.ship_set().contains(coord) {
        CellState::Hit
    } else {
        CellState::Miss
    })
    &&& (forall|r: int, c: int|
        0 <= r < pre.size_spec() && 0 <= c < pre.size_spec() && !(r == coord.0 as int && c
            == coord.1 as int) ==> #[trigger] post.cell(r, c) == pre.cell(r, c))
}

/// Resolve a guess against a board: the single point where game state
/// mutates and the outcome of a guess is classified.
pub fn resolve(board: &mut Board, coord: (usize, usize)) -> (outcome: Outcome)
    requires
        old(board).wf(),
        old(board).coord_in_bounds(coord),
    ensures
        final(board).wf(),
        resolves(*old(board), *final(board), coord, outcome),
        final(board).ship_set().subset_of(old(board).ship_set()),
{
    board.apply_guess(coord)
}

/// The index of the first occurrence of a coordinate known to be present.
fn index_of_coord(list: &Vec<(usize, usize)>, coord: (usize, usize)) -> (idx: usize)
    requires
        list@.contains(coord),
    ensures
        idx < list@.len(),
        list@[idx as int] == coord,
{
    let mut i: usize = 0;
    while i < list.len()
        invariant
            list@.contains(coord),
            i <= list@.len(),
            forall|k: int| 0 <= k < i ==> list@[k] != coord,
        decreases list@.len() - i,
    {
        if list[i].0 == coord.0 && list[i].1 == coord.1 {
            return i;
        }
        i = i + 1;
    }
    proof {
        let k = choose|k: int| 0 <= k < list@.len() && list@[k] == coord;
        assert(list@[k] != coord);
    }
    0
}

/// Removing the entry at one index of a duplicate-free sequence removes
/// exactly that value from the sequence's set of entries.
proof fn lemma_remove_at(s: Seq<(usize, usize)>, i: int)
    requires
        s.no_duplicates(),
        0 <= i < s.len(),
    ensures
        s.remove(i).no_duplicates(),
        s.remove(i).to_set() =~= s.to_set().remove(s[i]),
        forall|k: int|
            0 <= k < s.remove(i).len() ==> s.contains(#[trigger] s.remove(i)[k]),
{
    s.remove_ensures(i);
    let t = s.remove(i);
    assert forall|a: int, b: int| 0 <= a < b < t.len() implies t[a] != t[b] by {
        let oa: int = if a < i { a } else { a + 1 };
        let ob: int = if b < i { b } else { b + 1 };
        assert(t[a] == s[oa] && t[b] == s[ob]);
    }
    assert forall|k: int| 0 <= k < t.len() implies s.contains(#[trigger] t[k]) by {
        let ok: int = if k < i { k } else { k + 1 };
        assert(t[k] == s[ok]);
    }
    assert forall|x: (usize, usize)| t.to_set().contains(x) implies s.to_set().remove(
        s[i],
    ).contains(x) by {
        let k = choose|k: int| 0 <= k < t.len() && t[k] == x;
        let ok: int = if k < i { k } else { k + 1 };
        assert(s[ok] == x);
        assert(ok != i);
    }
    assert forall|x: (usize, usize)| s.to_set().remove(s[i]).contains(x) implies t.to_set().contains(
        x,
    ) by {
        let k = choose|k: int| 0 <= k < s.len() && s[k] == x;
        assert(k != i);
        let tk: int = if k < i { k } else { k - 1 };
        assert(t[tk] == x);
    }
}

/// Law: defeat is monotonic. Once a board's remaining-ship set is empty,
/// resolving any further guess leaves it empty: no coordinate is ever
/// re-added over a board's lifetime.
pub proof fn lemma_defeat_monotonic(pre: Board, post: Board, coord: (usize, usize), outcome: Outcome)
    requires
        resolves(pre, post, coord, outcome),
        pre.ship_set().is_empty(),
    ensures
        post.ship_set().is_empty(),
        outcome == Outcome::Miss,
{
    assert(post.ship_set() =~= Set::empty());
}

/// Law: a rendering that conceals ships shows a ship cell and an empty cell
/// as the same glyph, so no concealed display can distinguish them, while a
/// revealing rendering tells them apart; hit and miss glyphs do not depend
/// on concealment.
pub proof fn lemma_concealment(reveal_ships: bool)
    ensures
        glyph(CellState::Ship, false) == glyph(CellState::Empty, false),
        glyph(CellState::Ship, true) != glyph(CellState::Empty, true),
        glyph(CellState::Hit, reveal_ships) == glyph(CellState::Hit, !reveal_ships),
        glyph(CellState::Miss, reveal_ships) == glyph(CellState::Miss, !reveal_ships),
        glyph(CellState::Empty, reveal_ships) == glyph(CellState::Empty, !reveal_ships),
{
}

} // verus!
