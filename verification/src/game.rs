//! The game controller: it owns both boards and the opponent's guess
//! history, alternates the turns of one round, and detects termination.
//!
//! A round is asymmetric by design: the human guesses first, and a human win
//! is checked before the opponent acts, so the opponent gets no retaliatory
//! guess in the round the human wins; an opponent win can only be detected
//! after the opponent's own guess.

use crate::board::Board;
use crate::board::MAX_GRID_SIZE;
use crate::board::Outcome;
use crate::board::resolves;
use crate::placement::place_ships;
use crate::random::RandomSource;
use crate::strategy::next_guess;
use vstd::prelude::*;

verus! {

/// The side that first located all of the other side's ships.
#[derive(Clone, Copy, PartialEq, Eq, Structural, Debug)]
pub enum Winner {
    Human,
    Opponent,
}

/// What happened during one round of play.
#[derive(Clone, Copy, Debug)]
pub struct RoundReport {
    /// The human's guess, as handed in.
    pub human_guess: (usize, usize),
    /// The outcome of the human's guess on the opponent's board.
    pub human_outcome: Outcome,
    /// The opponent's guess and its outcome on the human's board, or `None`
    /// when the human's guess already won and the opponent never acted.
    pub opponent_action: Option<((usize, usize), Outcome)>,
    /// The winner, if this round ended the game.
    pub winner: Option<Winner>,
}

/// The full state of one game.
pub struct GameState {
    grid_size: usize,
    human_board: Board,
    opponent_board: Board,
    history: Vec<(usize, usize)>,
    winner: Option<Winner>,
}

impl GameState {
    /// The side length of both boards.
    pub closed spec fn grid_size_spec(&self) -> int {
        self.grid_size as int
    }

    /// The human's own board, the one the opponent guesses at.
    pub closed spec fn human_board_spec(&self) -> Board {
        self.human_board
    }

    /// The opponent's board, the one the human guesses at.
    pub closed spec fn opponent_board_spec(&self) -> Board {
        self.opponent_board
    }

    /// The coordinates the opponent has guessed so far, oldest first.
    pub closed spec fn history_spec(&self) -> Seq<(usize, usize)> {
        self.history@
    }

    /// The winner, once a terminal state is reached.
    pub closed spec fn winner_spec(&self) -> Option<Winner> {
        self.winner
    }

    /// Whether the game has reached a terminal state.
    pub open spec fn over(&self) -> bool {
        self.winner_spec() is Some
    }

    /// Game-state well-formedness: both boards are well formed and share the
    /// configured size; the opponent's guess history is duplicate free, in
    /// bounds, and disjoint from the human's remaining ships (a guessed ship
    /// is removed at once); and the recorded winner matches which board, if
    /// any, has run out of ships.
    pub closed spec fn wf(&self) -> bool {
        &&& 1 <= self.grid_size <= MAX_GRID_SIZE
        &&& self.human_board.wf()
        &&& self.opponent_board.wf()
        &&& self.human_board.size_spec() == self.grid_size as int
        &&& self.opponent_board.size_spec() == self.grid_size as int
        &&& self.history@.no_duplicates()
        &&& (forall|k: int|
            0 <= k < self.history@.len() ==> (#[trigger] self.history@[k]).0 < self.grid_size
                && self.history@[k].1 < self.grid_size)
        &&& (forall|p: (usize, usize)| #[trigger]
            self.human_board.ship_set().contains(p) ==> !self.history@.contains(p))
        &&& match self.winner {
            Option::None => !self.human_board.ship_set().is_empty()
                && !self.opponent_board.ship_set().is_empty(),
            Option::Some(Winner::Human) => self.opponent_board.ship_set().is_empty(),
            Option::Some(Winner::Opponent) => self.human_board.ship_set().is_empty(),
        }
    }

    /// A fresh game over the given boards' ship positions, with an empty
    /// guess history and no winner yet.
    pub fn new(
        grid_size: usize,
        human_ships: Vec<(usize, usize)>,
        opponent_ships: Vec<(usize, usize)>,
    ) -> (game: GameState)
        requires
            1 <= grid_size <= MAX_GRID_SIZE,
            human_ships@.len() >= 1,
            opponent_ships@.len() >= 1,
            human_ships@.no_duplicates(),
            opponent_ships@.no_duplicates(),
            forall|k: int|
                0 <= k < human_ships@.len() ==> (#[trigger] human_ships@[k]).0 < grid_size
                    && human_ships@[k].1 < grid_size,
            forall|k: int|
                0 <= k < opponent_ships@.len() ==> (#[trigger] opponent_ships@[k]).0 < grid_size
                    && opponent_ships@[k].1 < grid_size,
        ensures
            game.wf(),
            !game.over(),
            game.winner_spec() is None,
            game.grid_size_spec() == grid_size,
            game.human_board_spec().wf(),
            game.opponent_board_spec().wf(),
            game.human_board_spec().size_spec() == grid_size,
            game.opponent_board_spec().size_spec() == grid_size,
            game.human_board_spec().ship_seq() == human_ships@,
            game.opponent_board_spec().ship_seq() == opponent_ships@,
            game.history_spec() == Seq::<(usize, usize)>::empty(),
    {
        let human_board = Board::create(grid_size, human_ships);
        let opponent_board = Board::create(grid_size, opponent_ships);
        let history: Vec<(usize, usize)> = Vec::new();
        proof {
            human_board.lemma_wf_facts();
            opponent_board.lemma_wf_facts();
        }
        GameState { grid_size, human_board, opponent_board, history, winner: Option::None }
    }

    /// A fresh game whose two boards are each seeded with `ship_count`
    /// randomly placed ships.
    pub fn new_random<R: RandomSource>(grid_size: usize, ship_count: usize, rng: &mut R) -> (game:
        GameState)
        requires
            1 <= grid_size <= MAX_GRID_SIZE,
            1 <= ship_count <= grid_size * grid_size,
        ensures
            game.wf(),
            !game.over(),
            game.grid_size_spec() == grid_size,
            game.human_board_spec().wf(),
            game.opponent_board_spec().wf(),
            game.human_board_spec().size_spec() == grid_size,
            game.opponent_board_spec().size_spec() == grid_size,
            game.human_board_spec().ship_seq().len() == ship_count,
            game.opponent_board_spec().ship_seq().len() == ship_count,
            game.history_spec() == Seq::<(usize, usize)>::empty(),
    {
        let human_ships = place_ships(grid_size, ship_count, rng);
        let opponent_ships = place_ships(grid_size, ship_count, rng);
        GameState::new(grid_size, human_ships, opponent_ships)
    }

    /// The side length of both boards.
    pub fn grid_size(&self) -> (n: usize)
        ensures
            n as int == self.grid_size_spec(),
    {
        self.grid_size
    }

    /// The winner, if the game is over.
    pub fn winner(&self) -> (w: Option<Winner>)
        ensures
            w == self.winner_spec(),
    {
        self.winner
    }

    /// Whether the game has reached a terminal state.
    pub fn is_over(&self) -> (over: bool)
        ensures
            over == self.over(),
    {
        match self.winner {
            Option::Some(_) => true,
            Option::None => false,
        }
    }

    /// The human's own board.
    pub fn human_board(&self) -> (board: &Board)
        ensures
            *board == self.human_board_spec(),
    {
        &self.human_board
    }

    /// The opponent's board.
    pub fn opponent_board(&self) -> (board: &Board)
        ensures
            *board == self.opponent_board_spec(),
    {
        &self.opponent_board
    }

    /// Play one round. The human's guess is resolved against the opponent's
    /// board first; if it clears that board the human wins at once and the
    /// opponent does not act. Otherwise the opponent resolves a fresh random
    /// guess against the human's board, the guess is appended to the
    /// history, and an opponent win is detected only then.
    pub fn play_round<R: RandomSource>(&mut self, human_guess: (usize, usize), rng: &mut R) -> (report:
        RoundReport)
        requires
            old(self).wf(),
            !old(self).over(),
            (human_guess.0 as int) < old(self).grid_size_spec(),
            (human_guess.1 as int) < old(self).grid_size_spec(),
        ensures
            final(self).wf(),
            final(self).grid_size_spec() == old(self).grid_size_spec(),
            report.human_guess == human_guess,
            report.winner == final(self).winner_spec(),
            resolves(
                old(self).opponent_board_spec(),
                final(self).opponent_board_spec(),
                human_guess,
                report.human_outcome,
            ),
            final(self).opponent_board_spec().ship_set().is_empty() ==> {
                &&& report.winner == Option::Some(Winner::Human)
                &&& report.opponent_action is None
                &&& final(self).human_board_spec() == old(self).human_board_spec()
                &&& final(self).history_spec() == old(self).history_spec()
            },
            !final(self).opponent_board_spec().ship_set().is_empty() ==> match report.opponent_action {
                Option::Some(action) => {
                    &&& (action.0.0 as int) < old(self).grid_size_spec()
                    &&& (action.0.1 as int) < old(self).grid_size_spec()
                    &&& !old(self).history_spec().contains(action.0)
                    &&& resolves(
                        old(self).human_board_spec(),
                        final(self).human_board_spec(),
                        action.0,
                        action.1,
                    )
                    &&& final(self).history_spec() == old(self).history_spec().push(action.0)
                    &&& report.winner == (if final(self).human_board_spec().ship_set().is_empty() {
                        Option::Some(Winner::Opponent)
                    } else {
                        Option::None::<Winner>
                    })
                },
                Option::None => false,
            },
    {
        let human_outcome = self.opponent_board.apply_guess(human_guess);
        if self.opponent_board.is_defeated() {
            self.winner = Option::Some(Winner::Human);
            return RoundReport {
                human_guess,
                human_outcome,
                opponent_action: Option::None,
                winner: Option::Some(Winner::Human),
            };
        }
        proof {
            self.human_board.lemma_wf_facts();
            let w = choose|p: (usize, usize)| self.human_board.ship_set().contains(p);
            assert(self.human_board.ship_set().contains(w));
            assert((w.0 as int) < self.grid_size as int && (w.1 as int) < self.grid_size as int);
            assert(!self.history@.contains(w));
        }
        let opponent_guess = next_guess(self.grid_size, &self.history, rng);
        let opponent_outcome = self.human_board.apply_guess(opponent_guess);
        let ghost hist_before = self.history@;
        self.history.push(opponent_guess);
        let winner: Option<Winner> = if self.human_board.is_defeated() {
            Option::Some(Winner::Opponent)
        } else {
            Option::None
        };
        self.winner = winner;
        proof {
            assert forall|i: int, j: int|
                0 <= i < j < self.history@.len() implies self.history@[i] != self.history@[j] by {
                if j == self.history@.len() - 1 {
                    assert(hist_before[i] == self.history@[i]);
                    if hist_before[i] == opponent_guess {
                        assert(hist_before.contains(hist_before[i]));
                    }
                }
            }
            assert forall|p: (usize, usize)| #[trigger]
                self.human_board.ship_set().contains(p) implies !self.history@.contains(p) by {
                assert(old(self).human_board_spec().ship_set().contains(p));
                assert(!hist_before.contains(p));
                assert(p != opponent_guess);
                if self.history@.contains(p) {
                    let k = choose|k: int| 0 <= k < self.history@.len() && self.history@[k] == p;
                    if k < self.history@.len() - 1 {
                        assert(hist_before[k] == p);
                        assert(hist_before.contains(p));
                    }
                }
            }
            assert(self.wf());
        }
        RoundReport {
            human_guess,
            human_outcome,
            opponent_action: Option::Some((opponent_guess, opponent_outcome)),
            winner,
        }
    }
}

} // verus!
