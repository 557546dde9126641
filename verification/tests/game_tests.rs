use battleships::board::Outcome;
use battleships::game::{GameState, Winner};
use battleships::random::{ScriptedRandom, SystemRandom};

#[test]
fn human_win_short_circuits_the_round() {
    // a 2-sided grid with one ship each; the opponent's ship sits at (0, 0)
    let mut game = GameState::new(2, vec![(1, 1)], vec![(0, 0)]);
    let mut rng = ScriptedRandom::new(vec![0]);
    assert!(!game.is_over());
    let report = game.play_round((0, 0), &mut rng);
    assert_eq!(report.human_guess, (0, 0));
    assert_eq!(report.human_outcome, Outcome::Hit);
    assert!(game.opponent_board().is_defeated());
    assert_eq!(report.winner, Some(Winner::Human));
    assert_eq!(game.winner(), Some(Winner::Human));
    // the opponent never acted this round
    assert!(report.opponent_action.is_none());
    assert!(!game.human_board().is_defeated());
    assert!(game.is_over());
}

#[test]
fn one_cell_game_ends_at_once() {
    // on a 1-sided grid the only coordinate is a ship on both boards
    let mut game = GameState::new(1, vec![(0, 0)], vec![(0, 0)]);
    let mut rng = SystemRandom;
    let report = game.play_round((0, 0), &mut rng);
    assert_eq!(report.human_outcome, Outcome::Hit);
    assert_eq!(report.winner, Some(Winner::Human));
    assert!(report.opponent_action.is_none());
    assert!(game.is_over());
}

#[test]
fn opponent_win_is_detected_after_its_guess() {
    // the human's ship sits at (1, 1) on a 3-sided grid; the opponent's
    // first guess is forced onto (1, 1): with an empty history the free
    // cells are all nine in row-major order, so index 4 picks (1, 1)
    let mut game = GameState::new(3, vec![(1, 1)], vec![(2, 2)]);
    let mut rng = ScriptedRandom::new(vec![4]);
    let report = game.play_round((0, 0), &mut rng);
    assert_eq!(report.human_outcome, Outcome::Miss);
    let (guess, outcome) = report.opponent_action.expect("the opponent acts");
    assert_eq!(guess, (1, 1));
    assert_eq!(outcome, Outcome::Hit);
    assert!(game.human_board().is_defeated());
    assert_eq!(report.winner, Some(Winner::Opponent));
    assert_eq!(game.winner(), Some(Winner::Opponent));
}

#[test]
fn mutual_misses_leave_the_game_running() {
    // both sides miss: the round reports no winner and the game goes on
    let mut game = GameState::new(3, vec![(1, 1)], vec![(2, 2)]);
    // the opponent's scripted draw picks index 0 of the free cells: (0, 0)
    let mut rng = ScriptedRandom::new(vec![0]);
    let report = game.play_round((0, 1), &mut rng);
    assert_eq!(report.human_outcome, Outcome::Miss);
    assert_eq!(report.opponent_action, Some(((0, 0), Outcome::Miss)));
    assert_eq!(report.winner, None);
    assert!(!game.is_over());
    assert_eq!(game.human_board().remaining_ships(), 1);
    assert_eq!(game.opponent_board().remaining_ships(), 1);
}

#[test]
fn opponent_guesses_never_repeat() {
    // the opponent needs many rounds: its guesses must all differ
    let mut game = GameState::new(3, vec![(0, 0)], vec![(0, 0), (1, 1), (2, 2)]);
    let mut rng = SystemRandom;
    let mut seen: Vec<(usize, usize)> = Vec::new();
    // the human deliberately misses every round
    let misses = [(0, 1), (0, 2), (1, 0), (1, 2), (2, 0)];
    for &guess in &misses {
        if game.is_over() {
            break;
        }
        let report = game.play_round(guess, &mut rng);
        assert_eq!(report.human_outcome, Outcome::Miss);
        if let Some((opponent_guess, _)) = report.opponent_action {
            assert!(!seen.contains(&opponent_guess));
            seen.push(opponent_guess);
        }
    }
}

#[test]
fn random_game_reaches_a_winner() {
    let mut rng = SystemRandom;
    let mut game = GameState::new_random(2, 1, &mut rng);
    assert_eq!(game.grid_size(), 2);
    let guesses = [(0, 0), (0, 1), (1, 0), (1, 1)];
    for &guess in &guesses {
        if game.is_over() {
            break;
        }
        game.play_round(guess, &mut rng);
    }
    assert!(game.is_over());
    assert!(game.winner().is_some());
}

#[test]
fn new_random_seeds_both_boards() {
    let mut rng = SystemRandom;
    let game = GameState::new_random(4, 5, &mut rng);
    assert_eq!(game.human_board().remaining_ships(), 5);
    assert_eq!(game.opponent_board().remaining_ships(), 5);
    assert_eq!(game.human_board().size(), 4);
    assert_eq!(game.opponent_board().size(), 4);
    assert!(game.winner().is_none());
}
