use rustgames::cube_game::{GameSession, GameState, GameStatus};
use rustgames::puzzle::PuzzleState;

#[test]
fn test_initialization() {
    let mut session = GameSession::new();
    let result = session.game_initialize(1280, 720);
    assert_eq!(result, 0);
    let result = session.game_cleanup();
    assert_eq!(result, 0);
}

#[test]
fn second_initialize_is_refused() {
    let mut session = GameSession::new();
    assert_eq!(session.game_initialize(800, 600), 0);
    assert_eq!(session.game_add_score(7), 0);
    assert_eq!(session.game_initialize(800, 600), -1);
    assert_eq!(session.game_get_state().score, 7);
    assert_eq!(session.game_cleanup(), 0);
    assert_eq!(session.game_initialize(800, 600), 0);
    assert_eq!(session.game_get_state().score, 0);
}

#[test]
fn calls_without_a_game_are_refused() {
    let mut session = GameSession::new();
    assert_eq!(session.game_move_cube(1, 0, 0, 1), -1);
    assert_eq!(session.game_reset(), -1);
    assert_eq!(session.game_add_score(3), -1);
    assert_eq!(session.game_cleanup(), 0);
    assert_eq!(
        session.game_get_state(),
        GameStatus { score: 0, moves: 0, is_won: false, puzzle_move_count: 0 }
    );
}

#[test]
fn session_moves_count_and_reset() {
    let mut session = GameSession::new();
    assert_eq!(session.game_initialize(1280, 720), 0);
    // cube 1 sits at (0, 0, 0); one step up is free
    assert_eq!(session.game_move_cube(1, 0, 0, 1), 0);
    // cube 2 at (1, 0, 0) cannot move onto cube 3 at (0, 1, 0)
    assert_eq!(session.game_move_cube(2, -1, 1, 0), -1);
    // off the grid
    assert_eq!(session.game_move_cube(1, 9, 0, 0), -1);
    // no such cube
    assert_eq!(session.game_move_cube(9, 0, 0, 1), -1);
    let st = session.game_get_state();
    assert_eq!(st.moves, 1);
    assert_eq!(st.puzzle_move_count, 1);
    assert!(!st.is_won);
    assert_eq!(session.game_add_score(40), 0);
    assert_eq!(session.game_reset(), 0);
    let st = session.game_get_state();
    assert_eq!(st, GameStatus { score: 0, moves: 0, is_won: false, puzzle_move_count: 0 });
}

#[test]
fn session_wins_when_every_cube_is_on_its_goal() {
    let mut session = GameSession::new();
    assert_eq!(session.game_initialize(1, 1), 0);
    for id in 1..=4u32 {
        assert_eq!(session.game_move_cube(id, 0, 0, 2), 0);
    }
    let st = session.game_get_state();
    assert!(st.is_won);
    assert_eq!(st.moves, 4);
}

#[test]
fn game_move_counter_follows_puzzle() {
    let mut g = GameState::new();
    assert!(g.move_cube(4, (0, 0, 3)));
    assert_eq!(g.moves, g.puzzle.move_count);
    assert!(!g.move_cube(4, (0, 0, 9)));
    assert_eq!(g.moves, 1);
    g.score = 12;
    g.reset();
    assert_eq!(g.score, 0);
    assert_eq!(g.moves, 0);
    assert_eq!(g.puzzle.move_count, 0);
    assert_eq!(g.puzzle.state, PuzzleState::Playing);
}
