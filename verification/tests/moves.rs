use ticktacktoe::Command;
use ticktacktoe::Game;
use ticktacktoe::Player;
use ticktacktoe::State;

const N: Player = Player::Naughts;
const C: Player = Player::Crosses;

fn play(state: &mut State, moves: &[(usize, usize)]) {
    for &(col, row) in moves {
        assert!(state.can_place(col, row));
        state.place(col, row);
    }
}

fn marks(state: &State) -> usize {
    state.grid.iter().flatten().filter(|cell| cell.is_some()).count()
}

#[test]
fn place_writes_the_mark_and_passes_the_turn() {
    let mut state = State::new(3, 3, false);
    state.place(1, 2);
    assert_eq!(state.grid[1][2], Some(N));
    assert_eq!(marks(&state), 1);
    assert_eq!(state.turn, C);
    assert_eq!(state.winner, None);
    state.place(0, 0);
    assert_eq!(state.grid[0][0], Some(C));
    assert_eq!(marks(&state), 2);
    assert_eq!(state.turn, N);
    assert_eq!(state.winner, None);
}

#[test]
fn place_on_a_taken_cell_is_no_move() {
    let mut state = State::new(3, 3, false);
    state.place(1, 1);
    let before = state.snapshot();
    state.place(1, 1);
    assert_eq!(state.grid, before.grid);
    assert_eq!(state.turn, C);
    assert_eq!(state.winner, None);
}

#[test]
fn three_across_the_columns_win() {
    let mut state = State::new(3, 3, false);
    play(&mut state, &[(0, 0), (0, 1), (1, 0), (1, 1), (2, 0)]);
    assert_eq!(state.winner, Some((N, ((2, 0), (0, 0)))));
    assert_eq!(state.turn, C);
}

#[test]
fn three_down_a_column_win() {
    let mut state = State::new(3, 3, false);
    play(&mut state, &[(0, 0), (1, 0), (0, 1), (1, 1), (0, 2)]);
    assert_eq!(state.winner, Some((N, ((0, 2), (0, 0)))));
}

#[test]
fn three_on_the_falling_diagonal_win() {
    let mut state = State::new(3, 3, false);
    play(&mut state, &[(0, 0), (1, 0), (1, 1), (2, 0), (2, 2)]);
    assert_eq!(state.winner, Some((N, ((2, 2), (0, 0)))));
}

#[test]
fn three_on_the_rising_diagonal_win() {
    let mut state = State::new(3, 3, false);
    play(&mut state, &[(2, 0), (0, 0), (1, 1), (1, 0), (0, 2)]);
    assert_eq!(state.winner, Some((N, ((0, 2), (2, 0)))));
}

#[test]
fn line_completed_from_the_middle() {
    let mut state = State::new(3, 3, false);
    play(&mut state, &[(0, 0), (1, 0), (2, 2), (2, 0), (1, 1)]);
    assert_eq!(state.winner, Some((N, ((2, 2), (0, 0)))));
    let mut state = State::new(3, 3, false);
    play(&mut state, &[(0, 1), (0, 0), (2, 1), (2, 2), (1, 1)]);
    assert_eq!(state.winner, Some((N, ((2, 1), (0, 1)))));
}

#[test]
fn crosses_completing_a_line_are_the_winner() {
    let mut state = State::new(3, 3, false);
    play(&mut state, &[(0, 0), (0, 2), (1, 0), (1, 2), (1, 1), (2, 2)]);
    assert_eq!(state.winner, Some((C, ((2, 2), (0, 2)))));
    assert_eq!(state.turn, N);
}

#[test]
fn two_in_a_line_do_not_win() {
    let mut state = State::new(3, 3, false);
    play(&mut state, &[(0, 0), (2, 2), (1, 0), (2, 1)]);
    assert_eq!(state.winner, None);
    assert_eq!(marks(&state), 4);
    assert_eq!(state.turn, N);
}

#[test]
fn first_axis_in_order_is_recorded() {
    let mut state = State::new(3, 3, false);
    state.grid[0][0] = Some(N);
    state.grid[1][0] = Some(N);
    state.grid[2][1] = Some(N);
    state.grid[2][2] = Some(N);
    state.place(2, 0);
    assert_eq!(state.winner, Some((N, ((2, 0), (0, 0)))));
    let mut state = State::new(3, 3, false);
    state.grid[2][1] = Some(N);
    state.grid[2][2] = Some(N);
    state.grid[1][1] = Some(N);
    state.grid[0][2] = Some(N);
    state.place(2, 0);
    assert_eq!(state.winner, Some((N, ((2, 2), (2, 0)))));
    let mut state = State::new(3, 3, false);
    state.grid[0][0] = Some(N);
    state.grid[2][2] = Some(N);
    state.grid[2][0] = Some(N);
    state.grid[0][2] = Some(N);
    state.place(1, 1);
    assert_eq!(state.winner, Some((N, ((2, 2), (0, 0)))));
}

#[test]
fn longer_line_than_needed_wins_with_its_full_extent() {
    let mut state = State::new(5, 3, false);
    for col in [0, 1, 3, 4] {
        state.grid[col][2] = Some(N);
    }
    state.place(2, 2);
    assert_eq!(state.winner, Some((N, ((4, 2), (0, 2)))));
}

#[test]
fn four_needed_on_a_larger_grid() {
    let mut state = State::new(5, 4, false);
    play(&mut state, &[(1, 1), (0, 4), (2, 2), (1, 4), (3, 3)]);
    assert_eq!(state.winner, None);
    play(&mut state, &[(2, 4), (4, 4)]);
    assert_eq!(state.winner, Some((N, ((4, 4), (1, 1)))));
}

#[test]
fn win_condition_of_one_ends_the_game_at_once() {
    let mut state = State::new(3, 1, false);
    state.place(1, 2);
    assert_eq!(state.winner, Some((N, ((1, 2), (1, 2)))));
    assert_eq!(state.turn, C);
}

#[test]
fn win_condition_of_zero_ends_the_game_at_once() {
    let mut state = State::new(2, 0, false);
    state.place(0, 1);
    assert_eq!(state.winner, Some((N, ((0, 1), (0, 1)))));
}

#[test]
fn win_condition_beyond_the_side_is_never_met() {
    let mut state = State::new(2, 3, false);
    play(&mut state, &[(0, 0), (0, 1), (1, 0), (1, 1)]);
    assert_eq!(state.winner, None);
    assert_eq!(marks(&state), 4);
    assert_eq!(state.turn, N);
}

#[test]
fn nothing_moves_once_the_game_is_won() {
    let mut state = State::new(3, 3, false);
    play(&mut state, &[(0, 0), (0, 1), (1, 0), (1, 1), (2, 0)]);
    let won = state.snapshot();
    state.place(2, 2);
    assert_eq!(state.grid, won.grid);
    assert_eq!(state.turn, won.turn);
    assert_eq!(state.winner, won.winner);
    assert!(state.can_place(17, 99));
    state.place(17, 99);
    assert_eq!(state.grid, won.grid);
    assert_eq!(state.winner, won.winner);
}

#[test]
fn gravity_drops_the_mark_to_the_bottom() {
    let mut state = State::new(3, 3, true);
    state.place(0, 0);
    assert_eq!(state.grid[0], vec![None, None, Some(N)]);
    state.place(0, 0);
    assert_eq!(state.grid[0], vec![None, Some(C), Some(N)]);
    state.place(0, 2);
    assert_eq!(state.grid[0], vec![Some(N), Some(C), Some(N)]);
    assert_eq!(state.turn, C);
    assert_eq!(state.winner, None);
}

#[test]
fn gravity_refuses_a_full_column() {
    let mut state = State::new(2, 3, true);
    play(&mut state, &[(1, 0), (1, 0)]);
    assert_eq!(state.grid[1], vec![Some(C), Some(N)]);
    assert_eq!(state.turn, N);
    state.place(1, 1);
    assert_eq!(state.grid[1], vec![Some(C), Some(N)]);
    assert_eq!(marks(&state), 2);
    assert_eq!(state.turn, N);
}

#[test]
fn gravity_does_not_look_at_the_row() {
    let mut state = State::new(3, 3, true);
    assert!(state.can_place(1, 99));
    state.place(1, 99);
    assert_eq!(state.grid[1], vec![None, None, Some(N)]);
    assert_eq!(state.turn, C);
}

#[test]
fn gravity_refuses_a_column_whose_top_is_taken() {
    let mut state = State::new(3, 3, true);
    state.grid[0][0] = Some(C);
    state.place(0, 2);
    assert_eq!(state.grid[0], vec![Some(C), None, None]);
    assert_eq!(state.turn, N);
}

#[test]
fn gravity_falls_past_a_hanging_mark() {
    let mut state = State::new(4, 3, true);
    state.grid[2][1] = Some(C);
    state.place(2, 0);
    assert_eq!(state.grid[2], vec![None, Some(C), None, Some(N)]);
    state.place(2, 0);
    assert_eq!(state.grid[2], vec![None, Some(C), Some(C), Some(N)]);
    state.place(2, 3);
    assert_eq!(state.grid[2], vec![Some(N), Some(C), Some(C), Some(N)]);
}

#[test]
fn gravity_win_along_the_bottom() {
    let mut state = State::new(3, 3, true);
    play(&mut state, &[(0, 0), (0, 0), (1, 0), (1, 0), (2, 0)]);
    assert_eq!(state.grid[2], vec![None, None, Some(N)]);
    assert_eq!(state.winner, Some((N, ((2, 2), (0, 2)))));
}

#[test]
fn gravity_win_up_a_column() {
    let mut state = State::new(4, 3, true);
    play(&mut state, &[(1, 0), (0, 0), (1, 0), (0, 0), (1, 0)]);
    assert_eq!(state.grid[1], vec![None, Some(N), Some(N), Some(N)]);
    assert_eq!(state.winner, Some((N, ((1, 3), (1, 1)))));
}

#[test]
fn can_place_tells_which_moves_address_the_grid() {
    let state = State::new(3, 3, false);
    assert!(state.can_place(0, 0));
    assert!(state.can_place(2, 2));
    assert!(!state.can_place(3, 0));
    assert!(!state.can_place(0, 3));
    let state = State::new(3, 3, true);
    assert!(state.can_place(2, 3));
    assert!(!state.can_place(3, 0));
    let state = State::new(0, 3, true);
    assert!(!state.can_place(0, 0));
}

#[test]
fn simulate_places_a_move() {
    let mut game = Game { state: State::new(3, 3, false) };
    game.simulate(Command::Place(2, 1));
    assert_eq!(game.state.grid[2][1], Some(N));
    assert_eq!(marks(&game.state), 1);
    assert_eq!(game.state.turn, C);
}

#[test]
fn simulate_plays_a_game_to_its_end() {
    let mut game = Game { state: State::new(3, 3, false) };
    for (col, row) in [(1, 1), (0, 0), (1, 0), (2, 2), (1, 2), (0, 2)] {
        game.simulate(Command::Place(col, row));
    }
    assert_eq!(game.state.winner, Some((N, ((1, 2), (1, 0)))));
    assert_eq!(marks(&game.state), 5);
    assert_eq!(game.state.turn, C);
}

#[test]
fn simulate_restart_clears_the_grid_and_keeps_the_settings() {
    let mut game = Game { state: State::new(4, 1, true) };
    game.simulate(Command::Place(3, 0));
    assert!(game.state.winner.is_some());
    assert_eq!(game.state.turn, C);
    game.simulate(Command::Restart);
    assert_eq!(game.state.winner, None);
    assert_eq!(game.state.turn, N);
    assert_eq!(marks(&game.state), 0);
    assert_eq!(game.state.grid.len(), 4);
    assert_eq!(game.state.size, 4);
    assert_eq!(game.state.win, 1);
    assert!(game.state.gravity);
}

#[test]
fn simulate_ignores_the_commands_of_the_lobby() {
    let mut game = Game { state: State::new(3, 3, false) };
    game.simulate(Command::Place(0, 0));
    for cmd in [
        Command::StartGame,
        Command::SetWinCondition(1),
        Command::SetGridSize(9),
        Command::SetGravity(true),
    ] {
        game.simulate(cmd);
        assert_eq!(game.state.size, 3);
        assert_eq!(game.state.win, 3);
        assert!(!game.state.gravity);
        assert_eq!(game.state.turn, C);
        assert_eq!(game.state.winner, None);
        assert_eq!(game.state.grid[0][0], Some(N));
        assert_eq!(marks(&game.state), 1);
    }
}

#[test]
fn can_simulate_checks_moves_only() {
    let game = Game { state: State::new(3, 3, false) };
    assert!(game.can_simulate(Command::Place(2, 2)));
    assert!(!game.can_simulate(Command::Place(3, 2)));
    assert!(!game.can_simulate(Command::Place(0, u32::MAX)));
    assert!(game.can_simulate(Command::Restart));
    assert!(game.can_simulate(Command::StartGame));
    assert!(game.can_simulate(Command::SetGridSize(0)));
}

#[test]
fn simulate_records_the_player_who_drew_the_line() {
    let mut game = Game { state: State::new(3, 3, false) };
    for (col, row) in [(0, 0), (0, 1), (1, 0), (1, 1)] {
        game.simulate(Command::Place(col, row));
        assert_eq!(game.state.winner, None);
    }
    game.simulate(Command::Place(2, 0));
    assert_eq!(game.state.winner, Some((N, ((2, 0), (0, 0)))));
    assert_eq!(game.state.turn, C);
    let mut game = Game { state: State::new(3, 3, false) };
    for (col, row) in [(2, 2), (0, 0), (0, 1), (1, 0), (1, 1), (2, 0)] {
        game.simulate(Command::Place(col, row));
    }
    assert_eq!(game.state.winner, Some((C, ((2, 0), (0, 0)))));
    assert_eq!(game.state.turn, N);
}
