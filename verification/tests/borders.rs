use connect_four::{ConnectFour, Player};

/// Plays `columns`, of which only the last move completes a line, and checks
/// that the winner appears with that move, on the four cells of `line`.
fn wins_with_last_move(columns: &[usize], line: [(usize, usize); 4], winner: Player) {
    let mut game = ConnectFour::new();
    let (last, earlier) = columns.split_last().unwrap();
    for &column in earlier {
        assert!(game.play(column).is_ok());
        assert_eq!(game.winner(), None);
        assert!(!game.over());
    }
    assert_eq!(game.player(), winner);
    let row = game.play(*last).unwrap();
    assert!(line.contains(&(row, *last)));
    for (row, column) in line {
        assert_eq!(game.get(row, column), Ok(Some(winner)));
    }
    assert_eq!(game.winner(), Some(winner));
    assert!(game.over());
    assert_eq!(game.turns(), columns.len());
}

#[test]
fn line_in_the_top_right_corner_along_the_top_row() {
    wins_with_last_move(
        &[
            4, 6, 6, 2, 0, 6, 1, 3, 4, 5, 4, 0, 6, 6, 2, 3, 5, 3, 3, 4, 4, 3, 4, 5, 6, 5, 3, 5, 5,
        ],
        [(0, 3), (0, 4), (0, 5), (0, 6)],
        Player::One,
    );
}

#[test]
fn line_in_the_top_left_corner_along_the_top_row() {
    wins_with_last_move(
        &[
            3, 6, 1, 2, 0, 0, 0, 4, 1, 1, 5, 1, 3, 0, 1, 6, 4, 3, 3, 2, 3, 0, 3, 6, 0, 2, 6, 5, 1,
            6, 2, 2, 2,
        ],
        [(0, 0), (0, 1), (0, 2), (0, 3)],
        Player::One,
    );
}

#[test]
fn diagonal_from_the_top_left_corner() {
    wins_with_last_move(
        &[
            0, 0, 4, 2, 4, 5, 2, 6, 0, 2, 4, 3, 5, 2, 6, 3, 2, 3, 1, 6, 1, 1, 0, 0, 6, 0, 1, 1,
        ],
        [(0, 0), (1, 1), (2, 2), (3, 3)],
        Player::Two,
    );
}

#[test]
fn diagonal_from_the_top_right_corner() {
    wins_with_last_move(
        &[
            3, 6, 3, 4, 4, 2, 2, 3, 2, 0, 2, 0, 1, 4, 0, 6, 5, 5, 3, 3, 6, 6, 5, 4, 3, 4, 5, 5, 6,
            6,
        ],
        [(0, 6), (1, 5), (2, 4), (3, 3)],
        Player::Two,
    );
}

#[test]
fn diagonal_to_the_bottom_right_corner() {
    wins_with_last_move(
        &[6, 4, 3, 5, 0, 0, 5, 2, 6, 3, 2, 4, 3, 1, 4, 2, 1, 1, 1, 4, 6, 6, 3],
        [(2, 3), (3, 4), (4, 5), (5, 6)],
        Player::One,
    );
}

#[test]
fn diagonal_to_the_bottom_left_corner() {
    wins_with_last_move(
        &[
            1, 1, 5, 0, 2, 6, 3, 2, 5, 5, 5, 2, 5, 3, 1, 2, 0, 6, 1, 0, 3, 0, 6, 0, 1, 3,
        ],
        [(2, 3), (3, 2), (4, 1), (5, 0)],
        Player::Two,
    );
}

#[test]
fn column_to_the_top_of_the_last_column() {
    wins_with_last_move(
        &[
            6, 1, 0, 6, 0, 1, 6, 3, 4, 2, 3, 4, 5, 5, 1, 2, 5, 1, 6, 1, 1, 2, 5, 0, 6, 5, 6,
        ],
        [(0, 6), (1, 6), (2, 6), (3, 6)],
        Player::One,
    );
}

#[test]
fn bottom_row_from_the_first_column() {
    wins_with_last_move(
        &[0, 0, 1, 1, 2, 2, 3],
        [(5, 0), (5, 1), (5, 2), (5, 3)],
        Player::One,
    );
}

#[test]
fn bottom_row_to_the_last_column() {
    wins_with_last_move(
        &[3, 3, 4, 4, 5, 5, 6],
        [(5, 3), (5, 4), (5, 5), (5, 6)],
        Player::One,
    );
}

#[test]
fn first_column_from_the_bottom() {
    wins_with_last_move(
        &[0, 1, 0, 1, 0, 1, 0],
        [(2, 0), (3, 0), (4, 0), (5, 0)],
        Player::One,
    );
}

#[test]
fn three_in_a_corner_do_not_win() {
    // Player one holds (5, 4), (5, 5), (5, 6) and (3, 6), (4, 6), (5, 6).
    let mut game = ConnectFour::new();
    for column in [6, 0, 6, 0, 6, 1, 5, 1, 4] {
        assert!(game.play(column).is_ok());
        assert_eq!(game.winner(), None);
    }
    assert_eq!(game.get(5, 4), Ok(Some(Player::One)));
    assert_eq!(game.get(5, 5), Ok(Some(Player::One)));
    assert_eq!(game.get(5, 6), Ok(Some(Player::One)));
    assert_eq!(game.get(3, 6), Ok(Some(Player::One)));
    assert!(!game.over());
    // Player two closes the row; player one then completes the column.
    assert_eq!(game.play(3), Ok(5));
    assert_eq!(game.winner(), None);
    assert_eq!(game.play(6), Ok(2));
    assert_eq!(game.winner(), Some(Player::One));
}
