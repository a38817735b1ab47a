use connect_four::{Animation, ConnectFour, Error, Game, Key, Message, Player};

/// Lets the falling disc arrive and be taken away.
fn settle(session: &mut Game) {
    while session.animation().is_some() {
        session.tick_animation(true);
    }
}

/// Drops a disc into the selected column and waits for it to arrive.
fn drop_and_settle(session: &mut Game) {
    session.handle_play();
    settle(session);
}

/// Moves the cursor to the right until it selects `column`, which has room.
fn select(session: &mut Game, column: usize) {
    while session.selected_column() != column {
        session.move_right();
    }
}

const DRAWN_COLUMNS: [usize; 42] = [
    0, 0, 0, 0, 0, 0, 1, 1, 1, 1, 1, 1, 2, 2, 2, 2, 2, 2, 6, 3, 3, 3, 3, 3, 3, 4, 4, 4, 4, 4, 4, 5,
    5, 5, 5, 5, 5, 6, 6, 6, 6, 6,
];

#[test]
fn player_names() {
    assert_eq!(Player::One.to_str(), "Player 1");
    assert_eq!(Player::Two.to_str(), "Player 2");
}

#[test]
fn new_session_selects_the_first_column() {
    let session = Game::new();
    assert_eq!(session.selected_column(), 0);
    assert_eq!(session.animation(), None);
    assert!(session.looping());
    assert_eq!(session.message(), Message::Turn(Player::One));
    assert_eq!(session.arrow_padding(), 1);
    assert_eq!(*session.game(), ConnectFour::new());
}

#[test]
fn cursor_wraps_around_the_edges() {
    let mut session = Game::new();
    session.move_left();
    assert_eq!(session.selected_column(), 6);
    assert_eq!(session.arrow_padding(), 13);
    session.move_right();
    assert_eq!(session.selected_column(), 0);
    session.move_right();
    assert_eq!(session.selected_column(), 1);
    assert_eq!(session.arrow_padding(), 3);
    session.move_left();
    assert_eq!(session.selected_column(), 0);
}

#[test]
fn first_disc_falls_from_the_top_row() {
    let mut session = Game::new();
    assert!(session.handle_play());
    assert_eq!(
        session.animation(),
        Some(Animation { current_row: 0, target_row: 5, column: 0 })
    );
    assert_eq!(session.game().get(5, 0), Ok(Some(Player::One)));
    assert_eq!(session.game().turns(), 1);
    assert_eq!(session.message(), Message::Turn(Player::Two));
    assert_eq!(session.selected_column(), 0);
}

#[test]
fn falling_disc_is_shown_where_it_is() {
    let mut session = Game::new();
    session.handle_play();
    assert_eq!(session.cell_shown(0, 0), Ok(Some(Player::One)));
    assert_eq!(session.cell_shown(5, 0), Ok(None));
    assert_eq!(session.cell_shown(3, 0), Ok(None));
    assert!(session.tick_animation(true));
    assert_eq!(session.cell_shown(0, 0), Ok(None));
    assert_eq!(session.cell_shown(1, 0), Ok(Some(Player::One)));
    assert_eq!(session.cell_shown(5, 0), Ok(None));
    settle(&mut session);
    assert_eq!(session.cell_shown(5, 0), Ok(Some(Player::One)));
    assert_eq!(session.cell_shown(1, 0), Ok(None));
}

#[test]
fn cell_outside_the_grid_is_not_shown() {
    let mut session = Game::new();
    session.handle_play();
    assert_eq!(session.cell_shown(6, 0), Err(Error::OutOfBounds));
    assert_eq!(session.cell_shown(0, 7), Err(Error::OutOfBounds));
    assert_eq!(session.cell_shown(5, 6), Ok(None));
}

#[test]
fn disc_falls_one_row_for_each_step_that_is_due() {
    let mut session = Game::new();
    session.handle_play();
    assert!(!session.tick_animation(false));
    assert_eq!(
        session.animation(),
        Some(Animation { current_row: 0, target_row: 5, column: 0 })
    );
    for row in 1..=5 {
        assert!(session.tick_animation(true));
        assert_eq!(
            session.animation(),
            Some(Animation { current_row: row, target_row: 5, column: 0 })
        );
    }
    assert!(!session.tick_animation(false));
    assert_eq!(session.animation(), None);
    assert!(!session.tick_animation(true));
    assert_eq!(session.animation(), None);
}

#[test]
fn no_disc_is_dropped_while_one_is_falling() {
    let mut session = Game::new();
    assert!(session.handle_play());
    let before = session;
    assert!(!session.handle_play());
    assert_eq!(session, before);
    settle(&mut session);
    assert!(session.handle_play());
    assert_eq!(session.game().turns(), 2);
    assert_eq!(
        session.animation(),
        Some(Animation { current_row: 0, target_row: 4, column: 0 })
    );
}

#[test]
fn cursor_leaves_a_column_that_is_filled() {
    let mut session = Game::new();
    for _ in 0..5 {
        drop_and_settle(&mut session);
        assert_eq!(session.selected_column(), 0);
    }
    // The sixth disc rests in the top row: nothing falls.
    assert!(!session.handle_play());
    assert_eq!(session.animation(), None);
    assert_eq!(session.game().is_column_full(0), Ok(true));
    assert_eq!(session.selected_column(), 1);
    assert_eq!(session.game().turns(), 6);
}

#[test]
fn cursor_skips_full_columns() {
    let mut session = Game::new();
    select(&mut session, 1);
    for _ in 0..6 {
        drop_and_settle(&mut session);
    }
    assert_eq!(session.selected_column(), 2);
    session.move_left();
    assert_eq!(session.selected_column(), 0);
    session.move_right();
    assert_eq!(session.selected_column(), 2);
    for _ in 0..6 {
        drop_and_settle(&mut session);
    }
    assert_eq!(session.selected_column(), 3);
    session.move_left();
    assert_eq!(session.selected_column(), 0);
    session.move_left();
    assert_eq!(session.selected_column(), 6);
    session.move_right();
    session.move_right();
    assert_eq!(session.selected_column(), 3);
}

#[test]
fn cursor_stays_on_the_only_column_with_room() {
    let mut session = Game::new();
    // All of the drawn game but the last five discs, which go to column 6.
    for &column in &DRAWN_COLUMNS[..37] {
        while session.selected_column() != column {
            session.move_right();
        }
        drop_and_settle(&mut session);
    }
    assert_eq!(session.selected_column(), 6);
    session.move_right();
    assert_eq!(session.selected_column(), 6);
    session.move_left();
    assert_eq!(session.selected_column(), 6);
}

#[test]
fn winner_is_announced_and_the_board_is_frozen() {
    let mut session = Game::new();
    for column in [0, 0, 1, 1, 2, 2, 3] {
        while session.selected_column() != column {
            if session.selected_column() < column {
                session.move_right();
            } else {
                session.move_left();
            }
        }
        drop_and_settle(&mut session);
    }
    assert_eq!(session.message(), Message::Won(Player::One));
    assert!(session.game().over());
    let before = session;
    assert!(!session.handle_play());
    session.move_left();
    session.move_right();
    assert_eq!(session, before);
    assert_eq!(session.selected_column(), 3);
}

#[test]
fn full_board_is_announced_as_a_draw() {
    let mut session = Game::new();
    for &column in DRAWN_COLUMNS.iter() {
        while session.selected_column() != column {
            session.move_right();
        }
        assert!(matches!(session.message(), Message::Turn(_)));
        drop_and_settle(&mut session);
    }
    assert_eq!(session.game().turns(), 42);
    assert_eq!(session.message(), Message::Draw);
    let before = session;
    session.move_right();
    session.move_left();
    assert!(!session.handle_play());
    assert_eq!(session, before);
}

#[test]
fn restart_gives_a_new_game() {
    let mut session = Game::new();
    session.move_right();
    session.move_right();
    drop_and_settle(&mut session);
    drop_and_settle(&mut session);
    drop_and_settle(&mut session);
    session.handle_restart();
    assert_eq!(session.selected_column(), 0);
    assert_eq!(*session.game(), ConnectFour::new());
    assert_eq!(session.message(), Message::Turn(Player::One));
    assert!(session.looping());
}

#[test]
fn restart_lets_a_falling_disc_go_on() {
    let mut session = Game::new();
    session.handle_play();
    session.tick_animation(true);
    session.handle_restart();
    assert_eq!(
        session.animation(),
        Some(Animation { current_row: 1, target_row: 5, column: 0 })
    );
    assert_eq!(session.cell_shown(1, 0), Ok(None));
    assert_eq!(session.cell_shown(5, 0), Ok(None));
}

#[test]
fn quit_ends_the_session() {
    let mut session = Game::new();
    session.handle_play();
    let before = session;
    session.quit();
    assert!(!session.looping());
    assert_eq!(session.game(), before.game());
    assert_eq!(session.animation(), before.animation());
    assert_eq!(session.selected_column(), before.selected_column());
}

#[test]
fn keys_do_what_they_stand_for() {
    let mut session = Game::new();
    assert!(!session.handle_key_event(Key::Right));
    assert_eq!(session.selected_column(), 1);
    assert!(!session.handle_key_event(Key::Left));
    assert_eq!(session.selected_column(), 0);
    assert!(session.handle_key_event(Key::Enter));
    assert_eq!(session.game().turns(), 1);
    settle(&mut session);
    assert!(session.handle_key_event(Key::Char(' ')));
    assert_eq!(session.game().turns(), 2);
    assert_eq!(session.game().get(4, 0), Ok(Some(Player::Two)));
    // A disc is falling: the play keys do nothing.
    assert!(!session.handle_key_event(Key::Enter));
    assert_eq!(session.game().turns(), 2);
    settle(&mut session);
    let before = session;
    assert!(!session.handle_key_event(Key::Char('x')));
    assert!(!session.handle_key_event(Key::Char('R')));
    assert!(!session.handle_key_event(Key::Other));
    assert_eq!(session, before);
    assert!(!session.handle_key_event(Key::Char('r')));
    assert_eq!(*session.game(), ConnectFour::new());
    assert!(session.looping());
    assert!(!session.handle_key_event(Key::Esc));
    assert!(!session.looping());
}
