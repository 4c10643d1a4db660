use arcade_games::games::flappy_bird::FlappyBirdGame;
use arcade_games::games::game_state::{
    leaderboard_rows, ActiveGame, GameKind, GameState, ScoreEntry, ScoreRow,
};
use arcade_games::games::snake::SnakeGame;
use arcade_games::geometry::Rect;
use arcade_games::input::{Key, MouseButton};

fn snake_of(state: &GameState) -> &SnakeGame {
    match &state.active_game {
        ActiveGame::Snake(game) => game,
        other => panic!("no snake game on screen: {:?}", other),
    }
}

fn bird_of(state: &GameState) -> &FlappyBirdGame {
    match &state.active_game {
        ActiveGame::FlappyBird(game) => game,
        other => panic!("no pipe game on screen: {:?}", other),
    }
}

#[test]
fn arcade_starts_on_the_menu() {
    let state = GameState::new();
    assert_eq!(state.active_game, ActiveGame::Menu);
    assert_eq!(state.flappy_button, Rect { x: 2500, y: 2000, w: 3000, h: 600 });
    assert_eq!(state.snake_button, Rect { x: 2500, y: 3000, w: 3000, h: 600 });
    assert_eq!(state.leaderboard_button, Rect { x: 2500, y: 4000, w: 3000, h: 600 });
}

#[test]
fn digit_keys_start_the_games() {
    let mut state = GameState::new();
    assert_eq!(state.key_down_event(Key::Key1), None);
    assert_eq!(state.active_game, ActiveGame::FlappyBird(FlappyBirdGame::new()));
    let mut state = GameState::new();
    assert_eq!(state.key_down_event(Key::Key2), None);
    assert_eq!(state.active_game, ActiveGame::Snake(SnakeGame::new(40)));
}

#[test]
fn other_keys_do_nothing_on_the_menu() {
    let mut state = GameState::new();
    for key in [Key::Up, Key::Down, Key::Left, Key::Right, Key::Space, Key::Escape, Key::Other] {
        assert_eq!(state.key_down_event(key), None);
        assert_eq!(state.active_game, ActiveGame::Menu);
    }
}

#[test]
fn digit_keys_do_not_restart_a_game() {
    let mut state = GameState::new();
    state.key_down_event(Key::Key2);
    state.key_down_event(Key::Up);
    state.key_down_event(Key::Key1);
    state.key_down_event(Key::Key2);
    assert_eq!(snake_of(&state).direction, (0, -1));
}

#[test]
fn left_click_on_a_button_starts_its_game() {
    let mut state = GameState::new();
    state.mouse_button_down_event(MouseButton::Left, 4000, 2300);
    assert_eq!(state.active_game, ActiveGame::FlappyBird(FlappyBirdGame::new()));
    let mut state = GameState::new();
    state.mouse_button_down_event(MouseButton::Left, 4000, 3300);
    assert_eq!(state.active_game, ActiveGame::Snake(SnakeGame::new(40)));
    let mut state = GameState::new();
    state.mouse_button_down_event(MouseButton::Left, 4000, 4300);
    assert_eq!(state.active_game, ActiveGame::Leaderboard);
}

#[test]
fn click_on_the_border_of_a_button_counts() {
    for (x, y) in [(2500, 2000), (5500, 2600), (2500, 2600), (5500, 2000)] {
        let mut state = GameState::new();
        state.mouse_button_down_event(MouseButton::Left, x, y);
        assert_eq!(state.active_game, ActiveGame::FlappyBird(FlappyBirdGame::new()));
    }
    for (x, y) in [(2499, 2300), (5501, 2300), (4000, 1999), (4000, 2601), (4000, 4601)] {
        let mut state = GameState::new();
        state.mouse_button_down_event(MouseButton::Left, x, y);
        assert_eq!(state.active_game, ActiveGame::Menu);
    }
}

#[test]
fn other_buttons_and_clicks_away_from_the_menu_do_nothing() {
    let mut state = GameState::new();
    state.mouse_button_down_event(MouseButton::Other, 4000, 2300);
    assert_eq!(state.active_game, ActiveGame::Menu);
    state.show_leaderboard();
    state.mouse_button_down_event(MouseButton::Left, 4000, 2300);
    assert_eq!(state.active_game, ActiveGame::Leaderboard);
    state.start_snake();
    state.mouse_button_down_event(MouseButton::Left, 4000, 2300);
    assert_eq!(state.active_game, ActiveGame::Snake(SnakeGame::new(40)));
}

#[test]
fn escape_ends_a_game_and_hands_its_score_over() {
    let mut state = GameState::new();
    state.start_snake();
    if let ActiveGame::Snake(game) = &mut state.active_game {
        game.score = 30;
    }
    assert_eq!(
        state.key_down_event(Key::Escape),
        Some(ScoreEntry { game: GameKind::Snake, score: 30 })
    );
    assert_eq!(state.active_game, ActiveGame::Menu);

    state.start_flappy_bird();
    if let ActiveGame::FlappyBird(game) = &mut state.active_game {
        game.score = 4;
        game.is_dead = true;
    }
    assert_eq!(
        state.return_to_menu(),
        Some(ScoreEntry { game: GameKind::FlappyBird, score: 4 })
    );
    assert_eq!(state.active_game, ActiveGame::Menu);
}

#[test]
fn escape_leaves_the_score_table_without_a_score() {
    let mut state = GameState::new();
    state.show_leaderboard();
    assert_eq!(state.key_down_event(Key::Escape), None);
    assert_eq!(state.active_game, ActiveGame::Menu);
    assert_eq!(state.return_to_menu(), None);
}

#[test]
fn games_are_filed_under_their_names() {
    assert_eq!(GameKind::FlappyBird.name(), "Flappy Bird");
    assert_eq!(GameKind::Snake.name(), "Snake");
}

#[test]
fn space_makes_the_bird_flap() {
    let mut state = GameState::new();
    state.start_flappy_bird();
    assert_eq!(state.key_down_event(Key::Space), None);
    assert_eq!(bird_of(&state).velocity, -30);
    state.start_snake();
    state.key_down_event(Key::Space);
    assert_eq!(state.active_game, ActiveGame::Snake(SnakeGame::new(40)));
}

#[test]
fn arrow_keys_steer_the_snake_only() {
    let mut state = GameState::new();
    state.start_snake();
    state.key_down_event(Key::Down);
    assert_eq!(snake_of(&state).direction, (0, 1));
    state.key_down_event(Key::Up);
    assert_eq!(snake_of(&state).direction, (0, 1));
    state.start_flappy_bird();
    state.key_down_event(Key::Down);
    assert_eq!(state.active_game, ActiveGame::FlappyBird(FlappyBirdGame::new()));
}

#[test]
fn time_passes_in_the_game_on_screen() {
    let mut state = GameState::new();
    assert!(state.can_update(1_000_000_000));
    state.update(1_000_000_000);
    assert_eq!(state.active_game, ActiveGame::Menu);
    state.show_leaderboard();
    state.update(1_000_000_000);
    assert_eq!(state.active_game, ActiveGame::Leaderboard);

    state.start_snake();
    assert!(state.can_update(250_000_000));
    state.update(250_000_000);
    assert_eq!(snake_of(&state).snake.front(), Some(&(6, 5)));

    state.start_flappy_bird();
    assert!(state.can_update(16_000_000));
    state.update(16_000_000);
    assert_eq!(bird_of(&state).position, (1000, 3001));
    assert_eq!(bird_of(&state).pipes.len(), 1);
}

#[test]
fn arcade_refuses_a_step_that_a_game_cannot_take() {
    let mut state = GameState::new();
    state.start_flappy_bird();
    if let ActiveGame::FlappyBird(game) = &mut state.active_game {
        game.score = u32::MAX;
    }
    assert!(!state.can_update(16_000_000));
    state.start_snake();
    if let ActiveGame::Snake(game) = &mut state.active_game {
        game.food = (6, 5);
        game.score = u32::MAX;
    }
    assert!(state.can_update(249_999_999));
    assert!(!state.can_update(250_000_000));
}

#[test]
fn score_rows_are_forty_pixels_apart() {
    assert_eq!(
        leaderboard_rows(&[50, 30, 4]),
        vec![
            ScoreRow { score: 50, y: 1400 },
            ScoreRow { score: 30, y: 1800 },
            ScoreRow { score: 4, y: 2200 },
        ]
    );
    assert_eq!(leaderboard_rows(&[]), vec![]);
}

#[test]
fn score_rows_stop_below_the_window() {
    let scores: Vec<u32> = (0..20).collect();
    let rows = leaderboard_rows(&scores);
    assert_eq!(rows.len(), 12);
    assert_eq!(rows[11], ScoreRow { score: 11, y: 5800 });
    let ten: Vec<u32> = (0..10).collect();
    assert_eq!(leaderboard_rows(&ten).len(), 10);
    assert_eq!(leaderboard_rows(&ten)[9], ScoreRow { score: 9, y: 5000 });
    let twelve: Vec<u32> = (0..12).collect();
    assert_eq!(leaderboard_rows(&twelve).len(), 12);
}

#[test]
fn saving_a_score_rewrites_the_score_file() {
    let snake = ScoreEntry { game: GameKind::Snake, score: 30 };
    let bird = ScoreEntry { game: GameKind::FlappyBird, score: 4 };
    let text = GameState::save_score(b"", snake);
    assert_eq!(text, b"Snake | Score: 30\n".to_vec());
    let text = GameState::save_score(&text, bird);
    assert_eq!(text, b"Snake | Score: 30\nFlappy Bird | Score: 4\n".to_vec());
    let text = GameState::save_score(&text, ScoreEntry { game: GameKind::Snake, score: 70 });
    assert_eq!(text, b"Snake | Score: 70\nSnake | Score: 30\nFlappy Bird | Score: 4\n".to_vec());
}

#[test]
fn saved_scores_load_back() {
    let mut text = b"Pong | Score: 3\r\nnot a record\nSnake | Score: 1".to_vec();
    let mut expected = arcade_games::score_file::load_scores(&text);
    for score in [5, 500, 50, 0, 5, 7, 9, 11, 13, 15, 17, 19] {
        let entry = ScoreEntry { game: GameKind::Snake, score };
        text = GameState::save_score(&text, entry);
        expected.record(b"Snake", score);
        assert_eq!(arcade_games::score_file::load_scores(&text), expected);
    }
    assert_eq!(expected.scores_for(b"Snake"), Some(&vec![500, 50, 19, 17, 15, 13, 11, 9, 7, 5]));
    assert_eq!(expected.scores_for(b"Pong"), Some(&vec![3]));
}
