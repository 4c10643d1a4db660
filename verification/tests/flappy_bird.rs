use arcade_games::games::flappy_bird::{
    FlappyBirdGame, Pipe, BIRD_SIZE, BIRD_START_Y, BIRD_X, FLAP_VELOCITY, MAX_PIPE_HEIGHT,
    MIN_PIPE_HEIGHT, PIPE_GAP, PIPE_SPEED, PIPE_WIDTH,
};
use arcade_games::geometry::Rect;

fn game_at(y: i32, velocity: i32, pipes: Vec<Pipe>) -> FlappyBirdGame {
    let mut game = FlappyBirdGame::new();
    game.position.1 = y;
    game.velocity = velocity;
    game.pipes = pipes;
    game
}

/// A pipe far to the right, so that none is due and none is near the bird.
fn distant_pipe() -> Pipe {
    Pipe { x: 7000, y: 4500, width: 500, height: 2000 }
}

#[test]
fn new_game_has_the_bird_at_rest() {
    let game = FlappyBirdGame::new();
    assert_eq!(game.position, (1000, 3000));
    assert_eq!((game.width, game.height), (300, 300));
    assert_eq!(game.velocity, 0);
    assert!(game.pipes.is_empty());
    assert_eq!(game.pipe_speed, 40);
    assert_eq!(game.pipe_gap, 2500);
    assert_eq!(game.score, 0);
    assert!(!game.is_dead);
    assert!(game.is_valid());
    assert_eq!((BIRD_X, BIRD_START_Y, BIRD_SIZE), (1000, 3000, 300));
    assert_eq!((PIPE_SPEED, PIPE_GAP, PIPE_WIDTH), (40, 2500, 500));
}

#[test]
fn gravity_speeds_the_bird_up_frame_by_frame() {
    let mut game = FlappyBirdGame::new();
    game.update_with(2000);
    assert_eq!((game.velocity, game.position.1), (1, 3001));
    game.update_with(2000);
    assert_eq!((game.velocity, game.position.1), (2, 3003));
    game.update_with(2000);
    assert_eq!((game.velocity, game.position.1), (3, 3006));
    assert_eq!(game.position.0, 1000);
}

#[test]
fn flap_sends_a_live_bird_upwards() {
    let mut game = FlappyBirdGame::new();
    game.update_with(2000);
    game.flap();
    assert_eq!(game.velocity, FLAP_VELOCITY);
    assert_eq!(game.velocity, -30);
    game.update_with(2000);
    assert_eq!((game.velocity, game.position.1), (-29, 3001 - 29));
}

#[test]
fn flap_leaves_a_dead_bird_alone() {
    let mut game = game_at(3000, 7, vec![]);
    game.is_dead = true;
    game.flap();
    assert_eq!(game.velocity, 7);
}

#[test]
fn first_frame_brings_the_first_pipe() {
    let mut game = FlappyBirdGame::new();
    game.update_with(2000);
    assert_eq!(game.pipes, vec![Pipe { x: 8000, y: 4500, width: 500, height: 2000 }]);
    assert_eq!(game.score, 0);
    assert!(!game.is_dead);
}

#[test]
fn spawn_pipe_puts_the_lower_block_below_the_gap() {
    let mut game = FlappyBirdGame::new();
    game.spawn_pipe(1000);
    game.spawn_pipe(3999);
    assert_eq!(
        game.pipes,
        vec![
            Pipe { x: 8000, y: 3500, width: 500, height: 1000 },
            Pipe { x: 8000, y: 6499, width: 500, height: 3999 },
        ]
    );
}

#[test]
fn pipes_scroll_left_by_the_pipe_speed() {
    let mut game = game_at(3000, 0, vec![distant_pipe()]);
    game.update_with(2000);
    assert_eq!(game.pipes, vec![Pipe { x: 6960, y: 4500, width: 500, height: 2000 }]);
    game.scroll_pipes();
    assert_eq!(game.pipes[0].x, 6920);
}

#[test]
fn next_pipe_appears_once_the_newest_has_passed_the_spacing_line() {
    let mut game = FlappyBirdGame::new();
    for _ in 0..51 {
        game.update_with(1500);
        game.flap();
    }
    // The first pipe appeared in frame 1 and has moved 50 times since.
    assert_eq!(game.pipes.len(), 1);
    assert_eq!(game.pipes[0].x, 6000);
    assert!(!game.pipe_due());
    game.position.1 = 3000;
    game.update_with(1234);
    assert_eq!(game.pipes.len(), 2);
    assert_eq!(game.pipes[0].x, 5960);
    assert_eq!(game.pipes[1], Pipe { x: 8000, y: 1234 + 2500, width: 500, height: 1234 });
}

#[test]
fn pipe_due_on_an_empty_list() {
    let game = FlappyBirdGame::new();
    assert!(game.pipe_due());
    let game = game_at(3000, 0, vec![Pipe { x: 5999, y: 4500, width: 500, height: 2000 }]);
    assert!(game.pipe_due());
    let game = game_at(3000, 0, vec![Pipe { x: 6000, y: 4500, width: 500, height: 2000 }]);
    assert!(!game.pipe_due());
}

#[test]
fn pipe_leaves_when_its_right_edge_reaches_the_left_edge_of_the_window() {
    let gone = Pipe { x: -460, y: 4500, width: 500, height: 2000 };
    let stays = Pipe { x: -459, y: 4500, width: 500, height: 2000 };
    let mut game = game_at(3000, 0, vec![gone, stays, distant_pipe()]);
    game.update_with(2000);
    assert_eq!(
        game.pipes,
        vec![
            Pipe { x: -499, y: 4500, width: 500, height: 2000 },
            Pipe { x: 6960, y: 4500, width: 500, height: 2000 },
        ]
    );
    for pipe in &game.pipes {
        assert!(pipe.x + pipe.width > 0);
    }
}

#[test]
fn no_pipe_in_the_list_is_off_screen_during_a_long_flight() {
    let mut game = FlappyBirdGame::new();
    let mut removals = 0;
    for frame in 0..2000 {
        // Hold the bird in the middle; pipes of height 1000 leave it a gap
        // from 1000 to 3500.
        game.position.1 = 3000;
        game.velocity = 0;
        let before = game.pipes.len();
        game.update_with(1000);
        if game.pipes.len() < before {
            removals += 1;
        }
        for pipe in &game.pipes {
            assert!(pipe.x + pipe.width > 0, "frame {}", frame);
        }
        assert!(game.is_valid(), "frame {}", frame);
    }
    assert!(removals >= 5);
    assert!(!game.is_dead);
}

#[test]
fn pipes_behind_the_bird_score_every_frame() {
    let behind = Pipe { x: 400, y: 4500, width: 500, height: 2000 };
    let level = Pipe { x: 540, y: 4500, width: 500, height: 2000 };
    let mut game = game_at(3000, 0, vec![behind, level, distant_pipe()]);
    game.update_with(2000);
    // 360 + 500 < 1000, but 500 + 500 is not.
    assert_eq!(game.score, 1);
    game.update_with(2000);
    assert_eq!(game.score, 3);
}

#[test]
fn bird_dies_when_it_drops_below_the_window() {
    let mut game = game_at(5699, 0, vec![distant_pipe()]);
    game.update_with(2000);
    assert_eq!(game.position.1 + game.height, 6000);
    assert!(!game.is_dead);
    game.update_with(2000);
    assert_eq!(game.position.1 + game.height, 6002);
    assert!(game.is_dead);
}

#[test]
fn bird_dies_when_it_rises_above_the_window() {
    let mut game = game_at(29, 0, vec![distant_pipe()]);
    game.flap();
    game.update_with(2000);
    assert_eq!(game.position.1, 0);
    assert!(!game.is_dead);
    game.update_with(2000);
    assert_eq!(game.position.1, -28);
    assert!(game.is_dead);
}

#[test]
fn bird_left_alone_dies_in_frame_73() {
    let mut game = FlappyBirdGame::new();
    for _ in 0..72 {
        game.update_with(2000);
    }
    assert_eq!(game.position.1, 3000 + 72 * 73 / 2);
    assert!(!game.is_dead);
    game.update_with(2000);
    assert_eq!(game.position.1, 5701);
    assert!(game.is_dead);
}

#[test]
fn out_of_bounds_always_means_dead() {
    for start in [0, 10, 2999, 5000, 5699, 5700] {
        for velocity in [-30, -1, 0, 1, 20] {
            let mut game = game_at(start, velocity, vec![distant_pipe()]);
            if !game.is_valid() {
                continue;
            }
            for _ in 0..200 {
                game.update_with(3000);
                let out = game.position.1 < 0 || game.position.1 + game.height > 6000;
                if out {
                    assert!(game.is_dead);
                }
            }
        }
    }
}

#[test]
fn dead_game_stays_as_it_is() {
    let mut game = game_at(5699, 3, vec![distant_pipe()]);
    game.is_dead = true;
    game.score = 4;
    game.update_with(2000);
    game.update();
    assert_eq!(game, {
        let mut same = game_at(5699, 3, vec![distant_pipe()]);
        same.is_dead = true;
        same.score = 4;
        same
    });
}

#[test]
fn upper_block_kills() {
    let pipe = Pipe { x: 1040, y: 5600, width: 500, height: 3100 };
    let mut game = game_at(3000, 0, vec![pipe]);
    assert!(!game.is_dead);
    game.update_with(2000);
    assert!(game.is_dead);
}

#[test]
fn lower_block_kills() {
    let pipe = Pipe { x: 1040, y: 3200, width: 500, height: 700 };
    let mut game = game_at(3000, 0, vec![pipe]);
    game.check_collisions();
    assert!(game.is_dead);
}

#[test]
fn bird_passes_through_the_gap() {
    let pipe = Pipe { x: 1000, y: 3500, width: 500, height: 1000 };
    let mut game = game_at(3000, 0, vec![pipe]);
    assert!(!game.hits_pipe());
    game.check_collisions();
    assert!(!game.is_dead);
}

#[test]
fn touching_a_block_counts_as_a_hit() {
    // The bird's right edge is at 1300, its bottom edge at 3300.
    let beside = Pipe { x: 1300, y: 3300, width: 500, height: 1000 };
    assert!(game_at(3000, 0, vec![beside]).hits_pipe());
    let just_clear = Pipe { x: 1301, y: 3300, width: 500, height: 1000 };
    assert!(!game_at(3000, 0, vec![just_clear]).hits_pipe());
    let below = Pipe { x: 1000, y: 3301, width: 500, height: 1000 };
    assert!(!game_at(3000, 0, vec![below]).hits_pipe());
    let above = Pipe { x: 1000, y: 9000, width: 500, height: 3000 };
    assert!(game_at(3000, 0, vec![above]).hits_pipe());
}

#[test]
fn rectangles_of_bird_and_pipe() {
    let game = FlappyBirdGame::new();
    assert_eq!(game.bird_rect(), Rect { x: 1000, y: 3000, w: 300, h: 300 });
    let pipe = Pipe { x: 8000, y: 4500, width: 500, height: 2000 };
    assert_eq!(pipe.top_rect(), Rect { x: 8000, y: 0, w: 500, h: 2000 });
    assert_eq!(pipe.bottom_rect(), Rect { x: 8000, y: 4500, w: 500, h: 2000 });
}

#[test]
fn generated_pipes_have_heights_in_range_and_differ() {
    let mut game = FlappyBirdGame::new();
    for _ in 0..300 {
        game.generate_pipe();
    }
    assert_eq!(game.pipes.len(), 300);
    let mut heights = Vec::new();
    for pipe in &game.pipes {
        assert!(MIN_PIPE_HEIGHT <= pipe.height && pipe.height < MAX_PIPE_HEIGHT);
        assert_eq!(pipe.y, pipe.height + 2500);
        assert_eq!((pipe.x, pipe.width), (8000, 500));
        if !heights.contains(&pipe.height) {
            heights.push(pipe.height);
        }
    }
    assert!(heights.len() > 1);
}

#[test]
fn update_draws_the_height_of_a_due_pipe() {
    let mut game = FlappyBirdGame::new();
    game.update();
    assert_eq!((game.velocity, game.position.1), (1, 3001));
    assert_eq!(game.pipes.len(), 1);
    let pipe = game.pipes[0];
    assert!(1000 <= pipe.height && pipe.height < 4000);
    assert_eq!(pipe, Pipe { x: 8000, y: pipe.height + 2500, width: 500, height: pipe.height });
    game.update();
    assert_eq!(game.pipes, vec![Pipe { x: 7960, ..pipe }]);
}

#[test]
fn validity_checks() {
    assert!(FlappyBirdGame::new().can_update());
    assert!(game_at(3000, 1_000_000_000, vec![]).is_valid());
    assert!(!game_at(3000, 1_000_000_001, vec![]).is_valid());
    assert!(game_at(3000, i32::MIN, vec![]).is_valid());
    assert!(game_at(5700, 0, vec![]).is_valid());
    assert!(!game_at(5800, 0, vec![]).is_valid());
    assert!(!game_at(-1, 0, vec![]).is_valid());
    let off_screen = Pipe { x: -500, y: 4500, width: 500, height: 2000 };
    assert!(!game_at(3000, 0, vec![off_screen]).is_valid());
    let mut full = FlappyBirdGame::new();
    full.score = u32::MAX;
    assert!(full.is_valid());
    assert!(!full.can_update());
    full.score = u32::MAX - 1;
    assert!(full.can_update());
    full.pipes.push(distant_pipe());
    assert!(!full.can_update());
}
