//! The state machine of the arcade: the menu, the two games and the score
//! table, and what clicks, keys and the passing of time do to them.

use crate::games::flappy_bird::{
    FlappyBirdGame,
    FlappyBirdView,
    MAX_PIPE_HEIGHT,
    MIN_PIPE_HEIGHT,
};
use crate::games::snake::{SnakeGame, SnakeView};
use crate::geometry::{Rect, RectView, SCREEN_HEIGHT};
use crate::input::{Key, MouseButton};
use crate::leaderboard::recorded;
use crate::score_file::{
    parsed,
    rendered,
    save_score,
    separator,
    separator_at,
    SEPARATOR_LEN,
};
use crate::score_round_trip::{lemma_saved_score_loads_back, plain_name};
use vstd::prelude::*;
use vstd::string::{is_ascii_spec_bytes, StringSliceAdditionalSpecFns};

verus! {

/// Grid size of the snake game that the menu starts.
pub const SNAKE_GRID_SIZE: i32 = 40;

/// Vertical position of the first row of the score table.
pub const FIRST_ROW_Y: i32 = 1400;

/// Vertical distance between two rows of the score table.
pub const ROW_HEIGHT: i32 = 400;

/// Horizontal position of the scores of the pipe game in the score table.
pub const FLAPPY_COLUMN_X: i32 = 2000;

/// Horizontal position of the scores of the snake game in the score table.
pub const SNAKE_COLUMN_X: i32 = 5000;

/// The two games that score.
#[derive(Clone, Copy, Debug, PartialEq, Eq, Structural)]
pub enum GameKind {
    FlappyBird,
    Snake,
}

impl GameKind {
    /// The name under which the game's scores are filed.
    pub open spec fn spec_name(self) -> Seq<char> {
        match self {
            GameKind::FlappyBird => "Flappy Bird"@,
            GameKind::Snake => "Snake"@,
        }
    }

    /// The name as the bytes that stand in the score file.
    pub open spec fn name_bytes(self) -> Seq<u8> {
        match self {
            GameKind::FlappyBird => "Flappy Bird".spec_bytes(),
            GameKind::Snake => "Snake".spec_bytes(),
        }
    }

    /// The name under which the game's scores are filed.
    pub fn name(self) -> (name: &'static str)
        ensures
            name@ == self.spec_name(),
            name.spec_bytes() == self.name_bytes(),
    {
        match self {
            GameKind::FlappyBird => "Flappy Bird",
            GameKind::Snake => "Snake",
        }
    }

    /// The names of both games can stand in the score file.
    pub proof fn lemma_name_is_plain(self)
        ensures
            plain_name(self.name_bytes()),
    {
        reveal_strlit("Flappy Bird");
        reveal_strlit("Snake");
        is_ascii_spec_bytes("Flappy Bird");
        is_ascii_spec_bytes("Snake");
        let name = self.name_bytes();
        let line = name + separator();
        assert forall|at: int| 0 <= at < name.len() implies !separator_at(line, at) by {
            if separator_at(line, at) {
                let found = line.subrange(at, at + SEPARATOR_LEN);
                assert(found[0] == separator()[0]);
                assert(found[1] == separator()[1]);
            }
        }
    }
}

/// A score that a finished game hands over for the score table.
#[derive(Clone, Copy, Debug, PartialEq, Eq, Structural)]
pub struct ScoreEntry {
    pub game: GameKind,
    pub score: u32,
}

/// What is on screen: the menu, one of the games, or the score table.
#[derive(Debug, PartialEq)]
pub enum ActiveGame {
    Menu,
    FlappyBird(FlappyBirdGame),
    Snake(SnakeGame),
    Leaderboard,
}

/// What is on screen, as a mathematical value.
pub enum ActiveGameView {
    Menu,
    FlappyBird(FlappyBirdView),
    Snake(SnakeView),
    Leaderboard,
}

impl View for ActiveGame {
    type V = ActiveGameView;

    open spec fn view(&self) -> ActiveGameView {
        match self {
            ActiveGame::Menu => ActiveGameView::Menu,
            ActiveGame::FlappyBird(game) => ActiveGameView::FlappyBird(game@),
            ActiveGame::Snake(game) => ActiveGameView::Snake(game@),
            ActiveGame::Leaderboard => ActiveGameView::Leaderboard,
        }
    }
}

impl ActiveGameView {
    /// The invariant: a game on screen satisfies its own.
    pub open spec fn wf(self) -> bool {
        match self {
            ActiveGameView::FlappyBird(game) => game.wf(),
            ActiveGameView::Snake(game) => game.wf(),
            _ => true,
        }
    }

    /// The score that leaving for the menu hands over: that of the game on
    /// screen, if there is one.
    pub open spec fn final_score(self) -> Option<ScoreEntry> {
        match self {
            ActiveGameView::FlappyBird(game) => Some(
                ScoreEntry { game: GameKind::FlappyBird, score: game.score as u32 },
            ),
            ActiveGameView::Snake(game) => Some(
                ScoreEntry { game: GameKind::Snake, score: game.score as u32 },
            ),
            _ => None,
        }
    }

    /// What a key does while the menu is on screen: `1` starts the pipe
    /// game, `2` the snake game.
    pub open spec fn menu_key(self, key: Key) -> ActiveGameView {
        match key {
            Key::Key1 => ActiveGameView::FlappyBird(FlappyBirdView::initial()),
            Key::Key2 => ActiveGameView::Snake(SnakeView::initial(SNAKE_GRID_SIZE as int)),
            _ => self,
        }
    }

    /// What escape and space do away from the menu: escape leads to the
    /// menu, space makes the bird flap.
    pub open spec fn control_key(self, key: Key) -> ActiveGameView {
        match key {
            Key::Escape => ActiveGameView::Menu,
            Key::Space => match self {
                ActiveGameView::FlappyBird(game) => ActiveGameView::FlappyBird(game.flapped()),
                _ => self,
            },
            _ => self,
        }
    }

    /// What a key does to a snake game on screen: it may turn the snake.
    pub open spec fn steering_key(self, key: Key) -> ActiveGameView {
        match self {
            ActiveGameView::Snake(game) => ActiveGameView::Snake(game.turned(key)),
            _ => self,
        }
    }

    /// What a key does.
    pub open spec fn key_pressed(self, key: Key) -> ActiveGameView {
        if self is Menu {
            self.menu_key(key)
        } else {
            self.control_key(key).steering_key(key)
        }
    }

    /// The score that a key hands over: that of the game which escape ends.
    pub open spec fn key_score(self, key: Key) -> Option<ScoreEntry> {
        if key == Key::Escape {
            self.final_score()
        } else {
            None
        }
    }

    /// Whether the passing of `delta` nanoseconds can be played: the game on
    /// screen must have room for the points it may earn, and a snake that
    /// eats needs a free cell for new food.
    pub open spec fn can_step(self, delta: int) -> bool {
        match self {
            ActiveGameView::FlappyBird(game) => game.score + game.pipes.len() < u32::MAX,
            ActiveGameView::Snake(game) => game.can_step(delta),
            _ => true,
        }
    }

    /// What the passing of `delta` nanoseconds does: the game on screen
    /// takes a step, with `pipe_height` and `pick` standing for what chance
    /// decides in it; the menu and the score table stay as they are.
    pub open spec fn stepped(self, delta: int, pipe_height: int, pick: nat) -> ActiveGameView {
        match self {
            ActiveGameView::FlappyBird(game) => ActiveGameView::FlappyBird(game.step(pipe_height)),
            ActiveGameView::Snake(game) => ActiveGameView::Snake(game.step(delta, pick)),
            _ => self,
        }
    }

    /// Whether `pipe_height` and `pick` are values that chance may decide
    /// on.
    pub open spec fn chance_fits(self, delta: int, pipe_height: int, pick: nat) -> bool {
        &&& MIN_PIPE_HEIGHT <= pipe_height < MAX_PIPE_HEIGHT
        &&& match self {
            ActiveGameView::Snake(game) => game.feeds(delta) ==> pick < game.room_after_meal(),
            _ => true,
        }
    }
}

/// The arcade: what is on screen, and where the buttons of the menu are.
#[derive(Debug, PartialEq)]
pub struct GameState {
    pub active_game: ActiveGame,
    pub flappy_button: Rect,
    pub snake_button: Rect,
    pub leaderboard_button: Rect,
}

/// The arcade as a mathematical value.
pub struct GameStateView {
    pub active_game: ActiveGameView,
    pub flappy_button: RectView,
    pub snake_button: RectView,
    pub leaderboard_button: RectView,
}

impl GameStateView {
    /// The arcade when the program starts: the menu with its three buttons.
    pub open spec fn initial() -> GameStateView {
        GameStateView {
            active_game: ActiveGameView::Menu,
            flappy_button: RectView { x: 2500, y: 2000, w: 3000, h: 600 },
            snake_button: RectView { x: 2500, y: 3000, w: 3000, h: 600 },
            leaderboard_button: RectView { x: 2500, y: 4000, w: 3000, h: 600 },
        }
    }

    /// The same arcade with something else on screen.
    pub open spec fn showing(self, active_game: ActiveGameView) -> GameStateView {
        GameStateView { active_game, ..self }
    }

    /// What a click on the menu leads to: the first of the three buttons
    /// that covers the point decides.
    pub open spec fn menu_click(self, x: int, y: int) -> ActiveGameView {
        if self.flappy_button.covers(x, y) {
            ActiveGameView::FlappyBird(FlappyBirdView::initial())
        } else if self.snake_button.covers(x, y) {
            ActiveGameView::Snake(SnakeView::initial(SNAKE_GRID_SIZE as int))
        } else if self.leaderboard_button.covers(x, y) {
            ActiveGameView::Leaderboard
        } else {
            self.active_game
        }
    }

    /// What a press of a mouse button does: the left button works the menu,
    /// and nothing else has an effect.
    pub open spec fn clicked(self, button: MouseButton, x: int, y: int) -> GameStateView {
        if button == MouseButton::Left && self.active_game is Menu {
            self.showing(self.menu_click(x, y))
        } else {
            self
        }
    }
}

impl View for GameState {
    type V = GameStateView;

    open spec fn view(&self) -> GameStateView {
        GameStateView {
            active_game: self.active_game@,
            flappy_button: self.flappy_button@,
            snake_button: self.snake_button@,
            leaderboard_button: self.leaderboard_button@,
        }
    }
}

/// One row of the score table on screen.
#[derive(Clone, Copy, Debug, PartialEq, Eq, Structural)]
pub struct ScoreRow {
    pub score: u32,
    /// Vertical position of the row.
    pub y: i32,
}

/// How many rows of a list of `len` scores are shown: rows follow one
/// another until one starts below the window, so there are never more than
/// twelve.
pub open spec fn shown_rows(len: int) -> int {
    if len <= 12 {
        len
    } else {
        12
    }
}

/// The row that shows the score at index `i` of the list.
pub open spec fn row_at(scores: Seq<u32>, i: int) -> ScoreRow {
    ScoreRow { score: scores[i], y: (FIRST_ROW_Y + ROW_HEIGHT * i) as i32 }
}

/// The rows that show a list of scores, from the top.
pub open spec fn score_rows(scores: Seq<u32>) -> Seq<ScoreRow> {
    Seq::new(shown_rows(scores.len() as int) as nat, |i: int| row_at(scores, i))
}

/// Lays out the rows that show a list of scores.
pub fn leaderboard_rows(scores: &[u32]) -> (rows: Vec<ScoreRow>)
    ensures
        rows@ == score_rows(scores@),
{
    let mut rows: Vec<ScoreRow> = Vec::new();
    let mut y: i32 = FIRST_ROW_Y;
    let mut i: usize = 0;
    while i < scores.len()
        invariant_except_break
            y <= SCREEN_HEIGHT,
        invariant
            i <= scores.len(),
            i <= 12,
            y == FIRST_ROW_Y + ROW_HEIGHT * i,
            rows@.len() == i,
            forall|j: int| 0 <= j < i ==> rows@[j] == row_at(scores@, j),
        ensures
            i == shown_rows(scores@.len() as int),
        decreases scores.len() - i,
    {
        rows.push(ScoreRow { score: scores[i], y });
        y = y + ROW_HEIGHT;
        i += 1;
        if y > SCREEN_HEIGHT {
            break ;
        }
    }
    assert(rows@ =~= score_rows(scores@));
    rows
}

impl GameState {
    /// The arcade when the program starts.
    pub fn new() -> (state: GameState)
        ensures
            state@ == GameStateView::initial(),
            state@.active_game.wf(),
    {
        GameState {
            active_game: ActiveGame::Menu,
            flappy_button: Rect::new(2500, 2000, 3000, 600),
            snake_button: Rect::new(2500, 3000, 3000, 600),
            leaderboard_button: Rect::new(2500, 4000, 3000, 600),
        }
    }

    /// Puts a new pipe game on screen.
    pub fn start_flappy_bird(&mut self)
        ensures
            final(self)@ == old(self)@.showing(
                ActiveGameView::FlappyBird(FlappyBirdView::initial()),
            ),
            final(self)@.active_game.wf(),
    {
        self.active_game = ActiveGame::FlappyBird(FlappyBirdGame::new());
    }

    /// Puts a new snake game on screen.
    pub fn start_snake(&mut self)
        ensures
            final(self)@ == old(self)@.showing(
                ActiveGameView::Snake(SnakeView::initial(SNAKE_GRID_SIZE as int)),
            ),
            final(self)@.active_game.wf(),
    {
        self.active_game = ActiveGame::Snake(SnakeGame::new(SNAKE_GRID_SIZE));
    }

    /// Puts the score table on screen.
    pub fn show_leaderboard(&mut self)
        ensures
            final(self)@ == old(self)@.showing(ActiveGameView::Leaderboard),
    {
        self.active_game = ActiveGame::Leaderboard;
    }

    /// Puts the menu on screen and hands over the score of the game that
    /// this ends, if one was on screen.
    pub fn return_to_menu(&mut self) -> (score: Option<ScoreEntry>)
        ensures
            final(self)@ == old(self)@.showing(ActiveGameView::Menu),
            score == old(self)@.active_game.final_score(),
    {
        let score = match &self.active_game {
            ActiveGame::FlappyBird(game) => Some(
                ScoreEntry { game: GameKind::FlappyBird, score: game.score },
            ),
            ActiveGame::Snake(game) => Some(
                ScoreEntry { game: GameKind::Snake, score: game.score },
            ),
            _ => None,
        };
        self.active_game = ActiveGame::Menu;
        score
    }

    /// Computes the new text of the score file after a game has handed over
    /// a score: the table is read from the old text, the score is recorded
    /// under the name of the game, and the table is written out again. What
    /// is written reads back as that table.
    pub fn save_score(content: &[u8], entry: ScoreEntry) -> (text: Vec<u8>)
        ensures
            text@ == rendered(recorded(parsed(content@), entry.game.name_bytes(), entry.score)),
            parsed(text@) == recorded(parsed(content@), entry.game.name_bytes(), entry.score),
    {
        proof {
            entry.game.lemma_name_is_plain();
            lemma_saved_score_loads_back(content@, entry.game.name_bytes(), entry.score);
        }
        save_score(content, entry.game.name().as_bytes(), entry.score)
    }

    /// Tells whether the arcade can let `elapsed_nanos` nanoseconds pass:
    /// the game on screen, if there is one, must be able to.
    pub fn can_update(&self, elapsed_nanos: u64) -> (ok: bool)
        ensures
            ok == (self@.active_game.wf() && self@.active_game.can_step(elapsed_nanos as int)),
    {
        match &self.active_game {
            ActiveGame::FlappyBird(game) => game.can_update(),
            ActiveGame::Snake(game) => game.can_update(elapsed_nanos),
            _ => true,
        }
    }

    /// Lets `elapsed_nanos` nanoseconds pass: the game on screen takes a
    /// step; the menu and the score table stay as they are.
    pub fn update(&mut self, elapsed_nanos: u64)
        requires
            old(self)@.active_game.wf(),
            old(self)@.active_game.can_step(elapsed_nanos as int),
        ensures
            exists|pipe_height: int, pick: nat|
                old(self)@.active_game.chance_fits(elapsed_nanos as int, pipe_height, pick)
                    && final(self)@ == old(self)@.showing(
                    #[trigger] old(self)@.active_game.stepped(
                        elapsed_nanos as int,
                        pipe_height,
                        pick,
                    ),
                ),
            final(self)@.active_game.wf(),
    {
        let ghost before = self@.active_game;
        match &mut self.active_game {
            ActiveGame::FlappyBird(game) => {
                let ghost old_game = game@;
                game.update();
                proof {
                    let height = choose|height: int|
                        MIN_PIPE_HEIGHT <= height < MAX_PIPE_HEIGHT && game@
                            == #[trigger] old_game.step(height);
                    assert(ActiveGameView::FlappyBird(game@) == before.stepped(
                        elapsed_nanos as int,
                        height,
                        0,
                    ));
                    assert(before.chance_fits(elapsed_nanos as int, height, 0));
                }
            },
            ActiveGame::Snake(game) => {
                let ghost old_game = game@;
                game.update(elapsed_nanos);
                proof {
                    let pick = choose|pick: nat|
                        (old_game.feeds(elapsed_nanos as int) ==> pick < old_game.room_after_meal())
                            && game@ == #[trigger] old_game.step(elapsed_nanos as int, pick);
                    assert(ActiveGameView::Snake(game@) == before.stepped(
                        elapsed_nanos as int,
                        MIN_PIPE_HEIGHT as int,
                        pick,
                    ));
                    assert(before.chance_fits(elapsed_nanos as int, MIN_PIPE_HEIGHT as int, pick));
                }
            },
            _ => {
                assert(before == before.stepped(elapsed_nanos as int, MIN_PIPE_HEIGHT as int, 0));
                assert(before.chance_fits(elapsed_nanos as int, MIN_PIPE_HEIGHT as int, 0));
            },
        }
    }

    /// Lets `elapsed_nanos` nanoseconds pass, with `pipe_height` and `pick`
    /// standing for what chance decides in the game on screen: the height of
    /// a pipe that appears, and the free cell on which new food is laid out.
    pub fn update_with(&mut self, elapsed_nanos: u64, pipe_height: i32, pick: u64)
        requires
            old(self)@.active_game.wf(),
            old(self)@.active_game.can_step(elapsed_nanos as int),
            old(self)@.active_game.chance_fits(
                elapsed_nanos as int,
                pipe_height as int,
                pick as nat,
            ),
        ensures
            final(self)@ == old(self)@.showing(
                old(self)@.active_game.stepped(
                    elapsed_nanos as int,
                    pipe_height as int,
                    pick as nat,
                ),
            ),
            final(self)@.active_game.wf(),
    {
        match &mut self.active_game {
            ActiveGame::FlappyBird(game) => game.update_with(pipe_height),
            ActiveGame::Snake(game) => game.update_with(elapsed_nanos, pick),
            _ => {},
        }
    }

    /// Handles a press of a mouse button at `(x, y)`: on the menu, the left
    /// button starts the game or opens the score table whose button covers
    /// the point.
    pub fn mouse_button_down_event(&mut self, button: MouseButton, x: i32, y: i32)
        ensures
            final(self)@ == old(self)@.clicked(button, x as int, y as int),
            old(self)@.active_game.wf() ==> final(self)@.active_game.wf(),
    {
        let on_menu = match &self.active_game {
            ActiveGame::Menu => true,
            _ => false,
        };
        let left = match button {
            MouseButton::Left => true,
            _ => false,
        };
        if left && on_menu {
            if self.flappy_button.contains(x, y) {
                self.start_flappy_bird();
            } else if self.snake_button.contains(x, y) {
                self.start_snake();
            } else if self.leaderboard_button.contains(x, y) {
                self.show_leaderboard();
            }
        }
    }

    /// Handles a key. On the menu, `1` and `2` start the games. Elsewhere
    /// escape leads back to the menu, space makes the bird flap, and the
    /// arrow keys steer the snake. Hands over the score of a game that
    /// escape ends.
    pub fn key_down_event(&mut self, key: Key) -> (score: Option<ScoreEntry>)
        ensures
            final(self)@ == old(self)@.showing(old(self)@.active_game.key_pressed(key)),
            score == old(self)@.active_game.key_score(key),
            old(self)@.active_game.wf() ==> final(self)@.active_game.wf(),
    {
        let on_menu = match &self.active_game {
            ActiveGame::Menu => true,
            _ => false,
        };
        let mut score: Option<ScoreEntry> = None;
        if on_menu {
            match key {
                Key::Key1 => self.start_flappy_bird(),
                Key::Key2 => self.start_snake(),
                _ => {},
            }
        } else {
            match key {
                Key::Escape => {
                    score = self.return_to_menu();
                },
                Key::Space => {
                    match &mut self.active_game {
                        ActiveGame::FlappyBird(game) => game.flap(),
                        _ => {},
                    }
                },
                _ => {},
            }
            match &mut self.active_game {
                ActiveGame::Snake(game) => game.change_direction(key),
                _ => {},
            }
        }
        score
    }
}

} // verus!
