//! A snake moves over a grid one cell per tick, grows by eating and loses by
//! leaving the board or biting itself.
//!
//! Cells are counted in columns and rows from the top-left corner, and time in
//! nanoseconds.

use crate::geometry::{Rect, RectView};
use crate::grid::{Board, CellView};
use crate::input::Key;
use crate::random::random_in_range;
use std::collections::VecDeque;
use vstd::arithmetic::div_mod::lemma_fundamental_div_mod_converse;
use vstd::prelude::*;

verus! {

/// Time between two moves of the snake: a quarter of a second, in
/// nanoseconds.
pub const TICK_NANOS: u64 = 250_000_000;

/// Points for one piece of food.
pub const FOOD_SCORE: u32 = 10;

/// The board is as wide as the grid size and this many rows lower.
pub const HIDDEN_ROWS: i32 = 10;

/// Side length of a cell on screen: 20 pixels.
pub const CELL_SIZE: i32 = 200;

/// Largest column or row for which [`SnakeGame::cell_rect`] fits the
/// coordinate range.
pub const MAX_DRAWN_CELL: i32 = 10_000_000;

/// Where the snake starts.
pub const START_CELL: (i32, i32) = (5, 5);

/// Where the first food lies.
pub const FIRST_FOOD: (i32, i32) = (10, 10);

/// State of one game.
#[derive(Debug, PartialEq)]
pub struct SnakeGame {
    /// The cells of the snake, head first.
    pub snake: VecDeque<(i32, i32)>,
    /// The step that the head takes on the next move, as columns and rows.
    pub direction: (i32, i32),
    pub grid_size: i32,
    pub food: (i32, i32),
    /// Nanoseconds since the last move.
    pub time_since_last_update: u64,
    pub score: u32,
    pub game_over: bool,
}

/// A game as mathematical values.
pub struct SnakeView {
    pub snake: Seq<CellView>,
    pub direction: (int, int),
    pub grid_size: int,
    pub food: CellView,
    pub elapsed: int,
    pub score: int,
    pub game_over: bool,
}

/// A cell of the game as a pair of mathematical integers.
pub open spec fn cell_view(cell: (i32, i32)) -> CellView {
    (cell.0 as int, cell.1 as int)
}

/// The cells of a snake as pairs of mathematical integers, in order.
pub open spec fn cells_view(cells: Seq<(i32, i32)>) -> Seq<CellView> {
    cells.map_values(|c: (i32, i32)| cell_view(c))
}

impl SnakeView {
    /// The state in which a game on a grid of the given size starts.
    pub open spec fn initial(grid_size: int) -> SnakeView {
        SnakeView {
            snake: seq![cell_view(START_CELL)],
            direction: (1, 0),
            grid_size,
            food: cell_view(FIRST_FOOD),
            elapsed: 0,
            score: 0,
            game_over: false,
        }
    }

    /// The board that the snake may move on.
    pub open spec fn board(self) -> Board {
        Board { cols: self.grid_size, rows: self.grid_size - HIDDEN_ROWS }
    }

    pub open spec fn head(self) -> CellView {
        self.snake[0]
    }

    /// The cell that the head moves to next.
    pub open spec fn next_head(self) -> CellView {
        (self.head().0 + self.direction.0, self.head().1 + self.direction.1)
    }

    /// The snake moves by one cell: a new head in front, the last cell gone.
    pub open spec fn advanced(self) -> SnakeView {
        SnakeView { snake: seq![self.next_head()] + self.snake.drop_last(), ..self }
    }

    /// Whether the head lies on the food.
    pub open spec fn eats(self) -> bool {
        self.head() == self.food
    }

    /// The snake scores and gets one cell longer at its tail.
    pub open spec fn grown(self) -> SnakeView {
        SnakeView {
            score: self.score + FOOD_SCORE,
            snake: self.snake.push(self.snake.last()),
            ..self
        }
    }

    /// How many cells of the board the snake leaves free.
    pub open spec fn free_cells(self) -> nat {
        self.board().free_cells(self.snake)
    }

    /// The food lies on the free cell that has `pick` free cells before it in
    /// row order.
    pub open spec fn fed(self, pick: nat) -> SnakeView {
        SnakeView { food: self.board().nth_free(self.snake, pick), ..self }
    }

    /// Whether the head has left the board.
    pub open spec fn hits_wall(self) -> bool {
        !self.board().contains(self.head())
    }

    /// Whether the head lies on a cell of the body other than the one right
    /// behind it.
    pub open spec fn bites_itself(self) -> bool {
        exists|i: int| 2 <= i < self.snake.len() && #[trigger] self.snake[i] == self.head()
    }

    /// Whether the position loses the game.
    pub open spec fn lost(self) -> bool {
        self.hits_wall() || self.bites_itself()
    }

    /// A lost position ends the game.
    pub open spec fn judged(self) -> SnakeView {
        SnakeView { game_over: self.game_over || self.lost(), ..self }
    }

    /// One move: the snake advances; if it reaches the food it grows and new
    /// food is laid out on the free cell chosen by `pick`; then the position
    /// is judged.
    pub open spec fn moved(self, pick: nat) -> SnakeView {
        let ahead = self.advanced();
        let fed = if ahead.eats() {
            ahead.grown().fed(pick)
        } else {
            ahead
        };
        fed.judged()
    }

    /// Whether a move is due once `delta` more nanoseconds have passed.
    pub open spec fn move_due(self, delta: int) -> bool {
        self.elapsed + delta >= TICK_NANOS
    }

    /// The game after `delta` nanoseconds: a finished game stays as it is; a
    /// running one moves if a move is due, and else only the clock runs on.
    pub open spec fn step(self, delta: int, pick: nat) -> SnakeView {
        if self.game_over {
            self
        } else if self.move_due(delta) {
            SnakeView { elapsed: 0, ..self }.moved(pick)
        } else {
            SnakeView { elapsed: self.elapsed + delta, ..self }
        }
    }

    /// Whether the snake reaches the food within the next `delta`
    /// nanoseconds.
    pub open spec fn feeds(self, delta: int) -> bool {
        !self.game_over && self.move_due(delta) && self.advanced().eats()
    }

    /// How many free cells there are to lay out new food on once the snake
    /// has moved and grown.
    pub open spec fn room_after_meal(self) -> nat {
        self.advanced().grown().free_cells()
    }

    /// Whether the game can take the step: if the snake feeds, the score must
    /// not run over and a cell must be free for the new food.
    pub open spec fn can_step(self, delta: int) -> bool {
        self.feeds(delta) ==> self.score + FOOD_SCORE <= u32::MAX && self.room_after_meal() > 0
    }

    /// An arrow key turns the snake unless it would reverse it; other keys
    /// and a finished game change nothing.
    pub open spec fn turned(self, key: Key) -> SnakeView {
        if self.game_over {
            self
        } else {
            match key {
                Key::Up => if self.direction != (0int, 1int) {
                    SnakeView { direction: (0, -1), ..self }
                } else {
                    self
                },
                Key::Down => if self.direction != (0int, -1int) {
                    SnakeView { direction: (0, 1), ..self }
                } else {
                    self
                },
                Key::Left => if self.direction != (1int, 0int) {
                    SnakeView { direction: (-1, 0), ..self }
                } else {
                    self
                },
                Key::Right => if self.direction != (-1int, 0int) {
                    SnakeView { direction: (1, 0), ..self }
                } else {
                    self
                },
                _ => self,
            }
        }
    }

    /// The invariant of a game: the snake has a head, each step of the
    /// direction is at most one cell, the clock is short of a tick, and while
    /// the game runs the head is off the rest of the body, the cell right
    /// behind it excepted, and away from the ends of the coordinate range.
    pub open spec fn wf(self) -> bool {
        &&& self.snake.len() >= 1
        &&& -1 <= self.direction.0 <= 1
        &&& -1 <= self.direction.1 <= 1
        &&& i32::MIN <= self.grid_size <= i32::MAX
        &&& 0 <= self.elapsed < TICK_NANOS
        &&& !self.game_over ==> {
            &&& !self.bites_itself()
            &&& i32::MIN < self.head().0 < i32::MAX
            &&& i32::MIN < self.head().1 < i32::MAX
        }
    }
}

impl View for SnakeGame {
    type V = SnakeView;

    open spec fn view(&self) -> SnakeView {
        SnakeView {
            snake: cells_view(self.snake@),
            direction: (self.direction.0 as int, self.direction.1 as int),
            grid_size: self.grid_size as int,
            food: cell_view(self.food),
            elapsed: self.time_since_last_update as int,
            score: self.score as int,
            game_over: self.game_over,
        }
    }
}

impl SnakeGame {
    /// A new game: a snake of one cell heading right, the first food laid
    /// out.
    pub fn new(grid_size: i32) -> (game: SnakeGame)
        ensures
            game@ == SnakeView::initial(grid_size as int),
            game@.wf(),
    {
        let mut snake: VecDeque<(i32, i32)> = VecDeque::new();
        snake.push_front(START_CELL);
        let game = SnakeGame {
            snake,
            direction: (1, 0),
            grid_size,
            food: FIRST_FOOD,
            time_since_last_update: 0,
            score: 0,
            game_over: false,
        };
        assert(game@.snake =~= seq![cell_view(START_CELL)]);
        game
    }

    /// Turns the snake as the key asks, unless that would reverse it.
    pub fn change_direction(&mut self, key: Key)
        ensures
            final(self)@ == old(self)@.turned(key),
            old(self)@.wf() ==> final(self)@.wf(),
    {
        if self.game_over {
            return ;
        }
        let (dx, dy) = self.direction;
        match key {
            Key::Up => if !(dx == 0 && dy == 1) {
                self.direction = (0, -1);
            },
            Key::Down => if !(dx == 0 && dy == -1) {
                self.direction = (0, 1);
            },
            Key::Left => if !(dx == 1 && dy == 0) {
                self.direction = (-1, 0);
            },
            Key::Right => if !(dx == -1 && dy == 0) {
                self.direction = (1, 0);
            },
            _ => {},
        }
        assert(self@.snake == old(self)@.snake);
    }

    /// Tells whether a cell of the snake lies on `cell`.
    pub fn occupies(&self, cell: (i32, i32)) -> (taken: bool)
        ensures
            taken == self@.snake.contains(cell_view(cell)),
    {
        let mut i: usize = 0;
        while i < self.snake.len()
            invariant
                i <= self.snake.len(),
                forall|j: int| 0 <= j < i ==> self@.snake[j] != cell_view(cell),
            decreases self.snake.len() - i,
        {
            let here = self.snake[i];
            assert(self@.snake[i as int] == cell_view(here));
            if here.0 == cell.0 && here.1 == cell.1 {
                return true;
            }
            i += 1;
        }
        false
    }

    /// The number of cells of the board.
    pub fn cell_count(&self) -> (count: u64)
        ensures
            count == self@.board().cells(),
            count <= 0x4000_0000_0000_0000,
    {
        if self.grid_size <= HIDDEN_ROWS {
            return 0;
        }
        let cols: u64 = self.grid_size as u64;
        let rows: u64 = (self.grid_size - HIDDEN_ROWS) as u64;
        assert(cols * rows <= 0x8000_0000 * 0x8000_0000) by (nonlinear_arith)
            requires
                cols <= 0x8000_0000,
                rows <= 0x8000_0000,
        ;
        cols * rows
    }

    /// Counts the cells of the board that the snake leaves free.
    pub fn count_free_cells(&self) -> (count: u64)
        ensures
            count == self@.free_cells(),
            count <= 0x4000_0000_0000_0000,
    {
        let total = self.cell_count();
        let cols = self.grid_size;
        let ghost board = self@.board();
        let ghost body = self@.snake;
        let mut index: u64 = 0;
        let mut x: i32 = 0;
        let mut y: i32 = 0;
        let mut count: u64 = 0;
        while index < total
            invariant
                total == board.cells(),
                total <= 0x4000_0000_0000_0000,
                board == self@.board(),
                body == self@.snake,
                cols == board.cols,
                index <= total,
                index == y * cols + x,
                0 <= y,
                index < total ==> 0 <= x < cols,
                count <= index,
                count + board.free_from(body, index as int) == board.free_from(body, 0),
            decreases total - index,
        {
            proof {
                lemma_fundamental_div_mod_converse(index as int, cols as int, y as int, x as int);
                board.lemma_cell_at_on_board(index as int);
                assert((y + 1) * cols == y * cols + cols) by (nonlinear_arith);
            }
            if !self.occupies((x, y)) {
                count += 1;
            }
            index += 1;
            if x + 1 == cols {
                x = 0;
                y += 1;
            } else {
                x += 1;
            }
        }
        count
    }

    /// Lays the food on the free cell that has `pick` free cells before it in
    /// row order.
    pub fn place_food(&mut self, pick: u64)
        requires
            pick < old(self)@.free_cells(),
        ensures
            final(self)@ == old(self)@.fed(pick as nat),
    {
        let total = self.cell_count();
        let cols = self.grid_size;
        let ghost board = self@.board();
        let ghost body = self@.snake;
        let mut index: u64 = 0;
        let mut x: i32 = 0;
        let mut y: i32 = 0;
        let mut skip: u64 = pick;
        loop
            invariant
                *self == *old(self),
                total == board.cells(),
                total <= 0x4000_0000_0000_0000,
                board == self@.board(),
                body == self@.snake,
                cols == board.cols,
                index <= total,
                index == y * cols + x,
                0 <= y,
                index < total ==> 0 <= x < cols,
                skip < board.free_from(body, index as int),
                board.nth_free_from(body, skip as nat, index as int) == board.nth_free_from(
                    body,
                    pick as nat,
                    0,
                ),
            ensures
                board.nth_free_from(body, pick as nat, 0) == index,
                board.cell_at(index as int) == (x as int, y as int),
            decreases total - index,
        {
            proof {
                lemma_fundamental_div_mod_converse(index as int, cols as int, y as int, x as int);
                board.lemma_cell_at_on_board(index as int);
                assert((y + 1) * cols == y * cols + cols) by (nonlinear_arith);
            }
            if !self.occupies((x, y)) {
                if skip == 0 {
                    break ;
                }
                skip -= 1;
            }
            index += 1;
            if x + 1 == cols {
                x = 0;
                y += 1;
            } else {
                x += 1;
            }
        }
        self.food = (x, y);
        assert(self@.snake == old(self)@.snake);
    }

    /// Lays the food on a free cell of the board chosen at random.
    pub fn generate_food(&mut self)
        requires
            old(self)@.free_cells() > 0,
        ensures
            exists|pick: nat|
                pick < old(self)@.free_cells() && final(self)@ == #[trigger] old(self)@.fed(pick),
            final(self)@.board().contains(final(self)@.food),
            !final(self)@.snake.contains(final(self)@.food),
    {
        let free = self.count_free_cells();
        let drawn: i64 = random_in_range(0, free as i64);
        self.place_food(drawn as u64);
        proof {
            assert(self@ == old(self)@.fed(drawn as nat));
            lemma_new_food_is_free(old(self)@, drawn as nat);
        }
    }

    /// Tells whether the head lies on a cell of the body other than the one
    /// right behind it.
    pub fn bites_itself(&self) -> (bitten: bool)
        requires
            self@.snake.len() >= 1,
        ensures
            bitten == self@.bites_itself(),
    {
        let head = self.snake[0];
        assert(self@.snake[0] == cell_view(head));
        let mut i: usize = 2;
        while i < self.snake.len()
            invariant
                2 <= i,
                self@.snake.len() >= 1,
                self@.snake[0] == cell_view(head),
                forall|j: int|
                    2 <= j < i && j < self@.snake.len() ==> self@.snake[j] != cell_view(head),
            decreases self.snake.len() - i,
        {
            let segment = self.snake[i];
            assert(self@.snake[i as int] == cell_view(segment));
            if segment.0 == head.0 && segment.1 == head.1 {
                return true;
            }
            i += 1;
        }
        false
    }

    /// Tells whether the position loses the game: the head has left the
    /// board, or it lies on a cell of the body other than the one right
    /// behind it.
    pub fn is_game_over(&self) -> (over: bool)
        requires
            self@.snake.len() >= 1,
        ensures
            over == self@.lost(),
    {
        let head = self.snake[0];
        assert(self@.snake[0] == cell_view(head));
        let rows: i64 = self.grid_size as i64 - HIDDEN_ROWS as i64;
        if head.0 < 0 || head.0 >= self.grid_size || head.1 < 0 || head.1 as i64 >= rows {
            return true;
        }
        self.bites_itself()
    }

    /// Tells whether the game satisfies its invariant.
    pub fn is_valid(&self) -> (ok: bool)
        ensures
            ok == self@.wf(),
    {
        if self.snake.len() < 1 || self.direction.0 < -1 || self.direction.0 > 1
            || self.direction.1 < -1 || self.direction.1 > 1 || self.time_since_last_update
            >= TICK_NANOS {
            return false;
        }
        if self.game_over {
            return true;
        }
        let head = self.snake[0];
        assert(self@.snake[0] == cell_view(head));
        if head.0 == i32::MIN || head.0 == i32::MAX || head.1 == i32::MIN || head.1 == i32::MAX {
            return false;
        }
        !self.bites_itself()
    }

    /// Tells whether the game can let `elapsed_nanos` nanoseconds pass: it
    /// must satisfy its invariant, and if the snake eats in that time, the
    /// score must have room for the points and the board a free cell for new
    /// food.
    pub fn can_update(&self, elapsed_nanos: u64) -> (ok: bool)
        ensures
            ok == (self@.wf() && self@.can_step(elapsed_nanos as int)),
    {
        if !self.is_valid() {
            return false;
        }
        if self.game_over || elapsed_nanos < TICK_NANOS - self.time_since_last_update {
            return true;
        }
        let mut after = SnakeGame {
            snake: copy_cells(&self.snake),
            direction: self.direction,
            grid_size: self.grid_size,
            food: self.food,
            time_since_last_update: self.time_since_last_update,
            score: self.score,
            game_over: false,
        };
        assert(after@ == self@);
        after.advance();
        if !after.eats() {
            return true;
        }
        if self.score > u32::MAX - FOOD_SCORE {
            return false;
        }
        after.grow();
        after.count_free_cells() > 0
    }

    /// Moves the snake by one cell in its direction.
    fn advance(&mut self)
        requires
            old(self)@.wf(),
            !old(self).game_over,
        ensures
            final(self)@ == old(self)@.advanced(),
    {
        let head = self.snake[0];
        assert(self@.snake[0] == cell_view(head));
        let new_head = (head.0 + self.direction.0, head.1 + self.direction.1);
        self.snake.push_front(new_head);
        self.snake.pop_back();
        assert(self@.snake =~= old(self)@.advanced().snake);
    }

    /// Scores a piece of food and lengthens the snake by one cell that lies
    /// on its last.
    fn grow(&mut self)
        requires
            old(self)@.snake.len() >= 1,
            old(self)@.score + FOOD_SCORE <= u32::MAX,
        ensures
            final(self)@ == old(self)@.grown(),
    {
        self.score = self.score + FOOD_SCORE;
        let last = self.snake[self.snake.len() - 1];
        self.snake.push_back(last);
        assert(self@.snake =~= old(self)@.grown().snake);
    }

    /// Tells whether the head lies on the food.
    pub fn eats(&self) -> (eating: bool)
        requires
            self@.snake.len() >= 1,
        ensures
            eating == self@.eats(),
    {
        let head = self.snake[0];
        assert(self@.snake[0] == cell_view(head));
        head.0 == self.food.0 && head.1 == self.food.1
    }

    /// Lets the clock of a running game run on by `elapsed_nanos`
    /// nanoseconds and tells whether a move is due; if one is, the clock
    /// starts again at zero.
    fn run_clock(&mut self, elapsed_nanos: u64) -> (due: bool)
        requires
            old(self)@.wf(),
        ensures
            due == old(self)@.move_due(elapsed_nanos as int),
            due ==> final(self)@ == (SnakeView { elapsed: 0, ..old(self)@ }),
            !due ==> final(self)@ == (SnakeView {
                elapsed: old(self)@.elapsed + elapsed_nanos,
                ..old(self)@
            }),
    {
        let due = elapsed_nanos >= TICK_NANOS - self.time_since_last_update;
        if due {
            self.time_since_last_update = 0;
        } else {
            self.time_since_last_update = self.time_since_last_update + elapsed_nanos;
        }
        assert(self@.snake == old(self)@.snake);
        due
    }

    /// Ends the game if the position loses it.
    fn judge(&mut self)
        requires
            old(self)@.snake.len() >= 1,
        ensures
            final(self)@ == old(self)@.judged(),
    {
        if self.is_game_over() {
            self.game_over = true;
        }
        assert(self@.snake == old(self)@.snake);
    }

    /// Lets `elapsed_nanos` nanoseconds pass, with `pick` choosing the free
    /// cell for new food should the snake eat: the food goes to the free cell
    /// that has `pick` free cells before it in row order.
    pub fn update_with(&mut self, elapsed_nanos: u64, pick: u64)
        requires
            old(self)@.wf(),
            old(self)@.can_step(elapsed_nanos as int),
            old(self)@.feeds(elapsed_nanos as int) ==> pick < old(self)@.room_after_meal(),
        ensures
            final(self)@ == old(self)@.step(elapsed_nanos as int, pick as nat),
            final(self)@.wf(),
    {
        proof {
            lemma_step_keeps_wf(self@, elapsed_nanos as int, pick as nat);
        }
        if self.game_over || !self.run_clock(elapsed_nanos) {
            return ;
        }
        self.advance();
        if self.eats() {
            self.grow();
            self.place_food(pick);
        }
        self.judge();
    }

    /// Lets `elapsed_nanos` nanoseconds pass. A finished game stays as it is.
    /// In a running one the clock runs on, and once a tick is full the snake
    /// moves: it advances by one cell, eats and grows if it has reached the
    /// food, whereupon new food appears on a free cell chosen at random, and
    /// the game ends if the head has left the board or bitten the body.
    pub fn update(&mut self, elapsed_nanos: u64)
        requires
            old(self)@.wf(),
            old(self)@.can_step(elapsed_nanos as int),
        ensures
            exists|pick: nat|
                (old(self)@.feeds(elapsed_nanos as int) ==> pick < old(self)@.room_after_meal())
                    && final(self)@ == #[trigger] old(self)@.step(elapsed_nanos as int, pick),
            final(self)@.wf(),
            final(self)@.bites_itself() ==> final(self).game_over,
    {
        if self.game_over || !self.run_clock(elapsed_nanos) {
            assert(self@ == old(self)@.step(elapsed_nanos as int, 0));
            return ;
        }
        self.advance();
        let ghost pick: nat = 0;
        if self.eats() {
            self.grow();
            let ghost grown = self@;
            self.generate_food();
            proof {
                pick = choose|pick: nat|
                    pick < grown.free_cells() && self@ == #[trigger] grown.fed(pick);
            }
        }
        self.judge();
        proof {
            assert(self@ == old(self)@.step(elapsed_nanos as int, pick));
            lemma_step_keeps_wf(old(self)@, elapsed_nanos as int, pick);
        }
    }

    /// The square that a cell of the grid takes on screen.
    pub fn cell_rect(cell: (i32, i32)) -> (r: Rect)
        requires
            -MAX_DRAWN_CELL <= cell.0 <= MAX_DRAWN_CELL,
            -MAX_DRAWN_CELL <= cell.1 <= MAX_DRAWN_CELL,
        ensures
            r@ == (RectView {
                x: cell.0 * CELL_SIZE,
                y: cell.1 * CELL_SIZE,
                w: CELL_SIZE as int,
                h: CELL_SIZE as int,
            }),
    {
        Rect { x: cell.0 * CELL_SIZE, y: cell.1 * CELL_SIZE, w: CELL_SIZE, h: CELL_SIZE }
    }
}

/// Copies the cells of a snake.
pub fn copy_cells(cells: &VecDeque<(i32, i32)>) -> (copy: VecDeque<(i32, i32)>)
    ensures
        copy@ == cells@,
{
    let mut copy: VecDeque<(i32, i32)> = VecDeque::new();
    let mut i: usize = 0;
    while i < cells.len()
        invariant
            i <= cells.len(),
            copy@ == cells@.take(i as int),
        decreases cells.len() - i,
    {
        copy.push_back(cells[i]);
        assert(cells@.take(i + 1) =~= cells@.take(i as int).push(cells@[i as int]));
        i += 1;
    }
    assert(cells@.take(i as int) =~= cells@);
    copy
}

/// A step keeps the invariant of the game.
pub proof fn lemma_step_keeps_wf(game: SnakeView, delta: int, pick: nat)
    requires
        game.wf(),
        0 <= delta,
    ensures
        game.step(delta, pick).wf(),
{
    let after = game.step(delta, pick);
    if !game.game_over && game.move_due(delta) {
        let ahead = SnakeView { elapsed: 0, ..game }.advanced();
        assert(ahead.snake[0] == game.next_head());
        if ahead.eats() {
            assert(after.snake == ahead.grown().snake);
            assert(after.snake[0] == ahead.snake[0]);
        }
    }
}

/// After a step the game is over whenever the head lies on a cell of the body
/// other than the one right behind it.
pub proof fn lemma_step_bite_ends_game(game: SnakeView, delta: int, pick: nat)
    requires
        game.wf(),
    ensures
        game.step(delta, pick).bites_itself() ==> game.step(delta, pick).game_over,
{
}

/// New food lies on the board and off the snake.
pub proof fn lemma_new_food_is_free(game: SnakeView, pick: nat)
    requires
        pick < game.free_cells(),
    ensures
        game.board().contains(game.fed(pick).food),
        !game.fed(pick).snake.contains(game.fed(pick).food),
{
    game.board().lemma_nth_free(game.snake, pick);
}

/// After a move the game is over whenever the head has left the board or
/// bitten the body.
pub proof fn lemma_lost_position_ends_game(game: SnakeView, pick: nat)
    ensures
        game.moved(pick).lost() ==> game.moved(pick).game_over,
{
}

/// A snake with fewer cells than the board leaves room for new food after
/// its next meal.
pub proof fn lemma_short_snake_has_room(game: SnakeView)
    requires
        game.snake.len() >= 1,
        game.snake.len() < game.board().cells(),
    ensures
        game.room_after_meal() > 0,
{
    let ahead = game.advanced().snake;
    let grown = game.advanced().grown().snake;
    assert forall|cell: CellView| grown.contains(cell) == ahead.contains(cell) by {
        if grown.contains(cell) {
            let i = choose|i: int| 0 <= i < grown.len() && grown[i] == cell;
            if i < ahead.len() {
                assert(ahead[i] == cell);
            } else {
                assert(ahead[ahead.len() - 1] == cell);
            }
        }
        if ahead.contains(cell) {
            let i = choose|i: int| 0 <= i < ahead.len() && ahead[i] == cell;
            assert(grown[i] == cell);
        }
    }
    game.board().lemma_free_depends_on_cover(grown, ahead, 0);
    game.board().lemma_short_body_leaves_room(ahead);
}

} // verus!
