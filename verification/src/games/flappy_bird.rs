//! A bird falls under gravity, flaps upward on demand and must pass through
//! the gaps of pipes that scroll towards it.
//!
//! Positions, sizes and speeds are whole numbers of tenths of a pixel, and time
//! is counted in frames.

use crate::geometry::{Rect, RectView, SCREEN_HEIGHT};
use crate::random::random_in_range;
use vstd::prelude::*;

verus! {

/// Downward acceleration: a tenth of a pixel per frame, every frame.
pub const GRAVITY: i32 = 1;

/// Vertical speed right after a flap: three pixels per frame upwards.
pub const FLAP_VELOCITY: i32 = -30;

/// Horizontal position of the bird's left edge.
pub const BIRD_X: i32 = 1000;

/// Vertical position of the bird's top edge when a game starts.
pub const BIRD_START_Y: i32 = 3000;

/// Side length of the square bird.
pub const BIRD_SIZE: i32 = 300;

/// Distance that the pipes travel to the left in one frame.
pub const PIPE_SPEED: i32 = 40;

/// Height of the opening between the upper and the lower half of a pipe.
pub const PIPE_GAP: i32 = 2500;

/// Width of a freshly spawned pipe.
pub const PIPE_WIDTH: i32 = 500;

/// Where a fresh pipe appears: at the right edge of the window.
pub const PIPE_SPAWN_X: i32 = 8000;

/// A fresh pipe appears as soon as the newest one has moved left of this line.
pub const PIPE_SPACING_X: i32 = 6000;

/// Smallest height of the upper half of a fresh pipe.
pub const MIN_PIPE_HEIGHT: i32 = 1000;

/// Upper bound, not reached, on the height of the upper half of a fresh pipe.
pub const MAX_PIPE_HEIGHT: i32 = 4000;

/// Largest pipe width, pipe speed, gap and downward speed that the arithmetic
/// is proved for.
pub const SPAN_LIMIT: i32 = 1_000_000_000;

/// One obstacle: an upper block hanging from the top of the window and a
/// lower block of the same height whose top edge is at `y`.
#[derive(Clone, Copy, Debug, PartialEq, Eq, Structural)]
pub struct Pipe {
    pub x: i32,
    pub y: i32,
    pub width: i32,
    pub height: i32,
}

/// A pipe as four mathematical integers.
pub struct PipeView {
    pub x: int,
    pub y: int,
    pub width: int,
    pub height: int,
}

impl PipeView {
    /// The block that hangs from the top of the window.
    pub open spec fn top_rect(self) -> RectView {
        RectView { x: self.x, y: 0, w: self.width, h: self.height }
    }

    /// The block that rises from `y`.
    pub open spec fn bottom_rect(self) -> RectView {
        RectView { x: self.x, y: self.y, w: self.width, h: self.height }
    }

    /// The same pipe, `distance` further to the left.
    pub open spec fn shifted(self, distance: int) -> PipeView {
        PipeView { x: self.x - distance, ..self }
    }

    /// Whether some part of the pipe is still right of the window's left edge.
    pub open spec fn on_screen(self) -> bool {
        self.x + self.width > 0
    }

    /// Whether the pipe lies entirely left of the vertical line at `x`.
    pub open spec fn is_behind(self, x: int) -> bool {
        self.x + self.width < x
    }

    /// Whether either block of the pipe touches `body`.
    pub open spec fn touches(self, body: RectView) -> bool {
        body.meets(self.top_rect()) || body.meets(self.bottom_rect())
    }

    /// Whether the pipe is one that the game keeps: partly on screen and of a
    /// width within the proved range.
    pub open spec fn wf(self) -> bool {
        &&& 0 <= self.width <= SPAN_LIMIT
        &&& self.on_screen()
    }
}

impl View for Pipe {
    type V = PipeView;

    open spec fn view(&self) -> PipeView {
        PipeView {
            x: self.x as int,
            y: self.y as int,
            width: self.width as int,
            height: self.height as int,
        }
    }
}

impl Pipe {
    /// The block that hangs from the top of the window.
    pub fn top_rect(&self) -> (r: Rect)
        ensures
            r@ == self@.top_rect(),
    {
        Rect { x: self.x, y: 0, w: self.width, h: self.height }
    }

    /// The block that rises from `y`.
    pub fn bottom_rect(&self) -> (r: Rect)
        ensures
            r@ == self@.bottom_rect(),
    {
        Rect { x: self.x, y: self.y, w: self.width, h: self.height }
    }
}

/// The views of a list of pipes, in order.
pub open spec fn pipe_views(pipes: Seq<Pipe>) -> Seq<PipeView> {
    pipes.map_values(|p: Pipe| p@)
}

/// State of one game.
#[derive(Debug, PartialEq)]
pub struct FlappyBirdGame {
    /// Top-left corner of the bird.
    pub position: (i32, i32),
    pub width: i32,
    pub height: i32,
    /// Vertical speed in units per frame; positive is downwards.
    pub velocity: i32,
    /// The pipes on screen, oldest first.
    pub pipes: Vec<Pipe>,
    pub pipe_speed: i32,
    pub pipe_gap: i32,
    pub score: u32,
    pub is_dead: bool,
}

/// A game as mathematical values.
pub struct FlappyBirdView {
    pub x: int,
    pub y: int,
    pub width: int,
    pub height: int,
    pub velocity: int,
    pub pipes: Seq<PipeView>,
    pub pipe_speed: int,
    pub pipe_gap: int,
    pub score: int,
    pub is_dead: bool,
}

impl FlappyBirdView {
    /// The state in which every game starts.
    pub open spec fn initial() -> FlappyBirdView {
        FlappyBirdView {
            x: BIRD_X as int,
            y: BIRD_START_Y as int,
            width: BIRD_SIZE as int,
            height: BIRD_SIZE as int,
            velocity: 0,
            pipes: Seq::empty(),
            pipe_speed: PIPE_SPEED as int,
            pipe_gap: PIPE_GAP as int,
            score: 0,
            is_dead: false,
        }
    }

    /// The rectangle that the bird occupies.
    pub open spec fn bird_rect(self) -> RectView {
        RectView { x: self.x, y: self.y, w: self.width, h: self.height }
    }

    /// Whether the bird reaches above the top or below the bottom of the
    /// window.
    pub open spec fn out_of_bounds(self) -> bool {
        self.y < 0 || self.y + self.height > SCREEN_HEIGHT
    }

    /// The fixed sizes and speeds are within the range that the arithmetic is
    /// proved for.
    pub open spec fn params_wf(self) -> bool {
        &&& 0 <= self.height
        &&& 0 <= self.pipe_speed <= SPAN_LIMIT
        &&& -SPAN_LIMIT <= self.pipe_gap <= SPAN_LIMIT
    }

    /// Every pipe in the list is partly on screen.
    pub open spec fn pipes_wf(self) -> bool {
        forall|i: int| 0 <= i < self.pipes.len() ==> (#[trigger] self.pipes[i]).wf()
    }

    /// While the bird lives it is inside the window, and its downward speed
    /// is within the range that the arithmetic is proved for.
    pub open spec fn bird_wf(self) -> bool {
        !self.is_dead ==> !self.out_of_bounds() && self.velocity <= SPAN_LIMIT
    }

    /// The invariant of a game in play.
    pub open spec fn wf(self) -> bool {
        &&& self.params_wf()
        &&& self.pipes_wf()
        &&& self.bird_wf()
    }

    /// Gravity acts for one frame: the bird speeds up, moves, and dies if it
    /// leaves the window.
    pub open spec fn fallen(self) -> FlappyBirdView {
        let velocity = self.velocity + GRAVITY;
        let moved = FlappyBirdView { velocity, y: self.y + velocity, ..self };
        FlappyBirdView { is_dead: self.is_dead || moved.out_of_bounds(), ..moved }
    }

    /// The pipes move left by the pipe speed, and those that have left the
    /// window are dropped.
    pub open spec fn scrolled(self) -> FlappyBirdView {
        FlappyBirdView {
            pipes: self.pipes.map_values(|p: PipeView| p.shifted(self.pipe_speed)).filter(
                |p: PipeView| p.on_screen(),
            ),
            ..self
        }
    }

    /// Whether the next pipe is due: there is none, or the newest has moved
    /// far enough from the right edge.
    pub open spec fn pipe_due(self) -> bool {
        self.pipes.len() == 0 || self.pipes.last().x < PIPE_SPACING_X
    }

    /// The pipe that appears when the upper block is `height` tall.
    pub open spec fn fresh_pipe(self, height: int) -> PipeView {
        PipeView {
            x: PIPE_SPAWN_X as int,
            y: height + self.pipe_gap,
            width: PIPE_WIDTH as int,
            height,
        }
    }

    /// A fresh pipe joins the list.
    pub open spec fn spawned(self, height: int) -> FlappyBirdView {
        FlappyBirdView { pipes: self.pipes.push(self.fresh_pipe(height)), ..self }
    }

    /// How many pipes lie entirely left of the bird.
    pub open spec fn passed_pipes(self) -> nat {
        self.pipes.filter(|p: PipeView| p.is_behind(self.x)).len()
    }

    /// Each pipe behind the bird earns a point.
    pub open spec fn scored(self) -> FlappyBirdView {
        FlappyBirdView { score: self.score + self.passed_pipes(), ..self }
    }

    /// Whether the bird touches a block of any pipe.
    pub open spec fn hits_pipe(self) -> bool {
        exists|i: int|
            0 <= i < self.pipes.len() && (#[trigger] self.pipes[i]).touches(self.bird_rect())
    }

    /// Touching a pipe kills the bird.
    pub open spec fn collided(self) -> FlappyBirdView {
        FlappyBirdView { is_dead: self.is_dead || self.hits_pipe(), ..self }
    }

    /// One frame of a live game, where `pipe_height` is the height of the
    /// pipe that appears, if one is due.
    pub open spec fn tick(self, pipe_height: int) -> FlappyBirdView {
        let moved = self.fallen().scrolled();
        let filled = if moved.pipe_due() {
            moved.spawned(pipe_height)
        } else {
            moved
        };
        filled.scored().collided()
    }

    /// One frame: a dead game stays as it is, a live one ticks.
    pub open spec fn step(self, pipe_height: int) -> FlappyBirdView {
        if self.is_dead {
            self
        } else {
            self.tick(pipe_height)
        }
    }

    /// A flap: a live bird gets its upward speed, a dead one nothing.
    pub open spec fn flapped(self) -> FlappyBirdView {
        if self.is_dead {
            self
        } else {
            FlappyBirdView { velocity: FLAP_VELOCITY as int, ..self }
        }
    }
}

impl View for FlappyBirdGame {
    type V = FlappyBirdView;

    open spec fn view(&self) -> FlappyBirdView {
        FlappyBirdView {
            x: self.position.0 as int,
            y: self.position.1 as int,
            width: self.width as int,
            height: self.height as int,
            velocity: self.velocity as int,
            pipes: pipe_views(self.pipes@),
            pipe_speed: self.pipe_speed as int,
            pipe_gap: self.pipe_gap as int,
            score: self.score as int,
            is_dead: self.is_dead,
        }
    }
}

impl FlappyBirdGame {
    /// A new game: the bird at rest in the middle of the window, no pipes.
    pub fn new() -> (game: FlappyBirdGame)
        ensures
            game@ == FlappyBirdView::initial(),
            game@.wf(),
    {
        let game = FlappyBirdGame {
            position: (BIRD_X, BIRD_START_Y),
            width: BIRD_SIZE,
            height: BIRD_SIZE,
            velocity: 0,
            pipes: Vec::new(),
            pipe_speed: PIPE_SPEED,
            pipe_gap: PIPE_GAP,
            score: 0,
            is_dead: false,
        };
        assert(game@.pipes =~= Seq::empty());
        game
    }

    /// The rectangle that the bird occupies.
    pub fn bird_rect(&self) -> (r: Rect)
        ensures
            r@ == self@.bird_rect(),
    {
        Rect { x: self.position.0, y: self.position.1, w: self.width, h: self.height }
    }

    /// Sends a live bird upwards; a dead bird does not react.
    pub fn flap(&mut self)
        ensures
            final(self)@ == old(self)@.flapped(),
            old(self)@.wf() ==> final(self)@.wf(),
    {
        if !self.is_dead {
            self.velocity = FLAP_VELOCITY;
        }
        assert(self@.pipes == old(self)@.pipes);
    }

    /// Lets gravity act on the bird for one frame.
    pub fn fall(&mut self)
        requires
            old(self)@.params_wf(),
            old(self)@.bird_wf(),
            !old(self).is_dead,
        ensures
            final(self)@ == old(self)@.fallen(),
            final(self)@.bird_wf(),
    {
        self.velocity = self.velocity + GRAVITY;
        self.position.1 = self.position.1 + self.velocity;
        if self.position.1 < 0 || self.position.1 + self.height > SCREEN_HEIGHT {
            self.is_dead = true;
        }
        proof {
            lemma_fall_keeps_bird_wf(old(self)@);
        }
    }

    /// Moves every pipe left by the pipe speed and drops those that have left
    /// the window.
    pub fn scroll_pipes(&mut self)
        requires
            old(self)@.params_wf(),
            old(self)@.pipes_wf(),
        ensures
            final(self)@ == old(self)@.scrolled(),
            final(self)@.pipes_wf(),
    {
        let ghost before = self@.pipes;
        let ghost shift = |p: PipeView| p.shifted(self@.pipe_speed);
        let ghost visible = |p: PipeView| p.on_screen();
        let mut kept: Vec<Pipe> = Vec::new();
        let mut i: usize = 0;
        proof {
            Seq::<PipeView>::empty().lemma_filter_len(visible);
            assert(before.take(0).map_values(shift) =~= Seq::empty());
            assert(pipe_views(kept@) =~= Seq::empty());
        }
        while i < self.pipes.len()
            invariant
                i <= self.pipes.len(),
                *self == *old(self),
                before == self@.pipes,
                shift == |p: PipeView| p.shifted(self@.pipe_speed),
                visible == |p: PipeView| p.on_screen(),
                self@.params_wf(),
                self@.pipes_wf(),
                pipe_views(kept@) == before.take(i as int).map_values(shift).filter(visible),
                forall|j: int| 0 <= j < kept@.len() ==> (#[trigger] kept@[j])@.wf(),
            decreases self.pipes.len() - i,
        {
            let pipe = self.pipes[i];
            assert(before[i as int] == pipe@);
            assert(before[i as int].wf());
            let moved = Pipe {
                x: pipe.x - self.pipe_speed,
                y: pipe.y,
                width: pipe.width,
                height: pipe.height,
            };
            proof {
                assert(before.take(i + 1).map_values(shift) =~= before.take(i as int).map_values(
                    shift,
                ).push(moved@));
                before.take(i as int).map_values(shift).lemma_filter_push(moved@, visible);
            }
            let ghost kept_before = kept@;
            if moved.x as i64 + moved.width as i64 > 0 {
                kept.push(moved);
                assert(pipe_views(kept@) =~= pipe_views(kept_before).push(moved@));
            }
            i += 1;
        }
        assert(before.take(i as int) =~= before);
        self.pipes = kept;
    }

    /// Tells whether the next pipe is due.
    pub fn pipe_due(&self) -> (due: bool)
        ensures
            due == self@.pipe_due(),
    {
        let n = self.pipes.len();
        n == 0 || self.pipes[n - 1].x < PIPE_SPACING_X
    }

    /// Adds a pipe at the right edge of the window whose upper block is
    /// `height` tall.
    pub fn spawn_pipe(&mut self, height: i32)
        requires
            old(self)@.params_wf(),
            MIN_PIPE_HEIGHT <= height < MAX_PIPE_HEIGHT,
        ensures
            final(self)@ == old(self)@.spawned(height as int),
    {
        let pipe = Pipe {
            x: PIPE_SPAWN_X,
            y: height + self.pipe_gap,
            width: PIPE_WIDTH,
            height,
        };
        self.pipes.push(pipe);
        assert(self@.pipes =~= old(self)@.pipes.push(pipe@));
    }

    /// Adds a pipe of random height at the right edge of the window.
    pub fn generate_pipe(&mut self)
        requires
            old(self)@.params_wf(),
        ensures
            exists|height: int|
                MIN_PIPE_HEIGHT <= height < MAX_PIPE_HEIGHT && final(self)@ == #[trigger] old(
                    self,
                )@.spawned(height),
    {
        let drawn: i64 = random_in_range(MIN_PIPE_HEIGHT as i64, MAX_PIPE_HEIGHT as i64);
        self.spawn_pipe(drawn as i32);
    }

    /// Adds one point for every pipe that lies entirely left of the bird.
    pub fn score_passed_pipes(&mut self)
        requires
            old(self)@.score + old(self)@.pipes.len() <= u32::MAX,
        ensures
            final(self)@ == old(self)@.scored(),
    {
        let ghost pipes = self@.pipes;
        let ghost behind = |p: PipeView| p.is_behind(self@.x);
        let mut passed: u32 = 0;
        let mut i: usize = 0;
        proof {
            Seq::<PipeView>::empty().lemma_filter_len(behind);
            assert(pipes.take(0) =~= Seq::empty());
        }
        while i < self.pipes.len()
            invariant
                i <= self.pipes.len(),
                *self == *old(self),
                pipes == self@.pipes,
                behind == |p: PipeView| p.is_behind(self@.x),
                passed == pipes.take(i as int).filter(behind).len(),
                passed <= i,
                self@.score + pipes.len() <= u32::MAX,
            decreases self.pipes.len() - i,
        {
            let pipe = self.pipes[i];
            proof {
                assert(pipes[i as int] == pipe@);
                assert(pipes.take(i + 1) =~= pipes.take(i as int).push(pipe@));
                pipes.take(i as int).lemma_filter_push(pipe@, behind);
            }
            if (pipe.x as i64 + pipe.width as i64) < self.position.0 as i64 {
                passed += 1;
            }
            i += 1;
        }
        assert(pipes.take(i as int) =~= pipes);
        self.score = self.score + passed;
    }

    /// Tells whether the bird touches a block of any pipe.
    pub fn hits_pipe(&self) -> (hit: bool)
        ensures
            hit == self@.hits_pipe(),
    {
        let bird = self.bird_rect();
        let mut i: usize = 0;
        while i < self.pipes.len()
            invariant
                i <= self.pipes.len(),
                bird@ == self@.bird_rect(),
                forall|j: int| 0 <= j < i ==> !(#[trigger] self@.pipes[j]).touches(bird@),
            decreases self.pipes.len() - i,
        {
            let pipe = self.pipes[i];
            assert(self@.pipes[i as int] == pipe@);
            if bird.overlaps(&pipe.top_rect()) || bird.overlaps(&pipe.bottom_rect()) {
                return true;
            }
            i += 1;
        }
        false
    }

    /// Kills the bird if it touches a pipe.
    pub fn check_collisions(&mut self)
        ensures
            final(self)@ == old(self)@.collided(),
    {
        if self.hits_pipe() {
            self.is_dead = true;
        }
        assert(self@.pipes == old(self)@.pipes);
    }

    /// Tells whether the game satisfies its invariant.
    pub fn is_valid(&self) -> (ok: bool)
        ensures
            ok == self@.wf(),
    {
        if self.height < 0 || self.pipe_speed < 0 || self.pipe_speed > SPAN_LIMIT || self.pipe_gap
            < -SPAN_LIMIT || self.pipe_gap > SPAN_LIMIT {
            return false;
        }
        let mut i: usize = 0;
        while i < self.pipes.len()
            invariant
                i <= self.pipes.len(),
                forall|j: int| 0 <= j < i ==> (#[trigger] self@.pipes[j]).wf(),
            decreases self.pipes.len() - i,
        {
            let pipe = self.pipes[i];
            assert(self@.pipes[i as int] == pipe@);
            if pipe.width < 0 || pipe.width > SPAN_LIMIT || pipe.x as i64 + pipe.width as i64 <= 0 {
                return false;
            }
            i += 1;
        }
        if self.is_dead {
            return true;
        }
        let y = self.position.1 as i64;
        y >= 0 && y + self.height as i64 <= SCREEN_HEIGHT as i64 && self.velocity <= SPAN_LIMIT
    }

    /// Tells whether the game can take a frame: it must satisfy its
    /// invariant, and the score must have room for a point from every pipe.
    pub fn can_update(&self) -> (ok: bool)
        ensures
            ok == (self@.wf() && self@.score + self@.pipes.len() < u32::MAX),
    {
        self.is_valid() && (self.pipes.len() as u64) < (u32::MAX - self.score) as u64
    }

    /// The first half of a frame: the bird falls and the pipes scroll.
    fn begin_frame(&mut self)
        requires
            old(self)@.wf(),
            !old(self).is_dead,
        ensures
            final(self)@ == old(self)@.fallen().scrolled(),
            final(self)@.params_wf(),
            final(self)@.pipes.len() <= old(self)@.pipes.len(),
    {
        self.fall();
        self.scroll_pipes();
        proof {
            let shift = |p: PipeView| p.shifted(old(self)@.pipe_speed);
            old(self)@.pipes.map_values(shift).lemma_filter_len(|p: PipeView| p.on_screen());
        }
    }

    /// The second half of a frame: passed pipes score and a collision kills
    /// the bird.
    fn end_frame(&mut self)
        requires
            old(self)@.score + old(self)@.pipes.len() <= u32::MAX,
        ensures
            final(self)@ == old(self)@.scored().collided(),
    {
        self.score_passed_pipes();
        self.check_collisions();
    }

    /// Advances the game by one frame, with `pipe_height` as the height of
    /// the pipe that appears in this frame, if one is due.
    pub fn update_with(&mut self, pipe_height: i32)
        requires
            old(self)@.wf(),
            old(self)@.score + old(self)@.pipes.len() < u32::MAX,
            MIN_PIPE_HEIGHT <= pipe_height < MAX_PIPE_HEIGHT,
        ensures
            final(self)@ == old(self)@.step(pipe_height as int),
            final(self)@.wf(),
    {
        proof {
            lemma_step_keeps_wf(self@, pipe_height as int);
        }
        if self.is_dead {
            return ;
        }
        self.begin_frame();
        if self.pipe_due() {
            self.spawn_pipe(pipe_height);
        }
        self.end_frame();
    }

    /// Advances the game by one frame. A dead game stays as it is. In a live
    /// one the bird falls, the pipes scroll, a pipe of random height appears
    /// if one is due, passed pipes score and a collision kills the bird.
    pub fn update(&mut self)
        requires
            old(self)@.wf(),
            old(self)@.score + old(self)@.pipes.len() < u32::MAX,
        ensures
            exists|height: int|
                MIN_PIPE_HEIGHT <= height < MAX_PIPE_HEIGHT && final(self)@ == #[trigger] old(
                    self,
                )@.step(height),
            final(self)@.wf(),
            final(self)@.out_of_bounds() ==> final(self).is_dead,
            forall|i: int|
                #![trigger final(self)@.pipes[i]]
                0 <= i < final(self)@.pipes.len() ==> final(self)@.pipes[i].on_screen(),
    {
        if self.is_dead {
            assert(self@ == old(self)@.step(MIN_PIPE_HEIGHT as int));
            return ;
        }
        self.begin_frame();
        let ghost height: int = MIN_PIPE_HEIGHT as int;
        if self.pipe_due() {
            let ghost before = self@;
            self.generate_pipe();
            proof {
                height = choose|h: int|
                    MIN_PIPE_HEIGHT <= h < MAX_PIPE_HEIGHT && self@ == #[trigger] before.spawned(h);
            }
        }
        self.end_frame();
        proof {
            assert(self@ == old(self)@.step(height));
            lemma_step_keeps_wf(old(self)@, height);
        }
    }
}

/// Falling keeps the bird's part of the invariant: a bird that is still inside
/// the window after a frame moves no faster than the height of the window per
/// frame.
pub proof fn lemma_fall_keeps_bird_wf(game: FlappyBirdView)
    requires
        game.params_wf(),
        game.bird_wf(),
        !game.is_dead,
    ensures
        game.fallen().bird_wf(),
        !game.fallen().is_dead ==> -SCREEN_HEIGHT <= game.fallen().velocity <= SCREEN_HEIGHT,
{
}

/// After a frame every pipe in the list is partly on screen: a pipe whose
/// right edge has reached the left edge of the window after moving is gone.
pub proof fn lemma_step_drops_pipes_off_screen(game: FlappyBirdView, pipe_height: int)
    requires
        game.pipes_wf(),
    ensures
        forall|i: int|
            #![trigger game.step(pipe_height).pipes[i]]
            0 <= i < game.step(pipe_height).pipes.len() ==> game.step(
                pipe_height,
            ).pipes[i].on_screen(),
        forall|i: int|
            0 <= i < game.pipes.len() && !(#[trigger] game.pipes[i]).shifted(
                game.pipe_speed,
            ).on_screen() ==> !game.step(pipe_height).pipes.contains(
                game.pipes[i].shifted(game.pipe_speed),
            ),
{
    let after = game.step(pipe_height).pipes;
    if !game.is_dead {
        let shift = |p: PipeView| p.shifted(game.pipe_speed);
        let visible = |p: PipeView| p.on_screen();
        let moved = game.pipes.map_values(shift);
        let kept = moved.filter(visible);
        assert(game.fallen().scrolled().pipes == kept);
        assert forall|i: int| 0 <= i < after.len() implies (#[trigger] after[i]).on_screen() by {
            if i < kept.len() {
                moved.lemma_filter_pred(visible, i);
            }
        }
    }
    assert forall|i: int|
        0 <= i < game.pipes.len() && !(#[trigger] game.pipes[i]).shifted(
            game.pipe_speed,
        ).on_screen() implies !after.contains(game.pipes[i].shifted(game.pipe_speed)) by {
        let gone = game.pipes[i].shifted(game.pipe_speed);
        if after.contains(gone) {
            let k = choose|k: int| 0 <= k < after.len() && after[k] == gone;
            assert(after[k].on_screen());
        }
    }
}

/// A frame of a live game keeps every pipe that is still partly on screen
/// after moving.
pub proof fn lemma_step_keeps_pipes_on_screen(game: FlappyBirdView, pipe_height: int)
    requires
        !game.is_dead,
    ensures
        forall|i: int|
            0 <= i < game.pipes.len() && (#[trigger] game.pipes[i]).shifted(
                game.pipe_speed,
            ).on_screen() ==> game.step(pipe_height).pipes.contains(
                game.pipes[i].shifted(game.pipe_speed),
            ),
{
    let shift = |p: PipeView| p.shifted(game.pipe_speed);
    let visible = |p: PipeView| p.on_screen();
    let moved = game.pipes.map_values(shift);
    let kept = moved.filter(visible);
    let after = game.step(pipe_height).pipes;
    assert(game.fallen().scrolled().pipes == kept);
    assert forall|i: int|
        0 <= i < game.pipes.len() && (#[trigger] game.pipes[i]).shifted(
            game.pipe_speed,
        ).on_screen() implies after.contains(game.pipes[i].shifted(game.pipe_speed)) by {
        assert(moved[i] == game.pipes[i].shifted(game.pipe_speed));
        moved.lemma_filter_contains(visible, i);
        let k = choose|k: int| 0 <= k < kept.len() && kept[k] == moved[i];
        assert(after[k] == moved[i]);
    }
}

/// A bird that is above the top or below the bottom of the window after a
/// frame is dead.
pub proof fn lemma_step_out_of_bounds_is_dead(game: FlappyBirdView, pipe_height: int)
    requires
        game.bird_wf(),
    ensures
        game.step(pipe_height).out_of_bounds() ==> game.step(pipe_height).is_dead,
{
}

/// A frame keeps the invariant of a game in play.
pub proof fn lemma_step_keeps_wf(game: FlappyBirdView, pipe_height: int)
    requires
        game.wf(),
    ensures
        game.step(pipe_height).wf(),
{
    if !game.is_dead {
        lemma_fall_keeps_bird_wf(game);
        let after = game.step(pipe_height);
        let shift = |p: PipeView| p.shifted(game.pipe_speed);
        let visible = |p: PipeView| p.on_screen();
        let moved = game.pipes.map_values(shift);
        let kept = moved.filter(visible);
        assert(game.fallen().scrolled().pipes == kept);
        assert forall|i: int| 0 <= i < after.pipes.len() implies (#[trigger] after.pipes[i]).wf(
        ) by {
            if i < kept.len() {
                moved.lemma_filter_pred(visible, i);
                moved.lemma_filter_contains_rev(visible, kept[i]);
                let k = choose|k: int| 0 <= k < moved.len() && moved[k] == kept[i];
                assert(game.pipes[k].wf());
            }
        }
    }
}

} // verus!
