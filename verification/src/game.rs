//! The simulation core: the snake on its grid, the fruit, and the tick that
//! moves the snake, lets it eat and grow, or ends the game.

use crate::input::{InputDirection, InputValue};
use vstd::prelude::*;

verus! {

/// Number of columns of the arena.
pub const ARENA_WIDTH: u32 = 15;

/// Number of rows of the arena.
pub const ARENA_HEIGHT: u32 = 15;

/// How many random cells `fruit_spawner` tries before it searches the arena
/// cell by cell.
pub const SPAWN_ATTEMPTS: u32 = 64;

/// A grid cell as a pair of mathematical integers: column `x`, row `y`.
pub type Cell = (int, int);

/// A grid cell in machine integers.
#[derive(Clone, Copy, Debug, PartialEq, Eq, Structural)]
pub struct Position {
    pub x: i32,
    pub y: i32,
}

impl View for Position {
    type V = Cell;

    open spec fn view(&self) -> Cell {
        (self.x as int, self.y as int)
    }
}

/// The cells of a list of positions, in the same order.
pub open spec fn cells(s: Seq<Position>) -> Seq<Cell> {
    s.map_values(|p: Position| p@)
}

/// The cell of an optional position.
pub open spec fn cell_of(o: Option<Position>) -> Option<Cell> {
    match o {
        Some(p) => Some(p@),
        None => None,
    }
}

/// `true` for the cells of the arena: `0 <= x < ARENA_WIDTH` and
/// `0 <= y < ARENA_HEIGHT`.
pub open spec fn in_arena(c: Cell) -> bool {
    0 <= c.0 < ARENA_WIDTH && 0 <= c.1 < ARENA_HEIGHT
}

/// The cell one step from `c` in direction `d`. `Up` raises `y`, `Right`
/// raises `x`.
pub open spec fn neighbour(c: Cell, d: InputDirection) -> Cell {
    match d {
        InputDirection::Up => (c.0, c.1 + 1),
        InputDirection::Down => (c.0, c.1 - 1),
        InputDirection::Left => (c.0 - 1, c.1),
        InputDirection::Right => (c.0 + 1, c.1),
    }
}

/// Sent when the snake's head reaches the fruit.
#[derive(Clone, Copy, Debug, Default, PartialEq, Eq, Structural)]
pub struct EatEvent;

/// Sent when the snake runs into a wall or into itself.
#[derive(Clone, Copy, Debug, Default, PartialEq, Eq, Structural)]
pub struct DeathEvent;

/// What one tick reports to its caller.
#[derive(Clone, Copy, Debug, PartialEq, Eq, Structural)]
pub enum Event {
    Eaten(EatEvent),
    Died(DeathEvent),
}

/// The mathematical state of the simulation.
pub struct GameView {
    /// The snake's cells, head first.
    pub snake: Seq<Cell>,
    /// The fruit's cell, if a fruit is on the board.
    pub fruit: Option<Cell>,
    /// Where the tail was before the latest move.
    pub last_tail: Cell,
    /// Whether the game has ended.
    pub over: bool,
}

/// What reaches the simulation in one tick: the cell a spawner offers for a
/// new fruit, if it offers one, and then the direction to move in.
pub struct Tick {
    pub fruit: Option<Cell>,
    pub direction: InputDirection,
}

impl GameView {
    /// The state at the start of a game: a snake of two cells with its head
    /// at `(3, 3)`, no fruit.
    pub open spec fn initial() -> GameView {
        GameView::starting(seq![(3, 3), (2, 3)], None)
    }

    /// A running game with the given snake and fruit.
    pub open spec fn starting(snake: Seq<Cell>, fruit: Option<Cell>) -> GameView {
        GameView { snake, fruit, last_tail: (0, 0), over: false }
    }

    /// The snake has at least two cells, all inside the arena, no two the
    /// same.
    pub open spec fn snake_ok(self) -> bool {
        &&& self.snake.len() >= 2
        &&& forall|i: int| 0 <= i < self.snake.len() ==> in_arena(#[trigger] self.snake[i])
        &&& self.snake.no_duplicates()
    }

    /// `true` for the arena cells that the snake does not occupy.
    pub open spec fn is_free(self, c: Cell) -> bool {
        in_arena(c) && !self.snake.contains(c)
    }

    /// `true` when the snake leaves at least one arena cell free.
    pub open spec fn has_free_cell(self) -> bool {
        exists|c: Cell| #[trigger] self.is_free(c)
    }

    /// The snake is valid, and a fruit on the board lies on a free cell.
    pub open spec fn wf(self) -> bool {
        &&& self.snake_ok()
        &&& self.fruit matches Some(f) ==> self.is_free(f)
    }

    /// The snake's head.
    pub open spec fn head(self) -> Cell {
        self.snake[0]
    }

    /// `true` when moving the head to `c` ends the game: `c` is outside the
    /// arena, or one of the snake's cells before the move, the tail included.
    pub open spec fn fatal(self, c: Cell) -> bool {
        !in_arena(c) || self.snake.contains(c)
    }

    /// The state after one tick in direction `d`, and the events of that tick.
    ///
    /// A game that is over stays as it is. A fatal move ends the game and
    /// leaves the snake where it was. Any other move puts the head on the
    /// neighbouring cell and lets every other segment follow the one ahead;
    /// if the head lands on the fruit, the fruit goes and the snake keeps the
    /// cell its tail just left, growing by one.
    pub open spec fn step(self, d: InputDirection) -> (GameView, Seq<Event>) {
        let target = neighbour(self.head(), d);
        if self.over {
            (self, Seq::empty())
        } else if self.fatal(target) {
            (GameView { over: true, ..self }, seq![Event::Died(DeathEvent)])
        } else if self.fruit == Some(target) {
            (
                GameView {
                    snake: seq![target] + self.snake,
                    fruit: None,
                    last_tail: self.snake.last(),
                    over: false,
                },
                seq![Event::Eaten(EatEvent)],
            )
        } else {
            (
                GameView {
                    snake: seq![target] + self.snake.drop_last(),
                    fruit: self.fruit,
                    last_tail: self.snake.last(),
                    over: false,
                },
                Seq::empty(),
            )
        }
    }

    /// The state after an attempt to put a fruit on `c`: the fruit is placed
    /// when the board has none and `c` is free, and nothing changes otherwise.
    pub open spec fn place_fruit(self, c: Cell) -> GameView {
        if self.fruit is None && self.is_free(c) {
            GameView { fruit: Some(c), ..self }
        } else {
            self
        }
    }

    /// The state after one tick: the offered fruit is placed if it can be,
    /// then the snake moves.
    pub open spec fn tick(self, t: Tick) -> GameView {
        let spawned = match t.fruit {
            Some(c) => self.place_fruit(c),
            None => self,
        };
        spawned.step(t.direction).0
    }

    /// The state after the ticks `ts`, in order.
    pub open spec fn run(self, ts: Seq<Tick>) -> GameView
        decreases ts.len(),
    {
        if ts.len() == 0 {
            self
        } else {
            self.run(ts.drop_last()).tick(ts.last())
        }
    }
}

/// The simulation: the snake, the fruit, and whether the game is over.
pub struct Game {
    segments: Vec<Position>,
    fruit: Option<Position>,
    last_tail_position: Position,
    game_is_over: bool,
}

impl View for Game {
    type V = GameView;

    closed spec fn view(&self) -> GameView {
        GameView {
            snake: cells(self.segments@),
            fruit: cell_of(self.fruit),
            last_tail: self.last_tail_position@,
            over: self.game_is_over,
        }
    }
}

/// Whether `pos` is one of `segments`.
fn occupies(segments: &Vec<Position>, pos: Position) -> (r: bool)
    ensures
        r == cells(segments@).contains(pos@),
{
    let mut i: usize = 0;
    while i < segments.len()
        invariant
            i <= segments.len(),
            forall|j: int| 0 <= j < i ==> cells(segments@)[j] != pos@,
        decreases segments.len() - i,
    {
        if segments[i] == pos {
            assert(cells(segments@)[i as int] == pos@);
            return true;
        }
        i += 1;
    }
    false
}

/// Whether `pos` is a cell of the arena.
fn inside(pos: Position) -> (r: bool)
    ensures
        r == in_arena(pos@),
{
    pos.x >= 0 && pos.y >= 0 && pos.x < ARENA_WIDTH as i32 && pos.y < ARENA_HEIGHT as i32
}

/// Whether every one of `segments` is a cell of the arena.
fn all_inside(segments: &Vec<Position>) -> (r: bool)
    ensures
        r == (forall|i: int| 0 <= i < segments@.len() ==> in_arena(#[trigger] cells(segments@)[i])),
{
    let mut i: usize = 0;
    while i < segments.len()
        invariant
            i <= segments.len(),
            forall|j: int| 0 <= j < i ==> in_arena(#[trigger] cells(segments@)[j]),
        decreases segments.len() - i,
    {
        if !inside(segments[i]) {
            assert(!in_arena(cells(segments@)[i as int]));
            return false;
        }
        i += 1;
    }
    true
}

/// Whether no two of `segments` are the same cell.
fn all_distinct(segments: &Vec<Position>) -> (r: bool)
    ensures
        r == cells(segments@).no_duplicates(),
{
    let n: usize = segments.len();
    let mut i: usize = 0;
    while i < n
        invariant
            n == segments.len(),
            i <= n,
            forall|a: int, b: int|
                0 <= a < b < i ==> cells(segments@)[a] != cells(segments@)[b],
        decreases n - i,
    {
        let mut j: usize = 0;
        while j < i
            invariant
                n == segments.len(),
                i < n,
                j <= i,
                forall|a: int| 0 <= a < j ==> cells(segments@)[a] != cells(segments@)[i as int],
            decreases i - j,
        {
            if segments[j] == segments[i] {
                assert(cells(segments@)[j as int] == cells(segments@)[i as int]);
                return false;
            }
            j += 1;
        }
        i += 1;
    }
    assert forall|a: int, b: int|
        0 <= a < n && 0 <= b < n && a != b implies cells(segments@)[a] != cells(segments@)[b] by {
        if a < b {
        } else {
            assert(cells(segments@)[b] != cells(segments@)[a]);
        }
    }
    true
}

/// One `u32` from `rand::random`, which draws it from the thread-local
/// generator that the operating system seeds.
///
/// Nothing is claimed of the value: callers are verified for every `u32`.
/// `rand::random` panics where the operating system lets the generator down:
/// if it cannot be seeded at its first use in a thread, if its fork handler
/// cannot be registered then, or if a later reseeding fails, which is due
/// after every 64 KiB of output and after a fork of the process.
#[verifier::external_body]
fn random_u32() -> u32 {
    rand::random::<u32>()
}

/// A random cell of the arena: first the column is drawn, then the row.
fn random_position() -> (pos: Position)
    ensures
        in_arena(pos@),
{
    let column: u32 = random_u32();
    let row: u32 = random_u32();
    arena_position(column, row)
}

/// The arena cell that a pair of numbers stands for: each number is taken
/// modulo the arena's extent in its direction.
pub open spec fn arena_cell(column: int, row: int) -> Cell {
    (column % ARENA_WIDTH as int, row % ARENA_HEIGHT as int)
}

/// The arena cell that two drawn numbers stand for, the first for the column
/// and the second for the row. Every pair gives a cell of the arena, and every
/// cell of the arena is given by the pair of its own coordinates.
pub fn arena_position(column: u32, row: u32) -> (pos: Position)
    ensures
        pos@ == arena_cell(column as int, row as int),
        in_arena(pos@),
        in_arena((column as int, row as int)) ==> pos@ == (column as int, row as int),
{
    let x: u32 = column % ARENA_WIDTH;
    let y: u32 = row % ARENA_HEIGHT;
    Position { x: x as i32, y: y as i32 }
}

impl Game {
    /// The invariant that the constructors establish and every tick keeps.
    pub open spec fn wf(&self) -> bool {
        self@.wf()
    }

    /// A game at its start: a snake of two segments, head at `(3, 3)`, tail at
    /// `(2, 3)`, and no fruit yet.
    pub fn new() -> (g: Game)
        ensures
            g@ == GameView::initial(),
            g.wf(),
    {
        let mut segments: Vec<Position> = Vec::new();
        segments.push(Position { x: 3, y: 3 });
        segments.push(Position { x: 2, y: 3 });
        let g = Game {
            segments,
            fruit: None,
            last_tail_position: Position { x: 0, y: 0 },
            game_is_over: false,
        };
        assert(g@.snake =~= GameView::initial().snake);
        g
    }

    /// A running game with the given snake, head first, and fruit: for a game
    /// that starts from a chosen position.
    ///
    /// Returns `None` unless the snake has at least two segments, all inside
    /// the arena and no two on one cell, and the fruit, if given, lies on a
    /// free cell.
    pub fn from_parts(segments: Vec<Position>, fruit: Option<Position>) -> (r: Option<Game>)
        ensures
            r is Some <==> GameView::starting(cells(segments@), cell_of(fruit)).wf(),
            r matches Some(g) ==> g@ == GameView::starting(cells(segments@), cell_of(fruit)),
            r matches Some(g) ==> g.wf(),
    {
        if segments.len() < 2 || !all_inside(&segments) || !all_distinct(&segments) {
            return None;
        }
        if let Some(f) = fruit {
            if !inside(f) || occupies(&segments, f) {
                return None;
            }
        }
        Some(
            Game {
                segments,
                fruit,
                last_tail_position: Position { x: 0, y: 0 },
                game_is_over: false,
            },
        )
    }

    /// Puts a fruit on `pos` when the board has no fruit and `pos` is a free
    /// cell. Returns whether it did; otherwise nothing changes.
    pub fn place_fruit(&mut self, pos: Position) -> (placed: bool)
        requires
            old(self).wf(),
        ensures
            placed == (old(self)@.fruit is None && old(self)@.is_free(pos@)),
            final(self)@ == old(self)@.place_fruit(pos@),
            final(self).wf(),
    {
        if self.fruit.is_some() || !inside(pos) || occupies(&self.segments, pos) {
            return false;
        }
        self.fruit = Some(pos);
        true
    }

    /// A free cell, if the arena has one: the first in row order, bottom row
    /// first.
    fn first_free(&self) -> (r: Option<Position>)
        ensures
            r matches Some(p) ==> self@.is_free(p@),
            r is None ==> !self@.has_free_cell(),
    {
        let mut y: i32 = 0;
        while y < ARENA_HEIGHT as i32
            invariant
                0 <= y <= ARENA_HEIGHT,
                forall|c: Cell| in_arena(c) && c.1 < y ==> #[trigger] self@.snake.contains(c),
            decreases ARENA_HEIGHT - y,
        {
            let mut x: i32 = 0;
            while x < ARENA_WIDTH as i32
                invariant
                    0 <= y < ARENA_HEIGHT,
                    0 <= x <= ARENA_WIDTH,
                    forall|c: Cell| in_arena(c) && c.1 < y ==> #[trigger] self@.snake.contains(c),
                    forall|c: Cell|
                        in_arena(c) && c.1 == y && c.0 < x ==> #[trigger] self@.snake.contains(c),
                decreases ARENA_WIDTH - x,
            {
                let pos = Position { x, y };
                if !occupies(&self.segments, pos) {
                    return Some(pos);
                }
                x += 1;
            }
            y += 1;
        }
        None
    }

    /// Puts a fruit on a free cell when the board has none.
    ///
    /// Random cells are tried first, `SPAWN_ATTEMPTS` of them; if none was
    /// free, the arena is searched cell by cell. So a board without a fruit
    /// gets one whenever a free cell exists, and which free cell it is depends
    /// on chance. A board that has a fruit, or no free cell, stays as it is.
    pub fn fruit_spawner(&mut self)
        requires
            old(self).wf(),
        ensures
            old(self)@.fruit is Some || !old(self)@.has_free_cell() ==> final(self)@ == old(self)@,
            old(self)@.fruit is None && old(self)@.has_free_cell() ==> {
                &&& final(self)@.fruit matches Some(c)
                &&& old(self)@.is_free(c)
                &&& final(self)@ == old(self)@.place_fruit(c)
            },
            final(self).wf(),
    {
        if self.fruit.is_some() {
            return ;
        }
        let mut attempts: u32 = 0;
        while attempts < SPAWN_ATTEMPTS
            invariant
                self.wf(),
                self@ == old(self)@,
                self@.fruit is None,
            decreases SPAWN_ATTEMPTS - attempts,
        {
            let pos = random_position();
            if self.place_fruit(pos) {
                return ;
            }
            attempts += 1;
        }
        if let Some(pos) = self.first_free() {
            self.place_fruit(pos);
        }
    }

    /// Asks the input queue for this tick's direction and moves the snake one
    /// cell that way, or ends the game when the move is fatal. Does nothing,
    /// and asks for no direction, once the game is over.
    fn snake_movement(&mut self, input: &mut InputValue) -> (died: Option<DeathEvent>)
        requires
            old(self).wf(),
            old(input).wf(),
        ensures
            final(input).wf(),
            old(self)@.over ==> {
                &&& died is None
                &&& final(self)@ == old(self)@
                &&& final(input)@ == old(input)@
            },
            !old(self)@.over ==> {
                let target = neighbour(old(self)@.head(), old(input)@.next().0);
                &&& final(input)@ == old(input)@.next().1
                &&& old(self)@.fatal(target) ==> {
                    &&& died is Some
                    &&& final(self)@ == (GameView { over: true, ..old(self)@ })
                }
                &&& !old(self)@.fatal(target) ==> {
                    &&& died is None
                    &&& final(self)@ == (GameView {
                        snake: seq![target] + old(self)@.snake.drop_last(),
                        last_tail: old(self)@.snake.last(),
                        ..old(self)@
                    })
                }
            },
    {
        if self.game_is_over {
            return None;
        }
        let n: usize = self.segments.len();
        let head = self.segments[0];
        assert(in_arena(self@.snake[0]));
        let target = match input.next() {
            InputDirection::Up => Position { x: head.x, y: head.y + 1 },
            InputDirection::Down => Position { x: head.x, y: head.y - 1 },
            InputDirection::Left => Position { x: head.x - 1, y: head.y },
            InputDirection::Right => Position { x: head.x + 1, y: head.y },
        };
        if !inside(target) || occupies(&self.segments, target) {
            self.game_is_over = true;
            return Some(DeathEvent);
        }
        let mut shifted: Vec<Position> = Vec::new();
        shifted.push(target);
        let mut i: usize = 0;
        while i < n - 1
            invariant
                n == self.segments.len(),
                n >= 2,
                i <= n - 1,
                shifted@ == seq![target] + self.segments@.subrange(0, i as int),
            decreases n - 1 - i,
        {
            shifted.push(self.segments[i]);
            i += 1;
            assert(shifted@ =~= seq![target] + self.segments@.subrange(0, i as int));
        }
        assert(cells(shifted@) =~= seq![target@] + cells(self.segments@).drop_last());
        self.last_tail_position = self.segments[n - 1];
        self.segments = shifted;
        None
    }

    /// Takes the fruit off the board when the head is on it.
    fn snake_eating(&mut self) -> (eaten: Option<EatEvent>)
        requires
            old(self)@.snake.len() > 0,
        ensures
            old(self)@.fruit == Some(old(self)@.head()) ==> {
                &&& eaten is Some
                &&& final(self)@ == (GameView { fruit: None, ..old(self)@ })
            },
            old(self)@.fruit != Some(old(self)@.head()) ==> {
                &&& eaten is None
                &&& final(self)@ == old(self)@
            },
    {
        let head = self.segments[0];
        assert(self@.head() == head@);
        if let Some(fruit) = self.fruit {
            if fruit == head {
                self.fruit = None;
                return Some(EatEvent);
            }
        }
        None
    }

    /// Grows the snake by one segment, on the cell its tail just left, when
    /// the fruit was eaten.
    fn check_eat(&mut self, eaten: Option<EatEvent>)
        ensures
            eaten is Some ==> final(self)@ == (GameView {
                snake: old(self)@.snake.push(old(self)@.last_tail),
                ..old(self)@
            }),
            eaten is None ==> final(self)@ == old(self)@,
    {
        if eaten.is_some() {
            self.segments.push(self.last_tail_position);
            assert(cells(self.segments@) =~= cells(old(self).segments@).push(
                self.last_tail_position@,
            ));
        }
    }

    /// Advances the game by one tick.
    ///
    /// Takes this tick's direction from `input`, moves the snake, and reports
    /// what happened: `Eaten` when the head reached the fruit, in which case
    /// the snake has grown by the cell its tail left, `Died` when the move was
    /// fatal, in which case the game is over and the snake has not moved. Once
    /// the game is over a tick changes nothing, reports nothing and leaves
    /// `input` alone.
    pub fn step(&mut self, input: &mut InputValue) -> (events: Vec<Event>)
        requires
            old(self).wf(),
            old(input).wf(),
        ensures
            (final(self)@, events@) == old(self)@.step(old(input)@.next().0),
            final(input)@ == if old(self)@.over {
                old(input)@
            } else {
                old(input)@.next().1
            },
            final(self).wf(),
            final(input).wf(),
    {
        proof {
            lemma_step_keeps_wf(old(self)@, old(input)@.next().0);
        }
        let died = self.snake_movement(input);
        let eaten = self.snake_eating();
        self.check_eat(eaten);
        let mut events: Vec<Event> = Vec::new();
        if let Some(e) = eaten {
            events.push(Event::Eaten(e));
        }
        if let Some(e) = died {
            events.push(Event::Died(e));
        }
        proof {
            let g = old(self)@;
            let target = neighbour(g.head(), old(input)@.next().0);
            assert(g.snake.contains(g.head()));
            if !g.over && !g.fatal(target) {
                assert((seq![target] + g.snake.drop_last()).push(g.snake.last()) =~= seq![target]
                    + g.snake);
            }
            assert(events@ =~= g.step(old(input)@.next().0).1);
        }
        events
    }

    /// The snake's segments, head first.
    pub fn segments(&self) -> (r: &Vec<Position>)
        ensures
            cells(r@) == self@.snake,
    {
        &self.segments
    }

    /// The fruit's position, if a fruit is on the board.
    pub fn fruit(&self) -> (r: Option<Position>)
        ensures
            cell_of(r) == self@.fruit,
    {
        self.fruit
    }

    /// Where the tail was before the latest move.
    pub fn last_tail_position(&self) -> (r: Position)
        ensures
            r@ == self@.last_tail,
    {
        self.last_tail_position
    }

    /// Whether the game has ended; the snake is then shown as dead.
    pub fn is_over(&self) -> (r: bool)
        ensures
            r == self@.over,
    {
        self.game_is_over
    }
}

/// A tick keeps a well-formed game well-formed: the snake stays inside the
/// arena with no two segments on one cell, and a fruit stays off the snake.
pub proof fn lemma_step_keeps_wf(g: GameView, d: InputDirection)
    requires
        g.wf(),
    ensures
        g.step(d).0.wf(),
{
    let h = g.step(d).0;
    let target = neighbour(g.head(), d);
    if !g.over && !g.fatal(target) {
        let rest = if g.fruit == Some(target) {
            g.snake
        } else {
            g.snake.drop_last()
        };
        assert(h.snake =~= seq![target] + rest);
        assert forall|i: int| 0 <= i < rest.len() implies rest[i] == g.snake[i] by {}
        assert forall|i: int| 0 <= i < h.snake.len() implies in_arena(#[trigger] h.snake[i]) by {
            if i > 0 {
                assert(h.snake[i] == g.snake[i - 1]);
            }
        }
        assert forall|i: int, j: int|
            0 <= i < h.snake.len() && 0 <= j < h.snake.len() && i != j implies h.snake[i]
            != h.snake[j] by {
            if i > 0 {
                assert(h.snake[i] == g.snake[i - 1]);
            }
            if j > 0 {
                assert(h.snake[j] == g.snake[j - 1]);
            }
        }
        if let Some(f) = h.fruit {
            assert(!h.snake.contains(f)) by {
                if h.snake.contains(f) {
                    let i = choose|i: int| 0 <= i < h.snake.len() && h.snake[i] == f;
                    assert(i > 0);
                    assert(g.snake[i - 1] == f);
                }
            }
        }
    }
}

/// Placing a fruit keeps a well-formed game well-formed.
pub proof fn lemma_place_fruit_keeps_wf(g: GameView, c: Cell)
    requires
        g.wf(),
    ensures
        g.place_fruit(c).wf(),
{
}

/// In every state that ticks can reach from a well-formed one, running or
/// over, each segment of the snake lies inside the arena and no two segments
/// share a cell.
pub proof fn lemma_run_keeps_wf(g: GameView, ts: Seq<Tick>)
    requires
        g.wf(),
    ensures
        g.run(ts).wf(),
        forall|i: int|
            0 <= i < g.run(ts).snake.len() ==> {
                &&& 0 <= (#[trigger] g.run(ts).snake[i]).0 < ARENA_WIDTH
                &&& 0 <= g.run(ts).snake[i].1 < ARENA_HEIGHT
            },
        forall|i: int, j: int|
            0 <= i < j < g.run(ts).snake.len() ==> g.run(ts).snake[i] != g.run(ts).snake[j],
    decreases ts.len(),
{
    if ts.len() > 0 {
        let before = g.run(ts.drop_last());
        lemma_run_keeps_wf(g, ts.drop_last());
        let spawned = match ts.last().fruit {
            Some(c) => before.place_fruit(c),
            None => before,
        };
        lemma_step_keeps_wf(spawned, ts.last().direction);
    }
    let h = g.run(ts);
    assert forall|i: int| 0 <= i < h.snake.len() implies {
        &&& 0 <= (#[trigger] h.snake[i]).0 < ARENA_WIDTH
        &&& 0 <= h.snake[i].1 < ARENA_HEIGHT
    } by {
        assert(in_arena(h.snake[i]));
    }
}

/// A tick that eats the fruit lengthens the snake by exactly one segment, and
/// that segment lies where the tail was before the move; the rest of the
/// snake has moved as in any other tick. A tick that neither eats nor ends
/// the game keeps the length.
pub proof fn lemma_growth(g: GameView, d: InputDirection)
    requires
        g.snake.len() > 0,
        !g.over,
        !g.fatal(neighbour(g.head(), d)),
    ensures
        g.step(d).0.head() == neighbour(g.head(), d),
        g.step(d).0.last_tail == g.snake.last(),
        g.fruit == Some(neighbour(g.head(), d)) ==> {
            &&& g.step(d).1 == seq![Event::Eaten(EatEvent)]
            &&& g.step(d).0.fruit is None
            &&& g.step(d).0.snake.len() == g.snake.len() + 1
            &&& g.step(d).0.snake.last() == g.snake.last()
            &&& g.step(d).0.snake.drop_last() == seq![neighbour(g.head(), d)]
                + g.snake.drop_last()
        },
        g.fruit != Some(neighbour(g.head(), d)) ==> {
            &&& g.step(d).1 == Seq::<Event>::empty()
            &&& g.step(d).0.fruit == g.fruit
            &&& g.step(d).0.snake.len() == g.snake.len()
            &&& g.step(d).0.snake == seq![neighbour(g.head(), d)] + g.snake.drop_last()
        },
{
    let target = neighbour(g.head(), d);
    if g.fruit == Some(target) {
        assert((seq![target] + g.snake).drop_last() =~= seq![target] + g.snake.drop_last());
    }
}

/// A fatal move ends the game, reports the death once, and leaves the snake
/// and the fruit where they were.
pub proof fn lemma_fatal_move_ends_game(g: GameView, d: InputDirection)
    requires
        !g.over,
        g.fatal(neighbour(g.head(), d)),
    ensures
        g.step(d).1 == seq![Event::Died(DeathEvent)],
        g.step(d).0.over,
        g.step(d).0.snake == g.snake,
        g.step(d).0.fruit == g.fruit,
{
}

/// Once the game is over it stays over: no number of further ticks moves a
/// segment, and no further tick reports anything.
pub proof fn lemma_over_is_terminal(g: GameView, ts: Seq<Tick>, d: InputDirection)
    requires
        g.over,
    ensures
        g.step(d) == (g, Seq::<Event>::empty()),
        g.run(ts).over,
        g.run(ts).snake == g.snake,
        g.run(ts).step(d).1 == Seq::<Event>::empty(),
    decreases ts.len(),
{
    if ts.len() > 0 {
        lemma_over_is_terminal(g, ts.drop_last(), d);
    }
}

} // verus!
