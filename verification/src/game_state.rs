use vstd::prelude::*;

use crate::keys::KeyValue;
use rand::Rng;

verus! {

/// Width of the square board, in cells.
pub const GAME_WIDTH: i32 = 32;

/// Total number of cells on the board.
pub const GAME_SIZE: usize = 32 * 32;

/// The two ways a tick can end the game: the head left the board, or it ran
/// into the snake's own body.
#[derive(Copy, Clone, Debug, PartialEq, Eq, Structural)]
pub enum SnakeDiedError {
    OffScreen,
    HitSelf,
}

impl SnakeDiedError {
    /// A human-readable account of the death, for the host to display.
    pub fn message(&self) -> (r: &'static str)
        ensures
            self is OffScreen ==> r@ == "Snake ran off screen!"@,
            self is HitSelf ==> r@ == "Snake ran into itself!"@,
    {
        match self {
            SnakeDiedError::OffScreen => "Snake ran off screen!",
            SnakeDiedError::HitSelf => "Snake ran into itself!",
        }
    }
}

/// The travel direction consumed by each tick to pick the neighbour link the
/// head follows.
#[derive(Copy, Clone, Debug, PartialEq, Eq, Structural)]
pub enum Direction {
    UP,
    RIGHT,
    DOWN,
    LEFT,
}

/// Whether the simulation accepts ticks: IDLE before a game and after a
/// death, RUNNING while ticking, PAUSED while suspended without reset.
#[derive(Copy, Clone, Debug, PartialEq, Eq, Structural)]
pub enum RunningState {
    IDLE,
    RUNNING,
    PAUSED,
}

/// Occupancy of one cell.
#[derive(Copy, Clone, Debug, PartialEq, Eq, Structural)]
pub enum Tile {
    SNAKE,
    EMPTY,
    APPLE,
}

/// One cell of the board: its coordinates, its flat index, the four optional
/// neighbour links fixed at construction, and its mutable occupancy state.
#[derive(Copy, Clone, Debug)]
pub struct GridTile {
    pub top: Option<usize>,
    pub right: Option<usize>,
    pub bottom: Option<usize>,
    pub left: Option<usize>,
    pub row: i32,
    pub col: i32,
    pub index: usize,
    pub state: Tile,
}

/// Coordinates and flat index of the tile at flat position `i`, before any
/// neighbour links are filled in; the cell starts empty.
spec fn tile_base_wf(t: GridTile, i: int) -> bool {
    &&& t.index == i
    &&& t.row as int == i / 32
    &&& t.col as int == i % 32
}

/// The immutable geometry of the tile at flat position `i`: its own index,
/// row/column coordinates, and the neighbour links.
///
/// Neighbour links are accepted purely by bounds checks on `i - 1`, `i + 1`,
/// `i - 32` and `i + 32`. Left and right links therefore wrap across row
/// boundaries (cell 31's right neighbour is cell 32, the start of the next
/// row). This mirrors the published behaviour of the board on purpose; only
/// cell 0 lacks a left link and only the last cell lacks a right link.
pub open spec fn tile_links_wf(t: GridTile, i: int) -> bool {
    &&& t.index == i
    &&& t.row as int == i / 32
    &&& t.col as int == i % 32
    &&& t.left == (if 1 <= i {
        Option::Some((i - 1) as usize)
    } else {
        Option::<usize>::None
    })
    &&& t.right == (if i + 1 < 1024 {
        Option::Some((i + 1) as usize)
    } else {
        Option::<usize>::None
    })
    &&& t.top == (if 32 <= i {
        Option::Some((i - 32) as usize)
    } else {
        Option::<usize>::None
    })
    &&& t.bottom == (if i + 32 < 1024 {
        Option::Some((i + 32) as usize)
    } else {
        Option::<usize>::None
    })
}

/// The board holds exactly one tile per cell and every tile carries the
/// geometry of its own position.
pub open spec fn board_wf(b: Seq<GridTile>) -> bool {
    &&& b.len() == 1024
    &&& forall|i: int| 0 <= i < 1024 ==> tile_links_wf(#[trigger] b[i], i)
}

impl GridTile {
    /// A blank tile: no links, origin coordinates, empty state.
    fn empty() -> (t: GridTile)
        ensures
            t.top is None,
            t.right is None,
            t.bottom is None,
            t.left is None,
            t.row == 0,
            t.col == 0,
            t.index == 0,
            t.state is EMPTY,
    {
        GridTile {
            top: None,
            right: None,
            bottom: None,
            left: None,
            col: 0,
            row: 0,
            index: 0,
            state: Tile::EMPTY,
        }
    }
}

/// The tile at `index`, or `None` when `index` falls outside the board.
fn safe_get<T>(index: i32, items: &Vec<T>) -> (r: Option<&T>)
    ensures
        (match r {
            Option::Some(t) => 0 <= index && (index as int) < items@.len() && *t == items@[index as int],
            Option::None => index < 0 || items@.len() <= index as int,
        }),
{
    if index >= 0 {
        let u: usize = index as usize;
        if u < items.len() {
            return Some(&items[u]);
        }
    }
    None
}

/// Builds the fixed board once: every cell learns its coordinates from its
/// flat index, then its neighbour links from pure bounds checks on the
/// adjacent indices (see `tile_links_wf` for the resulting link policy).
fn init_board() -> (board: Vec<GridTile>)
    ensures
        board_wf(board@),
        forall|i: int| 0 <= i < 1024 ==> (#[trigger] board@[i]).state is EMPTY,
{
    let mut board: Vec<GridTile> = Vec::new();

    let mut i: usize = 0;
    while i < GAME_SIZE
        invariant
            i <= GAME_SIZE,
            board@.len() == i,
            forall|j: int| 0 <= j < i ==> tile_base_wf(#[trigger] board@[j], j),
            forall|j: int| 0 <= j < i ==> (#[trigger] board@[j]).state is EMPTY,
        decreases GAME_SIZE - i,
    {
        let mut t = GridTile::empty();
        t.index = i;
        t.row = (i / 32) as i32;
        t.col = (i % 32) as i32;
        board.push(t);
        i = i + 1;
    }

    let mut i: usize = 0;
    while i < GAME_SIZE
        invariant
            i <= GAME_SIZE,
            board@.len() == GAME_SIZE,
            forall|j: int| 0 <= j < 1024 ==> tile_base_wf(#[trigger] board@[j], j),
            forall|j: int| 0 <= j < 1024 ==> (#[trigger] board@[j]).state is EMPTY,
            forall|j: int| 0 <= j < i ==> tile_links_wf(#[trigger] board@[j], j),
        decreases GAME_SIZE - i,
    {
        let idx: i32 = i as i32;

        let left = match safe_get(idx - 1, &board) {
            Some(t) => Some(t.index),
            None => None,
        };
        let right = match safe_get(idx + 1, &board) {
            Some(t) => Some(t.index),
            None => None,
        };
        let top = match safe_get(idx - GAME_WIDTH, &board) {
            Some(t) => Some(t.index),
            None => None,
        };
        let bottom = match safe_get(idx + GAME_WIDTH, &board) {
            Some(t) => Some(t.index),
            None => None,
        };

        let mut t = board[i];
        t.left = left;
        t.right = right;
        t.top = top;
        t.bottom = bottom;
        board.set(i, t);
        i = i + 1;
    }

    board
}

/// Size of one rendered cell: the cell count divided by the width, which for
/// a square board equals the width itself. Part of the coordinate contract
/// with the rendering host.
pub fn tile_size() -> (r: i32)
    ensures
        r == 32,
{
    (GAME_SIZE as i32) / GAME_WIDTH
}

/// Relies on rand::thread_rng and rand::Rng::gen_range: a uniform draw from
/// the half-open range `[lo, hi)`. `gen_range` panics on an empty range, so
/// the range must be non-empty; nothing more can be promised of a random
/// value than its bounds.
#[verifier::external_body]
fn random_index_in(lo: usize, hi: usize) -> (r: usize)
    requires
        lo < hi,
    ensures
        lo <= r < hi,
{
    rand::thread_rng().gen_range(lo..hi)
}

/// Spec-level snapshot of a whole engine: the board as a sequence of tiles,
/// the snake as the head-first sequence of occupied cell indices, the list
/// of every apple cell ever spawned, and the scalar fields.
pub ghost struct StateModel {
    pub board: Seq<GridTile>,
    pub snake: Seq<usize>,
    pub apples: Seq<usize>,
    pub direction: Direction,
    pub apples_collected: int,
    pub previous_best: int,
    pub running_state: RunningState,
    pub fps: int,
}

/// Cell `c` lies on the board and currently holds an apple.
pub open spec fn apple_at(b: Seq<GridTile>, c: int) -> bool {
    0 <= c < b.len() && b[c].state is APPLE
}

/// The engine's invariant: the board geometry is fixed and correct, the
/// snake is a non-empty duplicate-free list of on-board cells and is exactly
/// the set of SNAKE-state cells, exactly one cell holds an apple (the most
/// recently spawned one), and the score counts the snake's growth.
pub open spec fn state_wf(m: StateModel) -> bool {
    &&& board_wf(m.board)
    &&& 1 <= m.snake.len()
    &&& m.snake.no_duplicates()
    &&& forall|k: int| 0 <= k < m.snake.len() ==> (#[trigger] m.snake[k]) < 1024
    &&& forall|c: int|
        0 <= c < 1024 ==> ((#[trigger] m.board[c].state) is SNAKE <==> m.snake.contains(
            c as usize,
        ))
    &&& exists|c: int| apple_at(m.board, c)
    &&& forall|c1: int, c2: int|
        apple_at(m.board, c1) && apple_at(m.board, c2) ==> c1 == c2
    &&& 1 <= m.apples.len()
    &&& apple_at(m.board, m.apples.last() as int)
    &&& m.apples_collected == m.snake.len() - 1
}

/// Somewhere in the spawn range (everything below the top row) a cell is
/// still empty, so a placement can succeed.
pub open spec fn has_spawn_room(m: StateModel) -> bool {
    exists|c: int| 32 <= c < 1024 && (#[trigger] m.board[c].state) is EMPTY
}

/// The neighbour link the head would follow this tick, if any.
pub open spec fn head_target(m: StateModel) -> Option<usize> {
    let head = m.board[m.snake[0] as int];
    match m.direction {
        Direction::UP => head.top,
        Direction::RIGHT => head.right,
        Direction::DOWN => head.bottom,
        Direction::LEFT => head.left,
    }
}

/// The same engine, stopped: only the run state changes, to IDLE.
pub open spec fn halted(m: StateModel) -> StateModel {
    StateModel { running_state: RunningState::IDLE, ..m }
}

/// The same engine with another run state.
pub open spec fn with_running(m: StateModel, rs: RunningState) -> StateModel {
    StateModel { running_state: rs, ..m }
}

/// The same engine with another travel direction.
pub open spec fn with_direction(m: StateModel, d: Direction) -> StateModel {
    StateModel { direction: d, ..m }
}

/// The same tile with another occupancy state; coordinates and links are
/// untouched.
pub open spec fn tile_with_state(t: GridTile, s: Tile) -> GridTile {
    GridTile { state: s, ..t }
}

/// One successful tick into the empty cell `t`: the head advances to `t`,
/// the tail cell is freed, and everything else is untouched.
pub open spec fn empty_step(pre: StateModel, post: StateModel, t: usize) -> bool {
    let tail = pre.snake.last();
    &&& post.board == pre.board.update(
        tail as int,
        tile_with_state(pre.board[tail as int], Tile::EMPTY),
    ).update(t as int, tile_with_state(pre.board[t as int], Tile::SNAKE))
    &&& post.snake == seq![t] + pre.snake.drop_last()
    &&& post.apples == pre.apples
    &&& post.direction == pre.direction
    &&& post.apples_collected == pre.apples_collected
    &&& post.previous_best == pre.previous_best
    &&& post.running_state == pre.running_state
    &&& post.fps == pre.fps
}

/// One successful tick into the apple cell `t`: the snake grows by the new
/// head without losing its tail, the score goes up by one, and a fresh apple
/// appears on the empty cell `a` in the spawn range.
pub open spec fn apple_step(pre: StateModel, post: StateModel, t: usize, a: int) -> bool {
    &&& 32 <= a < 1024
    &&& a != t
    &&& pre.board[a].state is EMPTY
    &&& post.board == pre.board.update(a, tile_with_state(pre.board[a], Tile::APPLE)).update(
        t as int,
        tile_with_state(pre.board[t as int], Tile::SNAKE),
    )
    &&& post.snake == seq![t] + pre.snake
    &&& post.apples == pre.apples.push(a as usize)
    &&& post.apples_collected == pre.apples_collected + 1
    &&& post.direction == pre.direction
    &&& post.previous_best == pre.previous_best
    &&& post.running_state == pre.running_state
    &&& post.fps == pre.fps
}

/// Placement of the snake's single starting segment on the empty cell `i`.
pub open spec fn snake_spawn_step(pre: StateModel, post: StateModel, i: int) -> bool {
    &&& 32 <= i < 1024
    &&& pre.board[i].state is EMPTY
    &&& post.board == pre.board.update(i, tile_with_state(pre.board[i], Tile::SNAKE))
    &&& post.snake == pre.snake.push(i as usize)
    &&& post.apples == pre.apples
    &&& post.direction == pre.direction
    &&& post.apples_collected == pre.apples_collected
    &&& post.previous_best == pre.previous_best
    &&& post.running_state == pre.running_state
    &&& post.fps == pre.fps
}

/// Placement of a fresh apple on the empty cell `a`.
pub open spec fn apple_spawn_step(pre: StateModel, post: StateModel, a: int) -> bool {
    &&& 32 <= a < 1024
    &&& pre.board[a].state is EMPTY
    &&& post.board == pre.board.update(a, tile_with_state(pre.board[a], Tile::APPLE))
    &&& post.apples == pre.apples.push(a as usize)
    &&& post.snake == pre.snake
    &&& post.direction == pre.direction
    &&& post.apples_collected == pre.apples_collected
    &&& post.previous_best == pre.previous_best
    &&& post.running_state == pre.running_state
    &&& post.fps == pre.fps
}

/// What one run-state toggle yields: IDLE and PAUSED both start the game,
/// RUNNING pauses it.
pub open spec fn toggled(rs: RunningState) -> RunningState {
    match rs {
        RunningState::IDLE => RunningState::RUNNING,
        RunningState::PAUSED => RunningState::RUNNING,
        RunningState::RUNNING => RunningState::PAUSED,
    }
}

/// The direction a key maps to; an unrecognized key keeps the current one.
pub open spec fn direction_for(key: KeyValue, current: Direction) -> Direction {
    match key {
        KeyValue::DownArrow => Direction::DOWN,
        KeyValue::UpArrow => Direction::UP,
        KeyValue::RightArrow => Direction::RIGHT,
        KeyValue::LeftArrow => Direction::LEFT,
        _ => current,
    }
}

/// A duplicate-free sequence of values below `n` has at most `n` elements.
proof fn lemma_no_dup_len_bound(s: Seq<usize>, n: nat)
    requires
        s.no_duplicates(),
        forall|k: int| 0 <= k < s.len() ==> (#[trigger] s[k]) < n,
    ensures
        s.len() <= n,
{
    let si = s.map_values(|v: usize| v as int);
    assert(si.no_duplicates()) by {
        assert forall|i: int, j: int|
            0 <= i < si.len() && 0 <= j < si.len() && i != j implies si[i] != si[j] by {
            assert(s[i] != s[j]);
        }
    }
    si.unique_seq_to_set();
    assert(si.to_set().subset_of(vstd::set_lib::set_int_range(0, n as int))) by {
        assert forall|x: int| si.to_set().contains(x) implies vstd::set_lib::set_int_range(
            0,
            n as int,
        ).contains(x) by {
            let k = choose|k: int| 0 <= k < si.len() && si[k] == x;
            assert(s[k] < n);
        }
    }
    vstd::set_lib::lemma_int_range(0, n as int);
    vstd::set_lib::lemma_len_subset(si.to_set(), vstd::set_lib::set_int_range(0, n as int));
}

/// A successful tick into an empty cell preserves the engine invariant: the
/// moved snake is still duplicate-free, still exactly the SNAKE-state cells,
/// and the single apple is untouched.
proof fn lemma_empty_tick_wf(pre: StateModel, post: StateModel, t: usize)
    requires
        state_wf(pre),
        t < 1024,
        pre.board[t as int].state is EMPTY,
        empty_step(pre, post, t),
    ensures
        state_wf(post),
{
    let tail = pre.snake.last();
    assert(pre.snake[pre.snake.len() - 1] == tail);
    assert(pre.snake.contains(tail));
    assert(pre.board[tail as int].state is SNAKE);
    assert(!pre.snake.contains(t));
    assert(t != tail);
    assert(post.snake.len() == pre.snake.len());
    assert forall|c: int| 0 <= c < 1024 implies tile_links_wf(#[trigger] post.board[c], c) by {
        assert(tile_links_wf(pre.board[c], c));
    }
    assert forall|k: int| 0 <= k < post.snake.len() implies (#[trigger] post.snake[k])
        < 1024 by {
        if k > 0 {
            assert(post.snake[k] == pre.snake[k - 1]);
        }
    }
    assert(post.snake.no_duplicates()) by {
        assert forall|i: int, j: int|
            0 <= i < post.snake.len() && 0 <= j < post.snake.len() && i
                != j implies post.snake[i] != post.snake[j] by {
            if i == 0 {
                if post.snake[j] == t {
                    assert(pre.snake[j - 1] == t);
                    assert(pre.snake.contains(t));
                }
            } else if j == 0 {
                if post.snake[i] == t {
                    assert(pre.snake[i - 1] == t);
                    assert(pre.snake.contains(t));
                }
            } else {
                assert(post.snake[i] == pre.snake[i - 1]);
                assert(post.snake[j] == pre.snake[j - 1]);
            }
        }
    }
    assert forall|c: int|
        0 <= c < 1024 implies ((#[trigger] post.board[c].state) is SNAKE
        <==> post.snake.contains(c as usize)) by {
        if c == t as int {
            assert(post.snake[0] == t);
        } else if c == tail as int {
            assert(post.board[c].state is EMPTY);
            if post.snake.contains(c as usize) {
                let k = choose|k: int|
                    0 <= k < post.snake.len() && post.snake[k] == c as usize;
                assert(k != 0);
                assert(pre.snake[k - 1] == tail);
                assert(k - 1 != pre.snake.len() - 1);
                assert(false);
            }
        } else {
            assert(post.board[c] == pre.board[c]);
            if post.board[c].state is SNAKE {
                assert(pre.snake.contains(c as usize));
                let k = choose|k: int| 0 <= k < pre.snake.len() && pre.snake[k] == c as usize;
                assert(k != pre.snake.len() - 1);
                assert(post.snake[k + 1] == pre.snake[k]);
            }
            if post.snake.contains(c as usize) {
                let k = choose|k: int|
                    0 <= k < post.snake.len() && post.snake[k] == c as usize;
                assert(k != 0);
                assert(pre.snake[k - 1] == c as usize);
                assert(pre.snake.contains(c as usize));
            }
        }
    }
    let w = pre.apples.last() as int;
    assert(apple_at(pre.board, w));
    assert(w != t as int && w != tail as int);
    assert(apple_at(post.board, w));
    assert forall|c: int| apple_at(post.board, c) implies apple_at(pre.board, c) by {
        if c == t as int {
            assert(post.board[c].state is SNAKE);
        } else if c == tail as int {
            assert(post.board[c].state is EMPTY);
        } else {
            assert(post.board[c] == pre.board[c]);
        }
    }
}

/// A successful tick into the apple cell preserves the engine invariant:
/// the grown snake is still duplicate-free and exactly the SNAKE-state
/// cells, and the fresh apple is the single apple left.
proof fn lemma_apple_tick_wf(pre: StateModel, post: StateModel, t: usize, a: int)
    requires
        state_wf(pre),
        t < 1024,
        pre.board[t as int].state is APPLE,
        apple_step(pre, post, t, a),
    ensures
        state_wf(post),
{
    assert(apple_at(pre.board, t as int));
    assert(!pre.snake.contains(t));
    assert(!pre.snake.contains(a as usize));
    assert(post.snake.len() == pre.snake.len() + 1);
    assert forall|c: int| 0 <= c < 1024 implies tile_links_wf(#[trigger] post.board[c], c) by {
        assert(tile_links_wf(pre.board[c], c));
    }
    assert forall|k: int| 0 <= k < post.snake.len() implies (#[trigger] post.snake[k])
        < 1024 by {
        if k > 0 {
            assert(post.snake[k] == pre.snake[k - 1]);
        }
    }
    assert(post.snake.no_duplicates()) by {
        assert forall|i: int, j: int|
            0 <= i < post.snake.len() && 0 <= j < post.snake.len() && i
                != j implies post.snake[i] != post.snake[j] by {
            if i == 0 {
                if post.snake[j] == t {
                    assert(pre.snake[j - 1] == t);
                    assert(pre.snake.contains(t));
                }
            } else if j == 0 {
                if post.snake[i] == t {
                    assert(pre.snake[i - 1] == t);
                    assert(pre.snake.contains(t));
                }
            } else {
                assert(post.snake[i] == pre.snake[i - 1]);
                assert(post.snake[j] == pre.snake[j - 1]);
            }
        }
    }
    assert forall|c: int|
        0 <= c < 1024 implies ((#[trigger] post.board[c].state) is SNAKE
        <==> post.snake.contains(c as usize)) by {
        if c == t as int {
            assert(post.snake[0] == t);
        } else if c == a {
            assert(post.board[c].state is APPLE);
            if post.snake.contains(c as usize) {
                let k = choose|k: int|
                    0 <= k < post.snake.len() && post.snake[k] == c as usize;
                assert(k != 0);
                assert(pre.snake[k - 1] == c as usize);
                assert(pre.snake.contains(c as usize));
                assert(false);
            }
        } else {
            assert(post.board[c] == pre.board[c]);
            if post.board[c].state is SNAKE {
                assert(pre.snake.contains(c as usize));
                let k = choose|k: int| 0 <= k < pre.snake.len() && pre.snake[k] == c as usize;
                assert(post.snake[k + 1] == pre.snake[k]);
            }
            if post.snake.contains(c as usize) {
                let k = choose|k: int|
                    0 <= k < post.snake.len() && post.snake[k] == c as usize;
                assert(k != 0);
                assert(pre.snake[k - 1] == c as usize);
                assert(pre.snake.contains(c as usize));
            }
        }
    }
    assert(apple_at(post.board, a));
    assert forall|c: int| apple_at(post.board, c) implies c == a by {
        if c != a {
            if c == t as int {
                assert(post.board[c].state is SNAKE);
            } else {
                assert(post.board[c] == pre.board[c]);
                assert(apple_at(pre.board, c));
                assert(c == t as int);
            }
        }
    }
    assert(post.apples.last() == a as usize);
}

/// At the top-left corner the board offers no link up or left, so a tick
/// taken there with direction UP or LEFT finds no target and `move_snake`
/// must end the game OFF-SCREEN.
pub proof fn lemma_corner_has_no_up_or_left(m: StateModel)
    requires
        state_wf(m),
        m.snake[0] == 0,
        m.direction is UP || m.direction is LEFT,
    ensures
        head_target(m) is None,
{
    assert(tile_links_wf(m.board[0], 0));
}

/// In every well-formed engine state, each cell the snake occupies is in
/// SNAKE state; with `move_snake`'s postcondition this holds after every
/// successful tick.
pub proof fn lemma_snake_cells_are_snake(m: StateModel, k: int)
    requires
        state_wf(m),
        0 <= k < m.snake.len(),
    ensures
        m.snake[k] < 1024,
        m.board[m.snake[k] as int].state is SNAKE,
{
    assert(m.snake.contains(m.snake[k]));
}

/// No run-state toggle ever yields IDLE, and from the second toggle on the
/// run state alternates between RUNNING and PAUSED with period two: IDLE is
/// reached only through a death in `move_snake`.
pub proof fn lemma_toggle_never_idle(rs: RunningState)
    ensures
        !(toggled(rs) is IDLE),
        toggled(toggled(toggled(rs))) == toggled(rs),
{
}

/// The whole engine: board, snake, apples, direction, score and run state.
/// One value is one game session; a new session is a new value.
pub struct State {
    board: Vec<GridTile>,
    snake: Vec<usize>,
    apples: Vec<usize>,
    direction: Direction,
    apples_collected: i32,
    previous_best: i32,
    pub running_state: RunningState,
    pub fps: i32,
}

impl View for State {
    type V = StateModel;

    closed spec fn view(&self) -> StateModel {
        StateModel {
            board: self.board@,
            snake: self.snake@,
            apples: self.apples@,
            direction: self.direction,
            apples_collected: self.apples_collected as int,
            previous_best: self.previous_best as int,
            running_state: self.running_state,
            fps: self.fps as int,
        }
    }
}

impl State {
    /// The engine's invariant, established by `new` and preserved by every
    /// mutating operation.
    pub open spec fn wf(self) -> bool {
        state_wf(self@)
    }

    /// Picks a cell in the spawn range `[GAME_WIDTH, GAME_SIZE)` whose state
    /// is empty: a bounded number of uniform random draws first, then a
    /// linear sweep of the range so the search terminates. The caller
    /// guarantees a free cell in the range; with none, an unbounded retry
    /// loop could never return, which is why the obligation sits with the
    /// caller rather than in a retry that never ends.
    fn new_non_colliding_index(&self) -> (r: usize)
        requires
            self@.board.len() == 1024,
            has_spawn_room(self@),
        ensures
            32 <= r < 1024,
            self@.board[r as int].state is EMPTY,
    {
        let mut tries: usize = 0;
        while tries < 1024
            invariant
                self@.board.len() == 1024,
            decreases 1024 - tries,
        {
            let position = random_index_in(32, GAME_SIZE);
            match self.board[position].state {
                Tile::EMPTY => {
                    return position;
                },
                _ => {},
            }
            tries = tries + 1;
        }
        let mut position: usize = 32;
        while position < GAME_SIZE
            invariant
                self@.board.len() == 1024,
                has_spawn_room(self@),
                32 <= position <= 1024,
                forall|j: int| 32 <= j < position ==> !((#[trigger] self@.board[j].state) is EMPTY),
            decreases GAME_SIZE - position,
        {
            match self.board[position].state {
                Tile::EMPTY => {
                    return position;
                },
                _ => {},
            }
            position = position + 1;
        }
        proof {
            let w = choose|c: int| 32 <= c < 1024 && (#[trigger] self@.board[c].state) is EMPTY;
            assert(false);
        }
        32
    }

    /// Places the snake's single starting segment on a free cell of the
    /// spawn range and marks that cell occupied.
    fn spawn_snake(&mut self)
        requires
            old(self)@.board.len() == 1024,
            has_spawn_room(old(self)@),
        ensures
            exists|i: int| snake_spawn_step(old(self)@, final(self)@, i),
    {
        let index = self.new_non_colliding_index();
        self.snake.push(index);
        let mut t = self.board[index];
        t.state = Tile::SNAKE;
        self.board.set(index, t);
        proof {
            assert(snake_spawn_step(old(self)@, self@, index as int));
        }
    }

    /// Places a fresh apple on a free cell of the spawn range and marks that
    /// cell as holding it.
    fn spawn_new_apple(&mut self)
        requires
            old(self)@.board.len() == 1024,
            has_spawn_room(old(self)@),
        ensures
            exists|a: int| apple_spawn_step(old(self)@, final(self)@, a),
    {
        let index = self.new_non_colliding_index();
        self.apples.push(index);
        let mut t = self.board[index];
        t.state = Tile::APPLE;
        self.board.set(index, t);
        proof {
            assert(apple_spawn_step(old(self)@, self@, index as int));
        }
    }

    /// Builds one fresh session: the fixed board, a one-segment snake on a
    /// random free cell of the spawn range, one apple on another such cell,
    /// direction UP, score zero, run state IDLE, and the supplied previous
    /// best score (zero when absent).
    pub fn new(previous_best: Option<i32>) -> (s: State)
        ensures
            s.wf(),
            s@.snake.len() == 1,
            32 <= s@.snake[0] < 1024,
            s@.apples.len() == 1,
            32 <= s@.apples[0] < 1024,
            s@.apples[0] != s@.snake[0],
            s@.board[s@.snake[0] as int].state is SNAKE,
            s@.board[s@.apples[0] as int].state is APPLE,
            forall|c: int|
                0 <= c < 1024 && c != s@.snake[0] && c != s@.apples[0] ==> (
                #[trigger] s@.board[c].state) is EMPTY,
            s@.apples_collected == 0,
            s@.previous_best == previous_best.unwrap_or(0) as int,
            s@.direction is UP,
            s@.running_state is IDLE,
            s@.fps == 7,
    {
        let board = init_board();
        let mut state = State {
            board,
            snake: Vec::new(),
            apples: Vec::new(),
            direction: Direction::UP,
            apples_collected: 0,
            previous_best: previous_best.unwrap_or(0),
            running_state: RunningState::IDLE,
            fps: 7,
        };
        let ghost m0 = state@;
        proof {
            assert(m0.board[32].state is EMPTY);
        }
        state.spawn_snake();
        let ghost m1 = state@;
        proof {
            let i = choose|i: int| snake_spawn_step(m0, m1, i);
            if i == 32 {
                assert(m1.board[33] == m0.board[33]);
                assert(m1.board[33].state is EMPTY);
            } else {
                assert(m1.board[32].state is EMPTY);
            }
        }
        state.spawn_new_apple();
        proof {
            let m2 = state@;
            let i = choose|i: int| snake_spawn_step(m0, m1, i);
            let a = choose|a: int| apple_spawn_step(m1, m2, a);
            assert(m1.board[i].state is SNAKE);
            assert(a != i);
            assert(m2.snake =~= seq![i as usize]);
            assert(m2.apples =~= seq![a as usize]);
            assert(m2.board[i].state is SNAKE);
            assert(m2.board[a].state is APPLE);
            assert forall|c: int| 0 <= c < 1024 && c != i && c != a implies (
            #[trigger] m2.board[c].state) is EMPTY by {
                assert(m0.board[c].state is EMPTY);
            }
            assert forall|c: int| 0 <= c < 1024 implies tile_links_wf(
                #[trigger] m2.board[c],
                c,
            ) by {
                assert(tile_links_wf(m0.board[c], c));
            }
            assert forall|c: int|
                0 <= c < 1024 implies ((#[trigger] m2.board[c].state) is SNAKE
                <==> m2.snake.contains(c as usize)) by {
                if c == i {
                    assert(m2.snake[0] == i as usize);
                } else if m2.snake.contains(c as usize) {
                    let k = choose|k: int|
                        0 <= k < m2.snake.len() && m2.snake[k] == c as usize;
                    assert(false);
                }
            }
            assert(apple_at(m2.board, a));
            assert forall|c1: int, c2: int|
                apple_at(m2.board, c1) && apple_at(m2.board, c2) implies c1 == c2 by {
                assert(!(apple_at(m2.board, c1) && c1 != a));
                assert(!(apple_at(m2.board, c2) && c2 != a));
            }
            assert(m2.apples.last() == a as usize);
            assert(state.wf());
        }
        state
    }

    /// One tick: follow the head's neighbour link for the current direction.
    /// A missing link ends the game OFF-SCREEN; a snake cell ends it
    /// HIT-SELF (in both cases the run state drops to IDLE and nothing else
    /// changes). An apple cell grows the snake by the new head, counts the
    /// apple and spawns a fresh one; an empty cell moves the snake by one
    /// cell, freeing its old tail cell.
    ///
    /// When the tick eats the apple, a free cell in the spawn range must be
    /// left for the new apple: a placement on a board with no free cell
    /// could retry forever, so this core demands the room up front.
    pub fn move_snake(&mut self) -> (r: Result<(), SnakeDiedError>)
        requires
            old(self).wf(),
            (match head_target(old(self)@) {
                Option::Some(t) => old(self)@.board[t as int].state is APPLE
                    ==> has_spawn_room(old(self)@),
                Option::None => true,
            }),
        ensures
            final(self).wf(),
            (match head_target(old(self)@) {
                Option::None => r is Err && r->Err_0 is OffScreen && final(self)@ == halted(
                    old(self)@,
                ),
                Option::Some(t) => match old(self)@.board[t as int].state {
                    Tile::SNAKE => r is Err && r->Err_0 is HitSelf && final(self)@ == halted(
                        old(self)@,
                    ),
                    Tile::APPLE => r is Ok && (exists|a: int|
                        apple_step(old(self)@, final(self)@, t, a)),
                    Tile::EMPTY => r is Ok && empty_step(old(self)@, final(self)@, t),
                },
            }),
            r is Ok ==> final(self)@.snake.len() == old(self)@.snake.len()
                || final(self)@.snake.len() == old(self)@.snake.len() + 1,
            r is Err ==> final(self)@ == halted(old(self)@),
    {
        let head: usize = self.snake[0];
        let head_tile = self.board[head];
        let new_snake_index_option = match self.direction {
            Direction::UP => head_tile.top,
            Direction::RIGHT => head_tile.right,
            Direction::DOWN => head_tile.bottom,
            Direction::LEFT => head_tile.left,
        };

        match new_snake_index_option {
            Some(new_snake_index) => {
                proof {
                    assert(tile_links_wf(old(self)@.board[head as int], head as int));
                    assert(new_snake_index_option == head_target(old(self)@));
                    assert(new_snake_index < 1024);
                }
                match self.board[new_snake_index].state {
                    Tile::SNAKE => {
                        self.running_state = RunningState::IDLE;
                        Err(SnakeDiedError::HitSelf)
                    },
                    Tile::APPLE => {
                        proof {
                            lemma_no_dup_len_bound(old(self)@.snake, 1024);
                        }
                        self.apples_collected = self.apples_collected + 1;
                        let ghost m_counted = self@;
                        self.spawn_new_apple();
                        let ghost m_spawned = self@;
                        self.snake.insert(0, new_snake_index);
                        let mut tt = self.board[new_snake_index];
                        proof {
                            let a = choose|a: int| apple_spawn_step(m_counted, m_spawned, a);
                            assert(a != new_snake_index);
                            assert(tt == old(self)@.board[new_snake_index as int]);
                        }
                        tt.state = Tile::SNAKE;
                        self.board.set(new_snake_index, tt);
                        proof {
                            let pre = old(self)@;
                            let post = self@;
                            let t = new_snake_index;
                            let a = choose|a: int| apple_spawn_step(m_counted, m_spawned, a);
                            assert(post.snake =~= seq![t] + pre.snake);
                            assert(apple_step(pre, post, t, a));
                            lemma_apple_tick_wf(pre, post, t, a);
                        }
                        Ok(())
                    },
                    Tile::EMPTY => {
                        self.snake.insert(0, new_snake_index);
                        let last = self.snake.pop().unwrap();
                        proof {
                            assert(old(self)@.snake.contains(old(self)@.snake.last()));
                            assert(last == old(self)@.snake.last());
                            assert(last < 1024);
                        }
                        let mut tl = self.board[last];
                        tl.state = Tile::EMPTY;
                        self.board.set(last, tl);
                        let mut tt = self.board[new_snake_index];
                        proof {
                            assert(old(self)@.board[last as int].state is SNAKE);
                            assert(new_snake_index != last);
                            assert(tt == old(self)@.board[new_snake_index as int]);
                        }
                        tt.state = Tile::SNAKE;
                        self.board.set(new_snake_index, tt);
                        proof {
                            let pre = old(self)@;
                            let post = self@;
                            let t = new_snake_index;
                            assert(post.snake =~= seq![t] + pre.snake.drop_last());
                            assert(empty_step(pre, post, t));
                            lemma_empty_tick_wf(pre, post, t);
                        }
                        Ok(())
                    },
                }
            },
            None => {
                self.running_state = RunningState::IDLE;
                Err(SnakeDiedError::OffScreen)
            },
        }
    }

    /// Start or pause: IDLE and PAUSED both go to RUNNING, RUNNING goes to
    /// PAUSED. No toggle yields IDLE; only a death in `move_snake` does.
    pub fn toggle_game(&mut self)
        ensures
            final(self)@ == with_running(old(self)@, toggled(old(self)@.running_state)),
            old(self).wf() ==> final(self).wf(),
    {
        match self.running_state {
            RunningState::IDLE | RunningState::PAUSED => self.running_state =
                RunningState::RUNNING,
            RunningState::RUNNING => self.running_state = RunningState::PAUSED,
        }
    }

    /// Applies a directional key to the travel direction; every other key
    /// leaves the whole engine untouched.
    pub fn change_direction(&mut self, direction: KeyValue)
        ensures
            final(self)@ == with_direction(
                old(self)@,
                direction_for(direction, old(self)@.direction),
            ),
            !(direction is UpArrow || direction is DownArrow || direction is LeftArrow
                || direction is RightArrow) ==> final(self)@ == old(self)@,
            old(self).wf() ==> final(self).wf(),
    {
        match direction {
            KeyValue::DownArrow => self.direction = Direction::DOWN,
            KeyValue::UpArrow => self.direction = Direction::UP,
            KeyValue::RightArrow => self.direction = Direction::RIGHT,
            KeyValue::LeftArrow => self.direction = Direction::LEFT,
            _ => {},
        }
    }

    /// The full board, for the rendering host to read.
    pub fn board(&self) -> (r: &Vec<GridTile>)
        ensures
            r@ == self@.board,
    {
        &self.board
    }

    /// The snake's cells, head first, for the rendering host to read.
    pub fn snake(&self) -> (r: &Vec<usize>)
        ensures
            r@ == self@.snake,
    {
        &self.snake
    }

    /// How many apples this session has eaten so far.
    pub fn apples_collected(&self) -> (r: i32)
        ensures
            r as int == self@.apples_collected,
    {
        self.apples_collected
    }

    /// The best score of an earlier session, as supplied at construction.
    pub fn previous_best(&self) -> (r: i32)
        ensures
            r as int == self@.previous_best,
    {
        self.previous_best
    }

    /// The current travel direction.
    pub fn direction(&self) -> (r: Direction)
        ensures
            r == self@.direction,
    {
        self.direction
    }
}

} // verus!
