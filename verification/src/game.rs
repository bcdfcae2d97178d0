use vstd::prelude::*;
use vstd::arithmetic::div_mod::lemma_fundamental_div_mod_converse_mod;
use vstd::arithmetic::div_mod::lemma_mod_bound;

use crate::counting::lemma_exists_free_cell;
use crate::util::Vec2;

verus! {

/// Default number of lines of the playing field.
pub const FIELD_LINES: usize = 16;

/// Default number of columns of the playing field.
pub const FIELD_COLS: usize = 25;

/// Content of one grid cell.  A snake segment carries its age: the number
/// of ticks it survives before reverting to `Free`.  The age doubles as the
/// distance from the head, which is stamped with the snake's full length.
#[derive(Clone, Copy, Debug, PartialEq, Eq, Structural)]
pub enum Tile {
    Snake(u16),
    Apple,
    Free,
}

/// The four directions the head can travel in.
#[derive(Clone, Copy, Debug, PartialEq, Eq, Structural)]
pub enum Direction {
    Left,
    Right,
    Up,
    Down,
}

impl Direction {
    /// The direction pointing the opposite way.
    pub open spec fn opposite_spec(self) -> Direction {
        match self {
            Direction::Left => Direction::Right,
            Direction::Right => Direction::Left,
            Direction::Up => Direction::Down,
            Direction::Down => Direction::Up,
        }
    }

    fn opposite(&self) -> (d: Direction)
        ensures
            d == self.opposite_spec(),
    {
        match self {
            Direction::Left => Direction::Right,
            Direction::Right => Direction::Left,
            Direction::Up => Direction::Down,
            Direction::Down => Direction::Up,
        }
    }
}

/// The coarse round state.
#[derive(Clone, Copy, Debug, PartialEq, Eq, Structural)]
pub enum GameState {
    Starting,
    Started,
    Ended,
}

/// The mathematical model of a game: the grid as a sequence of lines,
/// the head position, the snake length, the travel direction and the phase.
#[verifier::ext_equal]
pub ghost struct GameView {
    pub grid: Seq<Seq<Tile>>,
    pub head_x: int,
    pub head_y: int,
    pub length: int,
    pub direction: Direction,
    pub phase: GameState,
}

// ---------------------------------------------------------------------------
// Spec-level vocabulary about grids.
// ---------------------------------------------------------------------------

/// The grid is non-empty, rectangular, fits 16-bit coordinates and holds at
/// least two cells, so that an apple and a snake segment can always be placed.
pub open spec fn grid_dims_ok(g: Seq<Seq<Tile>>) -> bool {
    &&& 1 <= g.len() <= 0xFFFF
    &&& 1 <= g[0].len() <= 0xFFFF
    &&& 2 <= g.len() * g[0].len()
    &&& forall|i: int| 0 <= i < g.len() ==> (#[trigger] g[i]).len() == g[0].len()
}

/// `(line, col)` lies on the grid.
pub open spec fn in_grid(g: Seq<Seq<Tile>>, line: int, col: int) -> bool {
    0 <= line < g.len() && 0 <= col < g[0].len()
}

/// The grid with the cell at `(line, col)` replaced by `t`.
pub open spec fn grid_set(g: Seq<Seq<Tile>>, line: int, col: int, t: Tile) -> Seq<Seq<Tile>> {
    g.update(line, g[line].update(col, t))
}

/// A `lines` by `cols` grid of `Free` cells.
pub open spec fn all_free(lines: int, cols: int) -> Seq<Seq<Tile>> {
    Seq::new(lines as nat, |i: int| Seq::new(cols as nat, |j: int| Tile::Free))
}

/// The mathematical grid a vector of lines stands for.
pub open spec fn grid_of(rows: Seq<Vec<Tile>>) -> Seq<Seq<Tile>> {
    Seq::new(rows.len(), |i: int| rows[i]@)
}

pub open spec fn is_snake(t: Tile) -> bool {
    t is Snake
}

pub open spec fn is_apple(t: Tile) -> bool {
    t is Apple
}

pub open spec fn is_free(t: Tile) -> bool {
    t is Free
}

/// The age of a snake segment; 0 for the other tiles.
pub open spec fn tile_age(t: Tile) -> int {
    match t {
        Tile::Snake(a) => a as int,
        _ => 0,
    }
}

/// What one tick does to a single tile: snake segments age away, apples and
/// free cells are untouched.
pub open spec fn decay_tile(t: Tile) -> Tile {
    match t {
        Tile::Snake(a) => if a == 1 {
            Tile::Free
        } else {
            Tile::Snake((a - 1) as u16)
        },
        _ => t,
    }
}

/// The decay pass applied to the whole grid.
pub open spec fn decay_grid(g: Seq<Seq<Tile>>) -> Seq<Seq<Tile>> {
    Seq::new(g.len(), |i: int| Seq::new(g[i].len(), |j: int| decay_tile(g[i][j])))
}

/// Every snake segment has a positive age.
pub open spec fn ages_positive(g: Seq<Seq<Tile>>) -> bool {
    forall|i: int, j: int|
        in_grid(g, i, j) && is_snake(#[trigger] g[i][j]) ==> 1 <= tile_age(g[i][j])
}

/// Every snake segment's age is at most `bound`.
pub open spec fn ages_le(g: Seq<Seq<Tile>>, bound: int) -> bool {
    forall|i: int, j: int|
        in_grid(g, i, j) && is_snake(#[trigger] g[i][j]) ==> tile_age(g[i][j]) <= bound
}

/// No two distinct snake segments share an age.
pub open spec fn ages_distinct(g: Seq<Seq<Tile>>) -> bool {
    forall|i1: int, j1: int, i2: int, j2: int|
        in_grid(g, i1, j1) && in_grid(g, i2, j2) && (i1 != i2 || j1 != j2)
            && is_snake(#[trigger] g[i1][j1]) && is_snake(#[trigger] g[i2][j2])
            ==> tile_age(g[i1][j1]) != tile_age(g[i2][j2])
}

/// `(ai, aj)` holds the one and only apple on the grid.
pub open spec fn sole_apple(g: Seq<Seq<Tile>>, ai: int, aj: int) -> bool {
    &&& in_grid(g, ai, aj)
    &&& is_apple(g[ai][aj])
    &&& forall|i: int, j: int|
        in_grid(g, i, j) && is_apple(#[trigger] g[i][j]) ==> i == ai && j == aj
}

/// The grid holds exactly one apple.
pub open spec fn one_apple(g: Seq<Seq<Tile>>) -> bool {
    exists|ai: int, aj: int| #[trigger] sole_apple(g, ai, aj)
}

/// No two distinct cells both hold an apple.
pub open spec fn at_most_one_apple(g: Seq<Seq<Tile>>) -> bool {
    forall|i1: int, j1: int, i2: int, j2: int|
        in_grid(g, i1, j1) && in_grid(g, i2, j2)
            && is_apple(#[trigger] g[i1][j1]) && is_apple(#[trigger] g[i2][j2])
            ==> i1 == i2 && j1 == j2
}

/// Structural well-formedness of a game view: sound grid dimensions, the
/// head on the grid, and a positive length that fits in 16 bits.
pub open spec fn view_wf(v: GameView) -> bool {
    &&& grid_dims_ok(v.grid)
    &&& 0 <= v.head_y < v.grid.len()
    &&& 0 <= v.head_x < v.grid[0].len()
    &&& 1 <= v.length <= 0xFFFF
}

/// The game invariant.  Snake ages are always positive; while a round is
/// running the ages are pairwise distinct, bounded by the snake's length,
/// and exactly one apple sits on the grid.
pub open spec fn view_inv(v: GameView) -> bool {
    &&& view_wf(v)
    &&& ages_positive(v.grid)
    &&& v.phase == GameState::Started ==> {
        &&& ages_le(v.grid, v.length)
        &&& ages_distinct(v.grid)
        &&& one_apple(v.grid)
    }
}

/// The column step of a direction.
pub open spec fn dir_dx(d: Direction) -> int {
    match d {
        Direction::Left => -1,
        Direction::Right => 1,
        _ => 0,
    }
}

/// The line step of a direction.
pub open spec fn dir_dy(d: Direction) -> int {
    match d {
        Direction::Up => -1,
        Direction::Down => 1,
        _ => 0,
    }
}

/// One coordinate moved by `delta` and wrapped into `[0, m)` with the
/// mathematically non-negative (Euclidean) remainder.
pub open spec fn wrap_add(v: int, delta: int, m: int) -> int {
    (v + delta) % m
}

/// The column the head lands on next.
pub open spec fn next_head_x(v: GameView) -> int {
    wrap_add(v.head_x, dir_dx(v.direction), v.grid[0].len() as int)
}

/// The line the head lands on next.
pub open spec fn next_head_y(v: GameView) -> int {
    wrap_add(v.head_y, dir_dy(v.direction), v.grid.len() as int)
}

/// For an in-range coordinate and a step of at most one cell, the wrapped
/// coordinate is what the obvious case split computes.
proof fn lemma_wrap_add_cases(v: int, m: int)
    requires
        0 <= v < m,
    ensures
        wrap_add(v, 1, m) == (if v + 1 == m { 0int } else { v + 1 }),
        wrap_add(v, -1, m) == (if v == 0 { m - 1 } else { v - 1 }),
        wrap_add(v, 0, m) == v,
{
    if v + 1 == m {
        lemma_fundamental_div_mod_converse_mod(v + 1, m, 1, 0);
    } else {
        lemma_fundamental_div_mod_converse_mod(v + 1, m, 0, v + 1);
    }
    if v == 0 {
        lemma_fundamental_div_mod_converse_mod(v - 1, m, -1, m - 1);
    } else {
        lemma_fundamental_div_mod_converse_mod(v - 1, m, 0, v - 1);
    }
    lemma_fundamental_div_mod_converse_mod(v, m, 0, v);
}

/// The state a fresh game starts from.
pub open spec fn initial_view(lines: int, cols: int) -> GameView {
    GameView {
        grid: all_free(lines, cols),
        head_x: 0,
        head_y: 0,
        length: 1,
        direction: Direction::Right,
        phase: GameState::Starting,
    }
}

// ---------------------------------------------------------------------------
// The transition relations.  These are the contracts of `move_to` and
// `step`; they pin everything except which free cells the random placement
// picks.
// ---------------------------------------------------------------------------

/// An otherwise free grid holding the apple at `(ai, aj)` and the snake's
/// sole starting segment at `(si, sj)`.
pub open spec fn fresh_round_grid(
    lines: int,
    cols: int,
    ai: int,
    aj: int,
    si: int,
    sj: int,
) -> Seq<Seq<Tile>> {
    grid_set(grid_set(all_free(lines, cols), ai, aj, Tile::Apple), si, sj, Tile::Snake(1))
}

/// A restart chose the two distinct cells `(ai, aj)` (apple) and
/// `(si, sj)` (snake) and `post` holds the grid so filled.
pub open spec fn restart_placement(
    pre: GameView,
    post: GameView,
    ai: int,
    aj: int,
    si: int,
    sj: int,
) -> bool {
    &&& in_grid(pre.grid, ai, aj)
    &&& in_grid(pre.grid, si, sj)
    &&& (si != ai || sj != aj)
    &&& post.grid == fresh_round_grid(
        pre.grid.len() as int,
        pre.grid[0].len() as int,
        ai,
        aj,
        si,
        sj,
    )
}

/// What a direction request does.  Outside a running round it starts a
/// fresh one: length 1, a cleared grid holding one apple and one starting
/// segment on two random cells, phase `Started` and the requested
/// direction.  During a round it adopts the request unless it is the exact
/// opposite of the current direction, which is silently ignored.
pub open spec fn move_to_rel(pre: GameView, d: Direction, post: GameView) -> bool {
    if pre.phase != GameState::Started {
        &&& post.head_x == pre.head_x
        &&& post.head_y == pre.head_y
        &&& post.length == 1
        &&& post.direction == d
        &&& post.phase == GameState::Started
        &&& exists|ai: int, aj: int, si: int, sj: int|
            #[trigger] restart_placement(pre, post, ai, aj, si, sj)
    } else if d != pre.direction.opposite_spec() {
        post == (GameView { direction: d, ..pre })
    } else {
        post == pre
    }
}

/// A new apple was placed on the free cell `(ri, rj)`; nothing else moved.
pub open spec fn apple_spawn(
    pre_grid: Seq<Seq<Tile>>,
    post_grid: Seq<Seq<Tile>>,
    ri: int,
    rj: int,
) -> bool {
    &&& in_grid(pre_grid, ri, rj)
    &&& is_free(pre_grid[ri][rj])
    &&& post_grid == grid_set(pre_grid, ri, rj, Tile::Apple)
}

/// A tick that found an apple placed a new one on the free cell `(ri, rj)`
/// of the decayed grid `g1` and then stamped the head cell `(ny, nx)` with
/// the grown length `len_after`.
pub open spec fn apple_placement(
    g1: Seq<Seq<Tile>>,
    post_grid: Seq<Seq<Tile>>,
    ny: int,
    nx: int,
    len_after: int,
    ri: int,
    rj: int,
) -> bool {
    &&& in_grid(g1, ri, rj)
    &&& is_free(g1[ri][rj])
    &&& post_grid == grid_set(
        grid_set(g1, ri, rj, Tile::Apple),
        ny,
        nx,
        Tile::Snake(len_after as u16),
    )
}

/// What one tick does.  Every snake segment ages by one; outside a running
/// round that is all.  During a round the head then moves one cell along
/// the current direction, wrapping around the edges, and the cell it lands
/// on decides: a snake segment ends the round on a cleared grid; an apple
/// grows the snake and spawns a new apple on a random free cell; a free
/// cell changes nothing else.  Unless the round just ended, the head cell
/// is stamped with a fresh segment carrying the snake's length.
pub open spec fn step_rel(pre: GameView, post: GameView) -> bool {
    let g1 = decay_grid(pre.grid);
    let ny = next_head_y(pre);
    let nx = next_head_x(pre);
    &&& post.direction == pre.direction
    &&& if pre.phase != GameState::Started {
        post == (GameView { grid: g1, ..pre })
    } else {
        &&& post.head_x == nx
        &&& post.head_y == ny
        &&& match g1[ny][nx] {
            Tile::Snake(_) => {
                &&& post.phase == GameState::Ended
                &&& post.length == pre.length
                &&& post.grid == all_free(pre.grid.len() as int, pre.grid[0].len() as int)
            },
            Tile::Apple => {
                &&& post.phase == GameState::Started
                &&& post.length == pre.length + 1
                &&& exists|ri: int, rj: int|
                    #[trigger] apple_placement(g1, post.grid, ny, nx, pre.length + 1, ri, rj)
            },
            Tile::Free => {
                &&& post.phase == GameState::Started
                &&& post.length == pre.length
                &&& post.grid == grid_set(g1, ny, nx, Tile::Snake(pre.length as u16))
            },
        }
    }
}

// ---------------------------------------------------------------------------
// Lemmas about the decay pass, single-cell updates, and the invariant.
// ---------------------------------------------------------------------------

/// The decay pass keeps the grid's shape and decays every cell pointwise;
/// apples sit exactly where they sat.
pub(crate) proof fn lemma_decay_grid_cells(g: Seq<Seq<Tile>>)
    requires
        grid_dims_ok(g),
    ensures
        grid_dims_ok(decay_grid(g)),
        decay_grid(g).len() == g.len(),
        decay_grid(g)[0].len() == g[0].len(),
        forall|i: int, j: int|
            in_grid(g, i, j) ==> #[trigger] decay_grid(g)[i][j] == decay_tile(g[i][j]),
        forall|i: int, j: int|
            in_grid(g, i, j) ==> (is_apple(#[trigger] decay_grid(g)[i][j]) <==> is_apple(
                g[i][j],
            )),
{
    assert forall|i: int| 0 <= i < decay_grid(g).len() implies (#[trigger] decay_grid(
        g,
    )[i]).len() == g[0].len() by {
        assert(g[i].len() == g[0].len());
    }
}

/// Ages after the decay pass: still positive and pairwise distinct, and
/// bounded one lower.
pub(crate) proof fn lemma_decay_ages(g: Seq<Seq<Tile>>, bound: int)
    requires
        grid_dims_ok(g),
        ages_positive(g),
        ages_le(g, bound),
        ages_distinct(g),
    ensures
        ages_positive(decay_grid(g)),
        ages_le(decay_grid(g), bound - 1),
        ages_distinct(decay_grid(g)),
{
    let d = decay_grid(g);
    lemma_decay_grid_cells(g);
    assert forall|i: int, j: int| in_grid(d, i, j) && is_snake(#[trigger] d[i][j]) implies 1
        <= tile_age(d[i][j]) && tile_age(d[i][j]) <= bound - 1 by {
        assert(in_grid(g, i, j));
        assert(d[i][j] == decay_tile(g[i][j]));
        assert(is_snake(g[i][j]));
        assert(1 <= tile_age(g[i][j]) <= bound);
    }
    assert forall|i1: int, j1: int, i2: int, j2: int|
        in_grid(d, i1, j1) && in_grid(d, i2, j2) && (i1 != i2 || j1 != j2)
            && is_snake(#[trigger] d[i1][j1]) && is_snake(#[trigger] d[i2][j2])
        implies tile_age(d[i1][j1]) != tile_age(d[i2][j2]) by {
        assert(in_grid(g, i1, j1) && in_grid(g, i2, j2));
        assert(d[i1][j1] == decay_tile(g[i1][j1]));
        assert(d[i2][j2] == decay_tile(g[i2][j2]));
        assert(is_snake(g[i1][j1]) && is_snake(g[i2][j2]));
        assert(tile_age(g[i1][j1]) != tile_age(g[i2][j2]));
        assert(1 <= tile_age(g[i1][j1]) && 1 <= tile_age(g[i2][j2]));
    }
}

/// The decay pass keeps a sole apple a sole apple, in place.
proof fn lemma_decay_apples(g: Seq<Seq<Tile>>, ai: int, aj: int)
    requires
        grid_dims_ok(g),
        sole_apple(g, ai, aj),
    ensures
        sole_apple(decay_grid(g), ai, aj),
{
    let d = decay_grid(g);
    lemma_decay_grid_cells(g);
    assert(is_apple(d[ai][aj]));
    assert forall|i: int, j: int|
        in_grid(d, i, j) && is_apple(#[trigger] d[i][j]) implies i == ai && j == aj by {
        assert(in_grid(g, i, j));
        assert(is_apple(g[i][j]));
    }
}

/// Replacing one cell keeps the grid's shape; the new cell holds `t` and
/// every other cell what it held.
pub(crate) proof fn lemma_grid_set_cells(g: Seq<Seq<Tile>>, li: int, co: int, t: Tile)
    requires
        grid_dims_ok(g),
        in_grid(g, li, co),
    ensures
        grid_dims_ok(grid_set(g, li, co, t)),
        grid_set(g, li, co, t).len() == g.len(),
        grid_set(g, li, co, t)[0].len() == g[0].len(),
        grid_set(g, li, co, t)[li][co] == t,
        forall|i: int, j: int|
            in_grid(g, i, j) && (i != li || j != co) ==> #[trigger] grid_set(
                g,
                li,
                co,
                t,
            )[i][j] == g[i][j],
{
    let s = grid_set(g, li, co, t);
    assert forall|i: int| 0 <= i < s.len() implies (#[trigger] s[i]).len() == g[0].len() by {
        assert(g[i].len() == g[0].len());
    }
    assert(s[0].len() == g[0].len());
}

/// A grid of free cells holds no snake segment and no apple.
pub(crate) proof fn lemma_all_free_cells(lines: int, cols: int)
    requires
        1 <= lines,
        1 <= cols,
    ensures
        all_free(lines, cols).len() == lines,
        all_free(lines, cols)[0].len() == cols,
        forall|i: int, j: int|
            in_grid(all_free(lines, cols), i, j) ==> #[trigger] all_free(
                lines,
                cols,
            )[i][j] == Tile::Free,
{
    assert forall|i: int, j: int| in_grid(all_free(lines, cols), i, j) implies #[trigger] all_free(
        lines,
        cols,
    )[i][j] == Tile::Free by {
        assert(all_free(lines, cols)[i] == Seq::new(cols as nat, |j: int| Tile::Free));
    }
}

/// A tick preserves the game invariant.
pub proof fn lemma_step_rel_preserves_inv(pre: GameView, post: GameView)
    requires
        view_inv(pre),
        step_rel(pre, post),
        pre.phase == GameState::Started && is_apple(
            decay_grid(pre.grid)[next_head_y(pre)][next_head_x(pre)],
        ) ==> pre.length < 0xFFFF,
    ensures
        view_inv(post),
{
    let g = pre.grid;
    let g1 = decay_grid(g);
    let lines = g.len() as int;
    let cols = g[0].len() as int;
    lemma_decay_grid_cells(g);
    if pre.phase != GameState::Started {
        assert forall|i: int, j: int|
            in_grid(g1, i, j) && is_snake(#[trigger] g1[i][j]) implies 1 <= tile_age(
            g1[i][j],
        ) by {
            assert(in_grid(g, i, j));
            assert(g1[i][j] == decay_tile(g[i][j]));
            assert(is_snake(g[i][j]));
            assert(1 <= tile_age(g[i][j]));
        }
    } else {
        let ny = next_head_y(pre);
        let nx = next_head_x(pre);
        lemma_mod_bound(pre.head_y + dir_dy(pre.direction), lines);
        lemma_mod_bound(pre.head_x + dir_dx(pre.direction), cols);
        lemma_decay_ages(g, pre.length);
        let (ai, aj) = choose|ai: int, aj: int| #[trigger] sole_apple(g, ai, aj);
        lemma_decay_apples(g, ai, aj);
        match g1[ny][nx] {
            Tile::Snake(_) => {
                lemma_all_free_cells(lines, cols);
                assert(view_wf(post));
                assert(ages_positive(post.grid));
            },
            Tile::Apple => {
                let (ri, rj) = choose|ri: int, rj: int|
                    #[trigger] apple_placement(g1, post.grid, ny, nx, pre.length + 1, ri, rj);
                let stamped: Tile = Tile::Snake((pre.length + 1) as u16);
                let g2 = grid_set(g1, ri, rj, Tile::Apple);
                lemma_grid_set_cells(g1, ri, rj, Tile::Apple);
                lemma_grid_set_cells(g2, ny, nx, stamped);
                assert(ny == ai && nx == aj);
                assert(ri != ny || rj != nx);
                assert(tile_age(stamped) == pre.length + 1);
                assert(view_wf(post));
                assert forall|i: int, j: int|
                    in_grid(post.grid, i, j) && is_snake(#[trigger] post.grid[i][j]) implies 1
                    <= tile_age(post.grid[i][j]) && tile_age(post.grid[i][j]) <= post.length by {
                    if i == ny && j == nx {
                    } else if i == ri && j == rj {
                    } else {
                        assert(post.grid[i][j] == g1[i][j]);
                    }
                }
                assert forall|i1: int, j1: int, i2: int, j2: int|
                    in_grid(post.grid, i1, j1) && in_grid(post.grid, i2, j2) && (i1 != i2 || j1
                        != j2) && is_snake(#[trigger] post.grid[i1][j1]) && is_snake(
                        #[trigger] post.grid[i2][j2],
                    ) implies tile_age(post.grid[i1][j1]) != tile_age(post.grid[i2][j2]) by {
                    if !(i1 == ny && j1 == nx) && !(i2 == ny && j2 == nx) {
                        assert(post.grid[i1][j1] == g1[i1][j1]);
                        assert(post.grid[i2][j2] == g1[i2][j2]);
                    }
                }
                assert(sole_apple(post.grid, ri, rj)) by {
                    assert(is_apple(post.grid[ri][rj]));
                    assert forall|i: int, j: int|
                        in_grid(post.grid, i, j) && is_apple(#[trigger] post.grid[i][j])
                        implies i == ri && j == rj by {
                        if i == ny && j == nx {
                        } else if i == ri && j == rj {
                        } else {
                            assert(post.grid[i][j] == g1[i][j]);
                            assert(i == ai && j == aj);
                        }
                    }
                }
            },
            Tile::Free => {
                let stamped: Tile = Tile::Snake(pre.length as u16);
                lemma_grid_set_cells(g1, ny, nx, stamped);
                assert(tile_age(stamped) == pre.length);
                assert(view_wf(post));
                assert forall|i: int, j: int|
                    in_grid(post.grid, i, j) && is_snake(#[trigger] post.grid[i][j]) implies 1
                    <= tile_age(post.grid[i][j]) && tile_age(post.grid[i][j]) <= post.length by {
                    if !(i == ny && j == nx) {
                        assert(post.grid[i][j] == g1[i][j]);
                    }
                }
                assert forall|i1: int, j1: int, i2: int, j2: int|
                    in_grid(post.grid, i1, j1) && in_grid(post.grid, i2, j2) && (i1 != i2 || j1
                        != j2) && is_snake(#[trigger] post.grid[i1][j1]) && is_snake(
                        #[trigger] post.grid[i2][j2],
                    ) implies tile_age(post.grid[i1][j1]) != tile_age(post.grid[i2][j2]) by {
                    if !(i1 == ny && j1 == nx) && !(i2 == ny && j2 == nx) {
                        assert(post.grid[i1][j1] == g1[i1][j1]);
                        assert(post.grid[i2][j2] == g1[i2][j2]);
                    }
                }
                assert(sole_apple(post.grid, ai, aj)) by {
                    assert(ai != ny || aj != nx);
                    assert(is_apple(post.grid[ai][aj]));
                    assert forall|i: int, j: int|
                        in_grid(post.grid, i, j) && is_apple(#[trigger] post.grid[i][j])
                        implies i == ai && j == aj by {
                        if !(i == ny && j == nx) {
                            assert(post.grid[i][j] == g1[i][j]);
                        }
                    }
                }
            },
        }
    }
}

/// A direction request preserves the game invariant; a restart establishes
/// it afresh.
pub proof fn lemma_move_to_rel_preserves_inv(pre: GameView, d: Direction, post: GameView)
    requires
        view_wf(pre),
        move_to_rel(pre, d, post),
        pre.phase == GameState::Started ==> view_inv(pre),
    ensures
        view_inv(post),
{
    let lines = pre.grid.len() as int;
    let cols = pre.grid[0].len() as int;
    if pre.phase != GameState::Started {
        let (ai, aj, si, sj) = choose|ai: int, aj: int, si: int, sj: int|
            #[trigger] restart_placement(pre, post, ai, aj, si, sj);
        let base = all_free(lines, cols);
        let withapple = grid_set(base, ai, aj, Tile::Apple);
        lemma_all_free_cells(lines, cols);
        assert(grid_dims_ok(base));
        lemma_grid_set_cells(base, ai, aj, Tile::Apple);
        lemma_grid_set_cells(withapple, si, sj, Tile::Snake(1));
        assert(view_wf(post));
        assert forall|i: int, j: int|
            in_grid(post.grid, i, j) && is_snake(#[trigger] post.grid[i][j]) implies 1
            <= tile_age(post.grid[i][j]) && tile_age(post.grid[i][j]) <= post.length by {
            if !(i == si && j == sj) {
                assert(post.grid[i][j] == withapple[i][j]);
                if !(i == ai && j == aj) {
                    assert(post.grid[i][j] == base[i][j]);
                }
            }
        }
        assert forall|i1: int, j1: int, i2: int, j2: int|
            in_grid(post.grid, i1, j1) && in_grid(post.grid, i2, j2) && (i1 != i2 || j1 != j2)
                && is_snake(#[trigger] post.grid[i1][j1]) && is_snake(
                #[trigger] post.grid[i2][j2],
            ) implies tile_age(post.grid[i1][j1]) != tile_age(post.grid[i2][j2]) by {
            if !(i1 == si && j1 == sj) {
                assert(post.grid[i1][j1] == withapple[i1][j1]);
                if !(i1 == ai && j1 == aj) {
                    assert(post.grid[i1][j1] == base[i1][j1]);
                }
                assert(false);
            } else {
                assert(post.grid[i2][j2] == withapple[i2][j2]);
                if !(i2 == ai && j2 == aj) {
                    assert(post.grid[i2][j2] == base[i2][j2]);
                }
                assert(false);
            }
        }
        assert(sole_apple(post.grid, ai, aj)) by {
            assert(is_apple(post.grid[ai][aj]));
            assert forall|i: int, j: int|
                in_grid(post.grid, i, j) && is_apple(#[trigger] post.grid[i][j]) implies i == ai
                && j == aj by {
                if !(i == si && j == sj) {
                    assert(post.grid[i][j] == withapple[i][j]);
                    if !(i == ai && j == aj) {
                        assert(post.grid[i][j] == base[i][j]);
                    }
                }
            }
        }
    }
}

// ---------------------------------------------------------------------------
// The game itself.
// ---------------------------------------------------------------------------

/// A snake game: a grid of tiles, the head position, the snake's length,
/// the travel direction and the round phase.
pub struct Game {
    head: Vec2,
    length: u16,
    direction: Direction,
    field: Vec<Vec<Tile>>,
    state: GameState,
}

impl View for Game {
    type V = GameView;

    closed spec fn view(&self) -> GameView {
        GameView {
            grid: grid_of(self.field@),
            head_x: self.head.x as int,
            head_y: self.head.y as int,
            length: self.length as int,
            direction: self.direction,
            phase: self.state,
        }
    }
}

impl Game {
    /// Structural well-formedness of the game.
    pub open spec fn wf(&self) -> bool {
        view_wf(self@)
    }

    /// The game invariant; see [`view_inv`].
    pub open spec fn inv(&self) -> bool {
        view_inv(self@)
    }

    /// A fresh game on a grid of the given dimensions: everything free,
    /// head in the top-left corner, length 1, moving right, not started.
    pub fn with_dims(lines: usize, cols: usize) -> (g: Game)
        requires
            1 <= lines <= 0xFFFF,
            1 <= cols <= 0xFFFF,
            2 <= lines * cols,
        ensures
            g.inv(),
            g@ == initial_view(lines as int, cols as int),
    {
        let g = Game {
            head: Vec2::new(0, 0),
            length: 1,
            direction: Direction::Right,
            field: free_grid(lines, cols),
            state: GameState::Starting,
        };
        proof {
            assert(g@ =~~= initial_view(lines as int, cols as int));
        }
        g
    }

    /// A fresh game on the default field.
    pub fn new() -> (g: Game)
        ensures
            g.inv(),
            g@ == initial_view(FIELD_LINES as int, FIELD_COLS as int),
    {
        Game::with_dims(FIELD_LINES, FIELD_COLS)
    }

    /// Apples eaten so far.
    pub fn points(&self) -> (p: u16)
        requires
            self.wf(),
        ensures
            p == self@.length - 1,
    {
        self.length - 1
    }

    /// Read access to the grid, line by line.
    pub fn field(&self) -> (f: &Vec<Vec<Tile>>)
        ensures
            f@.len() == self@.grid.len(),
            forall|i: int| 0 <= i < f@.len() ==> (#[trigger] f@[i])@ == self@.grid[i],
    {
        &self.field
    }

    /// The tile under the head.
    pub fn head(&self) -> (t: Tile)
        requires
            self.wf(),
        ensures
            t == self@.grid[self@.head_y][self@.head_x],
    {
        self.field[self.head.y as usize][self.head.x as usize]
    }

    /// The head's position on the grid.
    pub fn head_pos(&self) -> (p: Vec2)
        ensures
            p.x == self@.head_x,
            p.y == self@.head_y,
    {
        self.head
    }

    /// The current phase of the round.
    pub fn state(&self) -> (s: GameState)
        ensures
            s == self@.phase,
    {
        self.state
    }

    /// Put a tile at an arbitrary grid position.  Everything else is kept.
    pub fn set_tile(&mut self, line: usize, col: usize, t: Tile)
        requires
            old(self).wf(),
            line < old(self)@.grid.len(),
            col < old(self)@.grid[0].len(),
        ensures
            final(self).wf(),
            final(self)@ == (GameView {
                grid: grid_set(old(self)@.grid, line as int, col as int, t),
                ..old(self)@
            }),
    {
        let row = &mut self.field[line];
        row.set(col, t);
        proof {
            assert(self@.grid =~~= grid_set(old(self)@.grid, line as int, col as int, t));
            assert(self@ =~~= (GameView {
                grid: grid_set(old(self)@.grid, line as int, col as int, t),
                ..old(self)@
            }));
        }
    }

    /// Put a tile at the head's position.  Everything else is kept.
    pub fn set_head(&mut self, e: Tile)
        requires
            old(self).wf(),
        ensures
            final(self).wf(),
            final(self)@ == (GameView {
                grid: grid_set(old(self)@.grid, old(self)@.head_y, old(self)@.head_x, e),
                ..old(self)@
            }),
    {
        let line = self.head.y as usize;
        let col = self.head.x as usize;
        self.set_tile(line, col, e);
    }

    /// The decay pass of a tick: age every snake segment by one, removing
    /// those whose age has run out; apples and free cells are untouched.
    fn decay_pass(&mut self)
        requires
            old(self).wf(),
            ages_positive(old(self)@.grid),
        ensures
            final(self).wf(),
            final(self)@ == (GameView { grid: decay_grid(old(self)@.grid), ..old(self)@ }),
    {
        let ghost g0 = self@.grid;
        let lines = self.field.len();
        let mut i: usize = 0;
        while i < lines
            invariant
                self.wf(),
                ages_positive(g0),
                grid_dims_ok(g0),
                i <= lines,
                lines == self@.grid.len(),
                self@.grid.len() == g0.len(),
                self@.grid[0].len() == g0[0].len(),
                self@.head_x == old(self)@.head_x,
                self@.head_y == old(self)@.head_y,
                self@.length == old(self)@.length,
                self@.direction == old(self)@.direction,
                self@.phase == old(self)@.phase,
                g0 == old(self)@.grid,
                forall|a: int| 0 <= a < i ==> #[trigger] self@.grid[a] == decay_grid(g0)[a],
                forall|a: int| i <= a < lines ==> #[trigger] self@.grid[a] == g0[a],
            decreases lines - i,
        {
            let cols = self.field[i].len();
            proof {
                assert(self.field@[i as int]@ == self@.grid[i as int]);
                assert(self@.grid[i as int].len() == self@.grid[0].len());
            }
            let mut j: usize = 0;
            while j < cols
                invariant
                    self.wf(),
                    ages_positive(g0),
                    grid_dims_ok(g0),
                    i < lines,
                    j <= cols,
                    lines == self@.grid.len(),
                    cols == self@.grid[0].len(),
                    self@.grid.len() == g0.len(),
                    self@.grid[0].len() == g0[0].len(),
                    self@.head_x == old(self)@.head_x,
                    self@.head_y == old(self)@.head_y,
                    self@.length == old(self)@.length,
                    self@.direction == old(self)@.direction,
                    self@.phase == old(self)@.phase,
                    g0 == old(self)@.grid,
                    forall|a: int| 0 <= a < i ==> #[trigger] self@.grid[a] == decay_grid(g0)[a],
                    forall|a: int| i < a < lines ==> #[trigger] self@.grid[a] == g0[a],
                    forall|b: int| 0 <= b < j ==> #[trigger] self@.grid[i as int][b] == decay_grid(g0)[i as int][b],
                    forall|b: int| j <= b < cols ==> #[trigger] self@.grid[i as int][b] == g0[i as int][b],
                decreases cols - j,
            {
                proof {
                    assert(self.field@[i as int]@ == self@.grid[i as int]);
                    assert(self@.grid[i as int].len() == cols);
                    assert(g0[i as int].len() == cols);
                    assert(self@.grid[i as int][j as int] == g0[i as int][j as int]);
                    assert(is_snake(g0[i as int][j as int]) ==> 1 <= tile_age(
                        g0[i as int][j as int],
                    ));
                }
                let t = self.field[i][j];
                let d = update_element(t);
                let ghost pre = self@.grid;
                let row = &mut self.field[i];
                row.set(j, d);
                proof {
                    assert(self@.grid =~~= grid_set(pre, i as int, j as int, d));
                }
                j += 1;
            }
            proof {
                assert(g0[i as int].len() == cols);
                assert(self@.grid[i as int] =~= decay_grid(g0)[i as int]);
            }
            i += 1;
        }
        proof {
            assert(self@.grid =~~= decay_grid(g0));
            assert(self@ =~~= (GameView { grid: decay_grid(old(self)@.grid), ..old(self)@ }));
        }
    }

    /// Move the head one cell along the current direction, wrapping around
    /// the field edges.
    fn move_head(&mut self)
        requires
            old(self).wf(),
        ensures
            final(self).wf(),
            final(self)@ == (GameView {
                head_x: next_head_x(old(self)@),
                head_y: next_head_y(old(self)@),
                ..old(self)@
            }),
    {
        let lines = self.field.len();
        let cols = self.field[0].len();
        let x = self.head.x as usize;
        let y = self.head.y as usize;
        let nx: usize = match self.direction {
            Direction::Left => if x == 0 { cols - 1 } else { x - 1 },
            Direction::Right => if x + 1 == cols { 0 } else { x + 1 },
            _ => x,
        };
        let ny: usize = match self.direction {
            Direction::Up => if y == 0 { lines - 1 } else { y - 1 },
            Direction::Down => if y + 1 == lines { 0 } else { y + 1 },
            _ => y,
        };
        proof {
            lemma_wrap_add_cases(x as int, cols as int);
            lemma_wrap_add_cases(y as int, lines as int);
        }
        self.head.x = nx as u16;
        self.head.y = ny as u16;
    }

    /// Revert every cell to `Free`.
    fn clear(&mut self)
        requires
            old(self).wf(),
        ensures
            final(self).wf(),
            final(self)@ == (GameView {
                grid: all_free(old(self)@.grid.len() as int, old(self)@.grid[0].len() as int),
                ..old(self)@
            }),
    {
        let lines = self.field.len();
        let cols = self.field[0].len();
        self.field = free_grid(lines, cols);
    }

    /// A uniformly random free cell `(line, col)`, found by rejection
    /// sampling.  After too many occupied samples the grid is scanned in
    /// order instead, so the search always terminates.
    fn generate_position(&self) -> (pos: (usize, usize))
        requires
            self.wf(),
            exists|i: int, j: int|
                in_grid(self@.grid, i, j) && is_free(#[trigger] self@.grid[i][j]),
        ensures
            pos.0 < self@.grid.len(),
            pos.1 < self@.grid[0].len(),
            is_free(self@.grid[pos.0 as int][pos.1 as int]),
    {
        let lines = self.field.len();
        let cols = self.field[0].len();
        let mut tries: usize = SAMPLE_TRIES;
        while 0 < tries
            invariant
                self.wf(),
                lines == self@.grid.len(),
                cols == self@.grid[0].len(),
            decreases tries,
        {
            let line = random_below(lines);
            let col = random_below(cols);
            proof {
                assert(self.field@[line as int]@ == self@.grid[line as int]);
                assert(self@.grid[line as int].len() == cols);
            }
            if let Tile::Free = self.field[line][col] {
                return (line, col);
            }
            tries -= 1;
        }
        let mut i: usize = 0;
        while i < lines
            invariant
                self.wf(),
                exists|a: int, b: int|
                    in_grid(self@.grid, a, b) && is_free(#[trigger] self@.grid[a][b]),
                i <= lines,
                lines == self@.grid.len(),
                cols == self@.grid[0].len(),
                forall|a: int, b: int|
                    0 <= a < i && 0 <= b < cols ==> !is_free(#[trigger] self@.grid[a][b]),
            decreases lines - i,
        {
            let mut j: usize = 0;
            while j < cols
                invariant
                    self.wf(),
                    i < lines,
                    j <= cols,
                    lines == self@.grid.len(),
                    cols == self@.grid[0].len(),
                    forall|a: int, b: int|
                        0 <= a < i && 0 <= b < cols ==> !is_free(#[trigger] self@.grid[a][b]),
                    forall|b: int|
                        0 <= b < j ==> !is_free(#[trigger] self@.grid[i as int][b]),
                decreases cols - j,
            {
                proof {
                    assert(self.field@[i as int]@ == self@.grid[i as int]);
                    assert(self@.grid[i as int].len() == cols);
                }
                if let Tile::Free = self.field[i][j] {
                    return (i, j);
                }
                j += 1;
            }
            i += 1;
        }
        proof {
            let (wi, wj) = choose|wi: int, wj: int|
                in_grid(self@.grid, wi, wj) && is_free(#[trigger] self@.grid[wi][wj]);
            assert(!is_free(self@.grid[wi][wj]));
            assert(false);
        }
        vstd::pervasive::unreached()
    }

    /// Place a new apple on a random free cell.
    fn create_apple(&mut self)
        requires
            old(self).wf(),
            exists|i: int, j: int|
                in_grid(old(self)@.grid, i, j) && is_free(#[trigger] old(self)@.grid[i][j]),
        ensures
            final(self).wf(),
            exists|i: int, j: int|
                in_grid(old(self)@.grid, i, j) && is_free(#[trigger] old(self)@.grid[i][j])
                    && final(self)@ == (GameView {
                    grid: grid_set(old(self)@.grid, i, j, Tile::Apple),
                    ..old(self)@
                }),
    {
        let (line, col) = self.generate_position();
        self.set_tile(line, col, Tile::Apple);
        proof {
            assert(in_grid(old(self)@.grid, line as int, col as int) && is_free(
                old(self)@.grid[line as int][col as int],
            ) && self@ == (GameView {
                grid: grid_set(old(self)@.grid, line as int, col as int, Tile::Apple),
                ..old(self)@
            }));
        }
    }

    /// Place the snake's sole starting segment on a random free cell.
    fn create_snake(&mut self)
        requires
            old(self).wf(),
            exists|i: int, j: int|
                in_grid(old(self)@.grid, i, j) && is_free(#[trigger] old(self)@.grid[i][j]),
        ensures
            final(self).wf(),
            exists|i: int, j: int|
                in_grid(old(self)@.grid, i, j) && is_free(#[trigger] old(self)@.grid[i][j])
                    && final(self)@ == (GameView {
                    grid: grid_set(old(self)@.grid, i, j, Tile::Snake(1)),
                    ..old(self)@
                }),
    {
        let (line, col) = self.generate_position();
        self.set_tile(line, col, Tile::Snake(1));
        proof {
            assert(in_grid(old(self)@.grid, line as int, col as int) && is_free(
                old(self)@.grid[line as int][col as int],
            ) && self@ == (GameView {
                grid: grid_set(old(self)@.grid, line as int, col as int, Tile::Snake(1)),
                ..old(self)@
            }));
        }
    }

    /// Resolve what the head ran into.  A snake segment ends the round on
    /// a cleared grid; an apple grows the snake by one and spawns a new
    /// apple on a random free cell; a free cell changes nothing.
    fn handle_collisions(&mut self) -> (ended: bool)
        requires
            old(self).wf(),
            old(self)@.phase == GameState::Started,
            ages_positive(old(self)@.grid),
            ages_distinct(old(self)@.grid),
            ages_le(old(self)@.grid, old(self)@.length - 1),
            at_most_one_apple(old(self)@.grid),
            old(self)@.length < old(self)@.grid.len() * old(self)@.grid[0].len(),
            old(self)@.length < 0xFFFF,
        ensures
            final(self).wf(),
            ended == (final(self)@.phase == GameState::Ended),
            ({
                let v = old(self)@;
                match v.grid[v.head_y][v.head_x] {
                    Tile::Snake(_) => final(self)@ == (GameView {
                        grid: all_free(v.grid.len() as int, v.grid[0].len() as int),
                        phase: GameState::Ended,
                        ..v
                    }),
                    Tile::Apple => {
                        &&& final(self)@.length == v.length + 1
                        &&& final(self)@.phase == v.phase
                        &&& final(self)@.head_x == v.head_x
                        &&& final(self)@.head_y == v.head_y
                        &&& final(self)@.direction == v.direction
                        &&& exists|ri: int, rj: int|
                            #[trigger] apple_spawn(v.grid, final(self)@.grid, ri, rj)
                    },
                    Tile::Free => final(self)@ == v,
                }
            }),
    {
        let t = self.head();
        match t {
            Tile::Snake(_) => {
                self.clear();
                self.state = GameState::Ended;
                proof {
                    assert(self@ =~~= (GameView {
                        grid: all_free(
                            old(self)@.grid.len() as int,
                            old(self)@.grid[0].len() as int,
                        ),
                        phase: GameState::Ended,
                        ..old(self)@
                    }));
                }
            },
            Tile::Apple => {
                self.length = self.length + 1;
                let ghost mid = self@;
                proof {
                    lemma_exists_free_cell(mid.grid, old(self)@.length - 1);
                }
                self.create_apple();
                proof {
                    let (ri, rj) = choose|ri: int, rj: int|
                        in_grid(mid.grid, ri, rj) && is_free(#[trigger] mid.grid[ri][rj])
                            && self@ == (GameView {
                            grid: grid_set(mid.grid, ri, rj, Tile::Apple),
                            ..mid
                        });
                    assert(apple_spawn(old(self)@.grid, self@.grid, ri, rj));
                }
            },
            _ => {
                proof {
                    assert(self@ =~~= old(self)@);
                }
            },
        }
        self.state == GameState::Ended
    }

    /// One tick of the game; see [`step_rel`] for exactly what it does.
    /// It is always safe to call; the two extra bounds while a round runs
    /// keep the snake's length a `u16` and the grid able to hold a fresh
    /// apple.
    pub fn step(&mut self)
        requires
            old(self).inv(),
            old(self)@.phase == GameState::Started ==> old(self)@.length < old(
                self,
            )@.grid.len() * old(self)@.grid[0].len() && old(self)@.length < 0xFFFF,
        ensures
            final(self).inv(),
            step_rel(old(self)@, final(self)@),
    {
        let ghost pre = self@;
        self.decay_pass();
        let ghost mid = self@;
        if self.state == GameState::Started {
            proof {
                lemma_decay_grid_cells(pre.grid);
                lemma_decay_ages(pre.grid, pre.length);
                let (ai, aj) = choose|ai: int, aj: int| #[trigger] sole_apple(pre.grid, ai, aj);
                lemma_decay_apples(pre.grid, ai, aj);
                assert(at_most_one_apple(mid.grid));
            }
            self.move_head();
            let ghost moved = self@;
            proof {
                assert(moved.head_y == next_head_y(pre) && moved.head_x == next_head_x(pre));
                lemma_mod_bound(pre.head_y + dir_dy(pre.direction), pre.grid.len() as int);
                lemma_mod_bound(pre.head_x + dir_dx(pre.direction), pre.grid[0].len() as int);
            }
            let ended = self.handle_collisions();
            let ghost collided = self@;
            if !ended {
                let len = self.length;
                self.set_head(Tile::Snake(len));
            }
            proof {
                let g1 = decay_grid(pre.grid);
                let ny = next_head_y(pre);
                let nx = next_head_x(pre);
                match g1[ny][nx] {
                    Tile::Snake(_) => {
                        assert(step_rel(pre, self@));
                    },
                    Tile::Apple => {
                        let (ri, rj) = choose|ri: int, rj: int|
                            #[trigger] apple_spawn(moved.grid, collided.grid, ri, rj);
                        assert(apple_placement(g1, self@.grid, ny, nx, pre.length + 1, ri, rj));
                        assert(step_rel(pre, self@));
                    },
                    Tile::Free => {
                        assert(step_rel(pre, self@));
                    },
                }
            }
        } else {
            proof {
                assert(self@ == (GameView { grid: decay_grid(pre.grid), ..pre }));
            }
        }
        proof {
            assert(step_rel(pre, self@));
            lemma_step_rel_preserves_inv(pre, self@);
        }
    }

    /// Request a travel direction.  Outside a running round this starts a
    /// fresh one; during a round the request is adopted unless it is the
    /// exact opposite of the current direction, which is ignored so the
    /// snake cannot reverse into itself.  Never fails.
    pub fn move_to(&mut self, d: Direction)
        requires
            old(self).wf(),
        ensures
            final(self).wf(),
            move_to_rel(old(self)@, d, final(self)@),
    {
        let ghost pre = self@;
        if !(self.state == GameState::Started) {
            self.length = 1;
            self.clear();
            let ghost cleared = self@;
            proof {
                assert(in_grid(cleared.grid, 0, 0) && is_free(cleared.grid[0][0]));
            }
            self.create_apple();
            let ghost with_apple = self@;
            proof {
                let (ai, aj) = choose|ai: int, aj: int|
                    in_grid(cleared.grid, ai, aj) && is_free(#[trigger] cleared.grid[ai][aj])
                        && with_apple == (GameView {
                        grid: grid_set(cleared.grid, ai, aj, Tile::Apple),
                        ..cleared
                    });
                if cleared.grid.len() >= 2 {
                    if ai == 0 {
                        assert(is_free(with_apple.grid[1][0]));
                    } else {
                        assert(is_free(with_apple.grid[0][0]));
                    }
                } else {
                    if aj == 0 {
                        assert(is_free(with_apple.grid[0][1]));
                    } else {
                        assert(is_free(with_apple.grid[0][0]));
                    }
                }
            }
            self.create_snake();
            let ghost with_snake = self@;
            self.state = GameState::Started;
            self.direction = d;
            proof {
                let (ai, aj) = choose|ai: int, aj: int|
                    in_grid(cleared.grid, ai, aj) && is_free(#[trigger] cleared.grid[ai][aj])
                        && with_apple == (GameView {
                        grid: grid_set(cleared.grid, ai, aj, Tile::Apple),
                        ..cleared
                    });
                let (si, sj) = choose|si: int, sj: int|
                    in_grid(with_apple.grid, si, sj) && is_free(
                        #[trigger] with_apple.grid[si][sj],
                    ) && with_snake == (GameView {
                        grid: grid_set(with_apple.grid, si, sj, Tile::Snake(1)),
                        ..with_apple
                    });
                assert(self@.grid == with_snake.grid);
                assert(self@.grid =~~= fresh_round_grid(
                    pre.grid.len() as int,
                    pre.grid[0].len() as int,
                    ai,
                    aj,
                    si,
                    sj,
                ));
                assert(restart_placement(pre, self@, ai, aj, si, sj));
            }
        } else if !(self.direction.opposite() == d) {
            self.direction = d;
            proof {
                assert(self@ =~~= (GameView { direction: d, ..pre }));
            }
        } else {
            proof {
                assert(self@ =~~= pre);
            }
        }
    }
}

/// How many random samples to try before falling back to scanning the grid
/// for a free cell in order.
const SAMPLE_TRIES: usize = 10000;

/// A `lines` by `cols` vector of `Free` tiles.
fn free_grid(lines: usize, cols: usize) -> (f: Vec<Vec<Tile>>)
    ensures
        grid_of(f@) == all_free(lines as int, cols as int),
{
    let mut field: Vec<Vec<Tile>> = Vec::new();
    let mut i: usize = 0;
    while i < lines
        invariant
            i <= lines,
            field@.len() == i,
            forall|a: int| 0 <= a < i ==> (#[trigger] field@[a])@ =~= all_free(
                lines as int,
                cols as int,
            )[a],
        decreases lines - i,
    {
        let mut row: Vec<Tile> = Vec::new();
        let mut j: usize = 0;
        while j < cols
            invariant
                j <= cols,
                row@.len() == j,
                forall|b: int| 0 <= b < j ==> (#[trigger] row@[b]) == Tile::Free,
            decreases cols - j,
        {
            row.push(Tile::Free);
            j += 1;
        }
        proof {
            assert(row@ =~= all_free(lines as int, cols as int)[i as int]);
        }
        field.push(row);
        i += 1;
    }
    proof {
        assert(grid_of(field@) =~~= all_free(lines as int, cols as int));
    }
    field
}

/// Relies on `rand::random_range`: a uniformly distributed integer in
/// `[0, bound)`.  The call panics only on an empty range, which the
/// precondition rules out.
#[verifier::external_body]
fn random_below(bound: usize) -> (r: usize)
    requires
        1 <= bound,
    ensures
        r < bound,
{
    rand::random_range(0..bound)
}

/// What one tick does to a single tile; the executable twin of
/// [`decay_tile`].
fn update_element(e: Tile) -> (r: Tile)
    requires
        e matches Tile::Snake(a) ==> 1 <= a,
    ensures
        r == decay_tile(e),
{
    match e {
        Tile::Snake(index) => {
            if index == 1 {
                Tile::Free
            } else {
                Tile::Snake(index - 1)
            }
        },
        _ => e,
    }
}

} // verus!
