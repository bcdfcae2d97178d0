use vstd::prelude::*;
use vstd::arithmetic::div_mod::lemma_mod_bound;

use crate::counting::has_age;
use crate::counting::lemma_snake_cells_card_exact;
use crate::counting::snake_cells;
use crate::game::Direction;
use crate::game::GameState;
use crate::game::GameView;
use crate::game::Tile;
use crate::game::all_free;
use crate::game::apple_placement;
use crate::game::decay_grid;
use crate::game::decay_tile;
use crate::game::dir_dx;
use crate::game::dir_dy;
use crate::game::grid_set;
use crate::game::in_grid;
use crate::game::is_apple;
use crate::game::is_snake;
use crate::game::lemma_all_free_cells;
use crate::game::lemma_decay_grid_cells;
use crate::game::lemma_grid_set_cells;
use crate::game::lemma_step_rel_preserves_inv;
use crate::game::move_to_rel;
use crate::game::next_head_x;
use crate::game::next_head_y;
use crate::game::one_apple;
use crate::game::step_rel;
use crate::game::tile_age;
use crate::game::view_inv;
use crate::game::view_wf;

verus! {

/// However a round is driven, a tick never moves the head off the grid:
/// wrap-around keeps both coordinates within the field.
pub proof fn lemma_head_stays_in_bounds(pre: GameView, post: GameView)
    requires
        view_wf(pre),
        step_rel(pre, post),
    ensures
        0 <= post.head_x < pre.grid[0].len(),
        0 <= post.head_y < pre.grid.len(),
{
    if pre.phase == GameState::Started {
        lemma_mod_bound(pre.head_x + dir_dx(pre.direction), pre.grid[0].len() as int);
        lemma_mod_bound(pre.head_y + dir_dy(pre.direction), pre.grid.len() as int);
    }
}

/// Requesting the exact opposite of the current direction during a round
/// changes nothing at all; in particular the direction stays what it was.
pub proof fn lemma_reversal_ignored(pre: GameView, d: Direction, post: GameView)
    requires
        pre.phase == GameState::Started,
        move_to_rel(pre, d, post),
        d == pre.direction.opposite_spec(),
    ensures
        post == pre,
{
}

/// Requesting the direction already travelled during a round is a true
/// no-op: the whole state is unchanged.
pub proof fn lemma_same_direction_noop(pre: GameView, post: GameView)
    requires
        pre.phase == GameState::Started,
        move_to_rel(pre, pre.direction, post),
    ensures
        post == pre,
{
}

/// Eating the apple grows the snake by exactly one — so the score grows by
/// exactly one — and afterwards the grid again holds exactly one apple.
pub proof fn lemma_eating_apple(pre: GameView, post: GameView)
    requires
        view_inv(pre),
        step_rel(pre, post),
        pre.phase == GameState::Started,
        pre.length < 0xFFFF,
        is_apple(decay_grid(pre.grid)[next_head_y(pre)][next_head_x(pre)]),
    ensures
        post.length == pre.length + 1,
        one_apple(post.grid),
{
    lemma_step_rel_preserves_inv(pre, post);
}

/// A tick that runs the head into a snake segment ends the round on the
/// spot: the very same tick clears every cell and sets the phase to Ended.
pub proof fn lemma_self_collision_clears(pre: GameView, post: GameView)
    requires
        view_wf(pre),
        step_rel(pre, post),
        pre.phase == GameState::Started,
        is_snake(decay_grid(pre.grid)[next_head_y(pre)][next_head_x(pre)]),
    ensures
        post.phase == GameState::Ended,
        post.grid == all_free(pre.grid.len() as int, pre.grid[0].len() as int),
        forall|i: int, j: int| in_grid(post.grid, i, j) ==> #[trigger] post.grid[i][j] == Tile::Free,
{
    lemma_all_free_cells(pre.grid.len() as int, pre.grid[0].len() as int);
}

/// A completed tick that did not end the round leaves the head cell
/// stamped with a fresh segment carrying the snake's full length: the
/// decaying trail always ends at the head.
pub proof fn lemma_head_freshly_stamped(pre: GameView, post: GameView)
    requires
        view_wf(pre),
        step_rel(pre, post),
        pre.phase == GameState::Started,
        post.phase == GameState::Started,
    ensures
        post.grid[post.head_y][post.head_x] == Tile::Snake(post.length as u16),
{
    let g1 = decay_grid(pre.grid);
    let ny = next_head_y(pre);
    let nx = next_head_x(pre);
    lemma_decay_grid_cells(pre.grid);
    lemma_mod_bound(pre.head_x + dir_dx(pre.direction), pre.grid[0].len() as int);
    lemma_mod_bound(pre.head_y + dir_dy(pre.direction), pre.grid.len() as int);
    match g1[ny][nx] {
        Tile::Snake(_) => {
            assert(false);
        },
        Tile::Apple => {
            let (ri, rj) = choose|ri: int, rj: int|
                #[trigger] apple_placement(g1, post.grid, ny, nx, pre.length + 1, ri, rj);
            let g2 = grid_set(g1, ri, rj, Tile::Apple);
            lemma_grid_set_cells(g1, ri, rj, Tile::Apple);
            lemma_grid_set_cells(g2, ny, nx, Tile::Snake((pre.length + 1) as u16));
        },
        Tile::Free => {
            lemma_grid_set_cells(g1, ny, nx, Tile::Snake(pre.length as u16));
        },
    }
}

/// After `i` collision-free ticks at constant length `l`, every age in
/// `(l - i, l]` is present on the grid: the last `i` stampings are still
/// decaying, one age apart.
proof fn lemma_trail_ages(s: Seq<GameView>, l: int, i: int)
    requires
        1 <= l,
        s.len() == l + 1,
        0 <= i <= l,
        view_inv(s[0]),
        forall|k: int| 0 <= k < l ==> step_rel(#[trigger] s[k], s[k + 1]),
        forall|k: int| 0 <= k <= l ==> (#[trigger] s[k]).phase == GameState::Started,
        forall|k: int| 0 <= k <= l ==> (#[trigger] s[k]).length == l,
    ensures
        view_inv(s[i]),
        forall|a: int| 1 <= a <= l && l - i < a ==> has_age(s[i].grid, a),
    decreases i,
{
    if i > 0 {
        lemma_trail_ages(s, l, i - 1);
        let pre = s[i - 1];
        let post = s[i];
        assert(step_rel(pre, post));
        let g1 = decay_grid(pre.grid);
        let ny = next_head_y(pre);
        let nx = next_head_x(pre);
        lemma_decay_grid_cells(pre.grid);
        lemma_mod_bound(pre.head_x + dir_dx(pre.direction), pre.grid[0].len() as int);
        lemma_mod_bound(pre.head_y + dir_dy(pre.direction), pre.grid.len() as int);
        match g1[ny][nx] {
            Tile::Snake(_) => {
                assert(post.phase == GameState::Ended);
                assert(false);
            },
            Tile::Apple => {
                assert(post.length == pre.length + 1);
                assert(false);
            },
            Tile::Free => {},
        }
        lemma_step_rel_preserves_inv(pre, post);
        let stamped: Tile = Tile::Snake(l as u16);
        lemma_grid_set_cells(g1, ny, nx, stamped);
        assert(post.grid == grid_set(g1, ny, nx, stamped));
        assert forall|a: int| 1 <= a <= l && l - i < a implies has_age(post.grid, a) by {
            if a == l {
                assert(post.grid[ny][nx] == stamped);
                assert(is_snake(post.grid[ny][nx]) && tile_age(post.grid[ny][nx]) == l);
                assert(has_age(post.grid, a));
            } else {
                assert(has_age(pre.grid, a + 1));
                let (bi, bj) = choose|bi: int, bj: int|
                    in_grid(pre.grid, bi, bj) && is_snake(#[trigger] pre.grid[bi][bj])
                        && tile_age(pre.grid[bi][bj]) == a + 1;
                assert(g1[bi][bj] == decay_tile(pre.grid[bi][bj]));
                assert(is_snake(g1[bi][bj]) && tile_age(g1[bi][bj]) == a);
                assert(bi != ny || bj != nx);
                assert(post.grid[bi][bj] == g1[bi][bj]);
                assert(has_age(post.grid, a));
            }
        }
    }
}

/// The decay encoding keeps the body exactly as long as the counter says:
/// starting anywhere in a round at length `l`, after `l` consecutive ticks
/// in which the round neither ended nor an apple was eaten (the length
/// stayed `l`), the grid holds exactly `l` snake segments — never more,
/// never fewer.
pub proof fn lemma_trail_length(s: Seq<GameView>, l: int)
    requires
        1 <= l,
        s.len() == l + 1,
        view_inv(s[0]),
        forall|k: int| 0 <= k < l ==> step_rel(#[trigger] s[k], s[k + 1]),
        forall|k: int| 0 <= k <= l ==> (#[trigger] s[k]).phase == GameState::Started,
        forall|k: int| 0 <= k <= l ==> (#[trigger] s[k]).length == l,
    ensures
        snake_cells(s[l].grid).finite(),
        snake_cells(s[l].grid).len() == l,
{
    lemma_trail_ages(s, l, l);
    lemma_snake_cells_card_exact(s[l].grid, l);
}

} // verus!
