use vstd::prelude::*;
use vstd::set_lib::lemma_len_subset;

use crate::game::Tile;
use crate::game::ages_distinct;
use crate::game::ages_le;
use crate::game::ages_positive;
use crate::game::at_most_one_apple;
use crate::game::grid_dims_ok;
use crate::game::in_grid;
use crate::game::is_apple;
use crate::game::is_free;
use crate::game::is_snake;
use crate::game::tile_age;

verus! {

broadcast use vstd::set::group_set_axioms;

/// The set of all positions `(line, col)` of a `lines` by `cols` grid.
pub open spec fn grid_positions(lines: int, cols: int) -> Set<(int, int)> {
    Set::new(|p: (int, int)| 0 <= p.0 < lines && 0 <= p.1 < cols)
}

/// The positions of the snake segments on a grid.
pub open spec fn snake_cells(g: Seq<Seq<Tile>>) -> Set<(int, int)> {
    Set::new(|p: (int, int)| in_grid(g, p.0, p.1) && is_snake(g[p.0][p.1]))
}

/// Some cell of the grid holds a snake segment of age exactly `k`.
pub open spec fn has_age(g: Seq<Seq<Tile>>, k: int) -> bool {
    exists|i: int, j: int|
        in_grid(g, i, j) && is_snake(#[trigger] g[i][j]) && tile_age(g[i][j]) == k
}

/// The positions of the full lines `0..i` plus the first `j` cells of line `i`.
spec fn prefix_positions(cols: int, i: int, j: int) -> Set<(int, int)> {
    Set::new(
        |p: (int, int)| (0 <= p.0 < i && 0 <= p.1 < cols) || (p.0 == i && 0 <= p.1 < j),
    )
}

proof fn lemma_prefix_positions_card(cols: int, i: int, j: int)
    requires
        1 <= cols,
        0 <= i,
        0 <= j <= cols,
    ensures
        prefix_positions(cols, i, j).finite(),
        prefix_positions(cols, i, j).len() == i * cols + j,
    decreases i, j,
{
    if j > 0 {
        lemma_prefix_positions_card(cols, i, j - 1);
        assert(!prefix_positions(cols, i, j - 1).contains((i, j - 1)));
        assert(prefix_positions(cols, i, j) =~= prefix_positions(cols, i, j - 1).insert(
            (i, j - 1),
        ));
    } else if i > 0 {
        lemma_prefix_positions_card(cols, i - 1, cols);
        assert(prefix_positions(cols, i, 0) =~= prefix_positions(cols, i - 1, cols));
        assert((i - 1) * cols + cols == i * cols) by (nonlinear_arith);
    } else {
        assert(prefix_positions(cols, 0, 0) =~= Set::<(int, int)>::empty());
    }
}

/// A `lines` by `cols` grid has exactly `lines * cols` positions.
pub proof fn lemma_grid_positions_card(lines: int, cols: int)
    requires
        1 <= lines,
        1 <= cols,
    ensures
        grid_positions(lines, cols).finite(),
        grid_positions(lines, cols).len() == lines * cols,
{
    lemma_prefix_positions_card(cols, lines, 0);
    assert(grid_positions(lines, cols) =~= prefix_positions(cols, lines, 0));
}

/// The snake segments of age at most `a`.
spec fn snake_cells_age_le(g: Seq<Seq<Tile>>, a: int) -> Set<(int, int)> {
    Set::new(
        |p: (int, int)|
            in_grid(g, p.0, p.1) && is_snake(g[p.0][p.1]) && tile_age(g[p.0][p.1]) <= a,
    )
}

/// With pairwise distinct positive ages there are at most `a` segments of
/// age at most `a`; when every age `1..=a` is present there are exactly `a`.
proof fn lemma_snake_cells_age_le_card(g: Seq<Seq<Tile>>, a: int)
    requires
        ages_positive(g),
        ages_distinct(g),
        0 <= a,
    ensures
        snake_cells_age_le(g, a).finite(),
        snake_cells_age_le(g, a).len() <= a,
        (forall|k: int| 1 <= k <= a ==> has_age(g, k)) ==> snake_cells_age_le(g, a).len() == a,
    decreases a,
{
    if a == 0 {
        assert(snake_cells_age_le(g, 0) =~= Set::<(int, int)>::empty());
    } else {
        lemma_snake_cells_age_le_card(g, a - 1);
        if has_age(g, a) {
            let (i, j) = choose|i: int, j: int|
                in_grid(g, i, j) && is_snake(#[trigger] g[i][j]) && tile_age(g[i][j]) == a;
            let p = (i, j);
            assert(!snake_cells_age_le(g, a - 1).contains(p));
            assert forall|q: (int, int)| snake_cells_age_le(g, a).contains(q)
                implies snake_cells_age_le(g, a - 1).insert(p).contains(q) by {
                if tile_age(g[q.0][q.1]) == a && q != p {
                    assert(tile_age(g[q.0][q.1]) != tile_age(g[i][j]));
                }
            }
            assert(snake_cells_age_le(g, a) =~= snake_cells_age_le(g, a - 1).insert(p));
        } else {
            assert forall|q: (int, int)| snake_cells_age_le(g, a).contains(q)
                implies snake_cells_age_le(g, a - 1).contains(q) by {
                if tile_age(g[q.0][q.1]) == a {
                    assert(has_age(g, a));
                }
            }
            assert(snake_cells_age_le(g, a) =~= snake_cells_age_le(g, a - 1));
            assert(!(forall|k: int| 1 <= k <= a ==> has_age(g, k)));
        }
    }
}

/// With pairwise distinct positive ages bounded by `bound`, the grid holds
/// at most `bound` snake segments.
pub proof fn lemma_snake_cells_card_le(g: Seq<Seq<Tile>>, bound: int)
    requires
        ages_positive(g),
        ages_distinct(g),
        ages_le(g, bound),
        0 <= bound,
    ensures
        snake_cells(g).finite(),
        snake_cells(g).len() <= bound,
{
    lemma_snake_cells_age_le_card(g, bound);
    assert(snake_cells(g) =~= snake_cells_age_le(g, bound));
}

/// With pairwise distinct positive ages bounded by `bound` and every age
/// `1..=bound` present, the grid holds exactly `bound` snake segments.
pub proof fn lemma_snake_cells_card_exact(g: Seq<Seq<Tile>>, bound: int)
    requires
        ages_positive(g),
        ages_distinct(g),
        ages_le(g, bound),
        forall|k: int| 1 <= k <= bound ==> has_age(g, k),
        0 <= bound,
    ensures
        snake_cells(g).finite(),
        snake_cells(g).len() == bound,
{
    lemma_snake_cells_age_le_card(g, bound);
    assert(snake_cells(g) =~= snake_cells_age_le(g, bound));
}

/// Pigeonhole: on a grid with more cells than `bound + 1`, at most `bound`
/// snake segments (distinct positive ages bounded by `bound`) and at most
/// one apple, some cell is free.
pub proof fn lemma_exists_free_cell(g: Seq<Seq<Tile>>, bound: int)
    requires
        grid_dims_ok(g),
        ages_positive(g),
        ages_distinct(g),
        ages_le(g, bound),
        at_most_one_apple(g),
        0 <= bound,
        bound + 1 < g.len() * g[0].len(),
    ensures
        exists|i: int, j: int| in_grid(g, i, j) && is_free(#[trigger] g[i][j]),
{
    let lines = g.len() as int;
    let cols = g[0].len() as int;
    lemma_grid_positions_card(lines, cols);
    lemma_snake_cells_card_le(g, bound);
    if !(exists|i: int, j: int| in_grid(g, i, j) && is_free(#[trigger] g[i][j])) {
        if exists|i: int, j: int| in_grid(g, i, j) && is_apple(#[trigger] g[i][j]) {
            let (ai, aj) = choose|i: int, j: int|
                in_grid(g, i, j) && is_apple(#[trigger] g[i][j]);
            let occupied = snake_cells(g).insert((ai, aj));
            assert forall|p: (int, int)| grid_positions(lines, cols).contains(p)
                implies occupied.contains(p) by {
                assert(in_grid(g, p.0, p.1));
                assert(!is_free(g[p.0][p.1]));
                if is_apple(g[p.0][p.1]) {
                    assert(p.0 == ai && p.1 == aj);
                }
            }
            lemma_len_subset(grid_positions(lines, cols), occupied);
            assert(false);
        } else {
            assert forall|p: (int, int)| grid_positions(lines, cols).contains(p)
                implies snake_cells(g).contains(p) by {
                assert(in_grid(g, p.0, p.1));
                assert(!is_free(g[p.0][p.1]));
                assert(!is_apple(g[p.0][p.1]));
            }
            lemma_len_subset(grid_positions(lines, cols), snake_cells(g));
            assert(false);
        }
    }
}

} // verus!
