use vstd::prelude::*;
use crate::model::{Node, State, RenderState, after_mark};

verus! {

/// The mathematical model of a grid: ten columns of ten cells.
pub open spec fn wf_grid(g: Seq<Seq<Node>>) -> bool {
    &&& g.len() == 10
    &&& forall|i: int| 0 <= i < 10 ==> (#[trigger] g[i]).len() == 10
}

/// Whether `(x, y)` addresses a cell of the 10x10 grid.
pub open spec fn valid_cell(x: int, y: int) -> bool {
    0 <= x < 10 && 0 <= y < 10
}

pub open spec fn is_ship_at(g: Seq<Seq<Node>>, x: int, y: int) -> bool {
    g[x][y].state == State::Ship
}

/// Chebyshev distance at most 1: the Moore neighborhood of `(x1, y1)`,
/// the cell itself included.
pub open spec fn near(x1: int, y1: int, x2: int, y2: int) -> bool {
    -1 <= x1 - x2 <= 1 && -1 <= y1 - y2 <= 1
}

/// Placement legality: the candidate cell is on the grid, and neither it
/// nor any in-grid cell of its Moore neighborhood carries a ship, so that
/// ships never touch, not even diagonally. Off-grid neighbors count as
/// vacant.
pub open spec fn placeable(g: Seq<Seq<Node>>, x: int, y: int) -> bool {
    &&& valid_cell(x, y)
    &&& forall|i: int, j: int|
        valid_cell(i, j) && near(x, y, i, j) ==> !(#[trigger] is_ship_at(g, i, j))
}

/// No two distinct ship cells lie within Chebyshev distance 1 of each other.
pub open spec fn no_touching(g: Seq<Seq<Node>>) -> bool {
    forall|x1: int, y1: int, x2: int, y2: int|
        #[trigger] is_ship_at(g, x1, y1) && #[trigger] is_ship_at(g, x2, y2)
            && valid_cell(x1, y1) && valid_cell(x2, y2)
            && (x1 != x2 || y1 != y2)
            ==> !near(x1, y1, x2, y2)
}

/// The grid with the one cell `(x, y)` replaced by `n`.
pub open spec fn set_model(g: Seq<Seq<Node>>, x: int, y: int, n: Node) -> Seq<Seq<Node>> {
    g.update(x, g[x].update(y, n))
}

/// The cell that results from targeting `n`: occupancy advanced, reveal
/// flag forced on.
pub open spec fn mark_cell(n: Node) -> Node {
    Node { state: after_mark(n.state), render_state: RenderState::Visible }
}

/// The grid after `(x, y)` is targeted: that one cell is marked, every
/// other cell is untouched.
pub open spec fn mark_model(g: Seq<Seq<Node>>, x: int, y: int) -> Seq<Seq<Node>> {
    set_model(g, x, y, mark_cell(g[x][y]))
}

/// 1 for a ship cell, 0 for any other.
pub open spec fn ship_val(n: Node) -> int {
    if n.state == State::Ship {
        1
    } else {
        0
    }
}

/// Number of ship cells among the first `n` cells of one column.
pub open spec fn col_ships(col: Seq<Node>, n: int) -> int
    decreases n,
{
    if n <= 0 {
        0
    } else {
        col_ships(col, n - 1) + ship_val(col[n - 1])
    }
}

/// Number of ship cells in the first `i` whole columns.
pub open spec fn ships_upto(g: Seq<Seq<Node>>, i: int) -> int
    decreases i,
{
    if i <= 0 {
        0
    } else {
        ships_upto(g, i - 1) + col_ships(g[i - 1], 10)
    }
}

/// Number of ship cells on the whole grid.
pub open spec fn ship_count(g: Seq<Seq<Node>>) -> int {
    ships_upto(g, 10)
}

proof fn lemma_col_ships_bounds(col: Seq<Node>, n: int)
    requires
        n >= 0,
    ensures
        0 <= col_ships(col, n) <= n,
    decreases n,
{
    if n > 0 {
        lemma_col_ships_bounds(col, n - 1);
    }
}

proof fn lemma_ships_upto_bounds(g: Seq<Seq<Node>>, i: int)
    requires
        i >= 0,
    ensures
        0 <= ships_upto(g, i) <= 10 * i,
    decreases i,
{
    if i > 0 {
        lemma_ships_upto_bounds(g, i - 1);
        lemma_col_ships_bounds(g[i - 1], 10);
    }
}

/// Replacing the cell at index `j` of a column changes the ship tally of a
/// prefix by the difference at that one cell, and leaves shorter prefixes
/// alone.
proof fn lemma_col_ships_update(col: Seq<Node>, j: int, n2: Node, n: int)
    requires
        0 <= j < col.len(),
    ensures
        n <= j ==> col_ships(col.update(j, n2), n) == col_ships(col, n),
        j < n <= col.len() ==> col_ships(col.update(j, n2), n)
            == col_ships(col, n) - ship_val(col[j]) + ship_val(n2),
    decreases n,
{
    if n > 0 {
        lemma_col_ships_update(col, j, n2, n - 1);
    }
}

/// Replacing one whole column changes the grid tally by the difference of
/// the column tallies, and leaves the tally of columns before it alone.
proof fn lemma_ships_upto_update_col(g: Seq<Seq<Node>>, x: int, c2: Seq<Node>, i: int)
    requires
        0 <= x < g.len(),
    ensures
        i <= x ==> ships_upto(g.update(x, c2), i) == ships_upto(g, i),
        x < i <= g.len() ==> ships_upto(g.update(x, c2), i)
            == ships_upto(g, i) - col_ships(g[x], 10) + col_ships(c2, 10),
    decreases i,
{
    if i > 0 {
        lemma_ships_upto_update_col(g, x, c2, i - 1);
    }
}

/// The workhorse: replacing one cell changes the total ship count by the
/// difference at that one cell.
pub(crate) proof fn lemma_ship_count_set(g: Seq<Seq<Node>>, x: int, y: int, n: Node)
    requires
        wf_grid(g),
        valid_cell(x, y),
    ensures
        ship_count(set_model(g, x, y, n))
            == ship_count(g) - ship_val(g[x][y]) + ship_val(n),
{
    lemma_col_ships_update(g[x], y, n, 10);
    lemma_ships_upto_update_col(g, x, g[x].update(y, n), 10);
}

/// A single-cell replacement keeps the grid well formed.
pub(crate) proof fn lemma_set_model_wf(g: Seq<Seq<Node>>, x: int, y: int, n: Node)
    requires
        wf_grid(g),
        valid_cell(x, y),
    ensures
        wf_grid(set_model(g, x, y, n)),
        forall|i: int, j: int|
            valid_cell(i, j) && (i != x || j != y)
                ==> #[trigger] set_model(g, x, y, n)[i][j] == g[i][j],
        set_model(g, x, y, n)[x][y] == n,
{
}

/// A grid with no ship cell at all tallies zero in every column prefix.
proof fn lemma_col_no_ships(col: Seq<Node>, n: int)
    requires
        forall|j: int| 0 <= j < n ==> (#[trigger] col[j]).state != State::Ship,
    ensures
        col_ships(col, n) == 0,
    decreases n,
{
    if n > 0 {
        lemma_col_no_ships(col, n - 1);
    }
}

/// A grid with no ship cell at all has ship count zero.
pub(crate) proof fn lemma_no_ships_count_zero(g: Seq<Seq<Node>>)
    requires
        wf_grid(g),
        forall|x: int, y: int| valid_cell(x, y) ==> !(#[trigger] is_ship_at(g, x, y)),
    ensures
        ship_count(g) == 0,
{
    lemma_no_ships_zero_upto(g, 10);
}

proof fn lemma_no_ships_zero_upto(g: Seq<Seq<Node>>, i: int)
    requires
        wf_grid(g),
        i <= 10,
        forall|x: int, y: int| valid_cell(x, y) ==> !(#[trigger] is_ship_at(g, x, y)),
    ensures
        ships_upto(g, i) == 0,
    decreases i,
{
    if i > 0 {
        lemma_no_ships_zero_upto(g, i - 1);
        assert forall|j: int| 0 <= j < 10 implies (#[trigger] g[i - 1][j]).state != State::Ship by {
            assert(!is_ship_at(g, i - 1, j));
        }
        lemma_col_no_ships(g[i - 1], 10);
    }
}

/// The pool the automated move draws from: every in-grid cell that is not
/// yet a recorded miss (a destroyed ship stays in the pool).
pub open spec fn targetable(g: Seq<Seq<Node>>, x: int, y: int) -> bool {
    valid_cell(x, y) && g[x][y].state != State::Pressed
}

/// From a cell the no-touch rule rejects, produce a ship in its Moore
/// neighborhood.
proof fn choose_blocker(g: Seq<Seq<Node>>, x: int, y: int) -> (s: (int, int))
    requires
        wf_grid(g),
        valid_cell(x, y),
        !placeable(g, x, y),
    ensures
        valid_cell(s.0, s.1),
        near(x, y, s.0, s.1),
        is_ship_at(g, s.0, s.1),
{
    assert(exists|i: int, j: int|
        valid_cell(i, j) && near(x, y, i, j) && #[trigger] is_ship_at(g, i, j));
    let (i, j) = choose|i: int, j: int|
        valid_cell(i, j) && near(x, y, i, j) && #[trigger] is_ship_at(g, i, j);
    (i, j)
}

/// Empty one ship cell; every other cell keeps its ship status.
proof fn clear_ship(g: Seq<Seq<Node>>, x: int, y: int) -> (g2: Seq<Seq<Node>>)
    requires
        wf_grid(g),
        valid_cell(x, y),
        is_ship_at(g, x, y),
    ensures
        wf_grid(g2),
        ship_count(g2) == ship_count(g) - 1,
        forall|i: int, j: int|
            valid_cell(i, j) && (i != x || j != y)
                ==> #[trigger] is_ship_at(g2, i, j) == is_ship_at(g, i, j),
{
    let n0 = Node { state: State::Empty, render_state: RenderState::Hidden };
    let g2 = set_model(g, x, y, n0);
    lemma_ship_count_set(g, x, y, n0);
    lemma_set_model_wf(g, x, y, n0);
    g2
}

/// A grid with at most 6 ships always has a legal slot left. Seven probe
/// cells pairwise at Chebyshev distance at least 4 would otherwise each be
/// blocked by a ship of its own neighborhood; those blockers would be
/// pairwise distinct, which takes at least 7 ships.
pub(crate) proof fn lemma_placeable_exists(g: Seq<Seq<Node>>)
    requires
        wf_grid(g),
        ship_count(g) <= 6,
    ensures
        exists|x: int, y: int| #[trigger] placeable(g, x, y),
{
    if !(exists|x: int, y: int| #[trigger] placeable(g, x, y)) {
        assert(!placeable(g, 0, 0));
        assert(!placeable(g, 0, 4));
        assert(!placeable(g, 0, 8));
        assert(!placeable(g, 4, 0));
        assert(!placeable(g, 4, 4));
        assert(!placeable(g, 4, 8));
        assert(!placeable(g, 8, 0));
        let s1 = choose_blocker(g, 0, 0);
        let s2 = choose_blocker(g, 0, 4);
        let s3 = choose_blocker(g, 0, 8);
        let s4 = choose_blocker(g, 4, 0);
        let s5 = choose_blocker(g, 4, 4);
        let s6 = choose_blocker(g, 4, 8);
        let s7 = choose_blocker(g, 8, 0);
        let g1 = clear_ship(g, s1.0, s1.1);
        let g2 = clear_ship(g1, s2.0, s2.1);
        let g3 = clear_ship(g2, s3.0, s3.1);
        let g4 = clear_ship(g3, s4.0, s4.1);
        let g5 = clear_ship(g4, s5.0, s5.1);
        let g6 = clear_ship(g5, s6.0, s6.1);
        let g7 = clear_ship(g6, s7.0, s7.1);
        assert(ship_count(g7) == ship_count(g) - 7);
        lemma_ships_upto_bounds(g7, 10);
        assert(false);
    }
}

/// Marking a cell twice is the same as marking it once: re-targeting an
/// already-missed or already-destroyed cell changes no occupancy and no
/// reveal flag.
pub proof fn lemma_mark_idempotent(g: Seq<Seq<Node>>, x: int, y: int)
    requires
        wf_grid(g),
        valid_cell(x, y),
    ensures
        mark_model(mark_model(g, x, y), x, y) == mark_model(g, x, y),
{
    let g1 = mark_model(g, x, y);
    assert(g1[x][y] == mark_cell(g[x][y]));
    assert(mark_cell(g1[x][y]) == g1[x][y]);
    assert(mark_model(g1, x, y) =~~= g1);
}

} // verus!
