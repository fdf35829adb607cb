use vstd::prelude::*;
use crate::model::{Node, State, RenderState, after_mark, Point};
use crate::grid_model::{
    wf_grid, valid_cell, set_model, mark_model, mark_cell, is_ship_at, near, placeable,
    no_touching, ship_count, ship_val, targetable, lemma_ship_count_set, lemma_set_model_wf,
    lemma_no_ships_count_zero, lemma_placeable_exists,
};
use crate::rng::random_below;
use crate::SHIP_COUNT;

verus! {

/// Whether pixel location `m` lies inside the 500x500 rendered footprint
/// of a grid anchored at `tl` (10 cells of 50 pixels each way).
pub open spec fn in_footprint(tl: Point, m: Point) -> bool {
    &&& tl.x <= m.x < tl.x + 500
    &&& tl.y <= m.y < tl.y + 500
}

/// One side's 10x10 playing field: the cells, the pixel anchor of its
/// rendered footprint, and the score its owner has accumulated (enemy
/// ships destroyed, counted by the owner's turn logic, not here).
pub struct Field {
    pub tl: Point,
    pub matrix: Vec<Vec<Node>>,
    pub score: i32,
}

impl Field {
    /// Rendered width of one cell, in pixels.
    pub const CELL_WIDTH: i32 = 50;

    /// Rendered height of one cell, in pixels.
    pub const CELL_HEIGHT: i32 = 50;

    /// The grid as a sequence of columns of cells.
    pub open spec fn grid(self) -> Seq<Seq<Node>> {
        Seq::new(self.matrix@.len(), |i: int| self.matrix@[i]@)
    }

    pub open spec fn wf(self) -> bool {
        wf_grid(self.grid())
    }

    /// A fresh field: every cell empty, hidden unless `hidden` is false,
    /// score zero.
    pub fn new(tl: Point, hidden: bool) -> (r: Field)
        ensures
            r.wf(),
            r.score == 0,
            r.tl == tl,
            forall|x: int, y: int|
                valid_cell(x, y) ==> #[trigger] r.grid()[x][y] == (Node {
                    state: State::Empty,
                    render_state: if hidden {
                        RenderState::Hidden
                    } else {
                        RenderState::Visible
                    },
                }),
    {
        let mut matrix: Vec<Vec<Node>> = Vec::new();
        let node = Node::new(!hidden);
        let mut i: usize = 0;
        while i < 10
            invariant
                i <= 10,
                matrix@.len() == i,
                forall|a: int| 0 <= a < i ==> (#[trigger] matrix@[a])@.len() == 10,
                forall|a: int, b: int|
                    0 <= a < i && 0 <= b < 10 ==> #[trigger] matrix@[a]@[b] == node,
            decreases 10 - i,
        {
            let mut col: Vec<Node> = Vec::new();
            let mut j: usize = 0;
            while j < 10
                invariant
                    j <= 10,
                    col@.len() == j,
                    forall|b: int| 0 <= b < j ==> #[trigger] col@[b] == node,
                decreases 10 - j,
            {
                col.push(node);
                j += 1;
            }
            matrix.push(col);
            i += 1;
        }
        Field { tl, matrix, score: 0 }
    }

    /// Read one cell.
    pub fn get_cell(&self, x: usize, y: usize) -> (r: Node)
        requires
            self.wf(),
            x < 10,
            y < 10,
        ensures
            r == self.grid()[x as int][y as int],
    {
        let col = &self.matrix[x];
        col[y]
    }

    /// Overwrite one cell.
    fn set_cell(&mut self, x: usize, y: usize, n: Node)
        requires
            old(self).wf(),
            x < 10,
            y < 10,
        ensures
            final(self).wf(),
            final(self).grid() == set_model(old(self).grid(), x as int, y as int, n),
            final(self).score == old(self).score,
            final(self).tl == old(self).tl,
    {
        let col = &mut self.matrix[x];
        proof {
            assert(old(self).grid()[x as int].len() == 10);
            assert(col@.len() == 10);
        }
        col[y] = n;
        proof {
            assert(self.grid() =~~= set_model(old(self).grid(), x as int, y as int, n));
        }
    }

    /// Target one in-bounds cell: force its reveal flag on, advance its
    /// occupancy (empty becomes a miss, a ship is destroyed, a cell already
    /// targeted keeps its occupancy), and return the resulting occupancy.
    /// The score is not touched: score bookkeeping belongs to the caller.
    pub fn mark(&mut self, location: Point) -> (r: State)
        requires
            old(self).wf(),
            valid_cell(location.x as int, location.y as int),
        ensures
            final(self).wf(),
            r == after_mark(old(self).grid()[location.x as int][location.y as int].state),
            final(self).grid() == mark_model(old(self).grid(), location.x as int, location.y as int),
            final(self).score == old(self).score,
            final(self).tl == old(self).tl,
    {
        let x: usize = location.x as usize;
        let y: usize = location.y as usize;
        let old_node = self.get_cell(x, y);
        let new_state = match old_node.state {
            State::Empty => State::Pressed,
            State::Ship => State::Killed,
            State::Killed => State::Killed,
            State::Pressed => State::Pressed,
        };
        let new_node = Node { state: new_state, render_state: RenderState::Visible };
        proof {
            assert(new_node == mark_cell(old(self).grid()[x as int][y as int]));
        }
        self.set_cell(x, y, new_node);
        new_state
    }

    /// Set every cell's occupancy back to empty. Reveal flags, the score
    /// and the anchor are left as they are.
    pub fn clean(&mut self)
        requires
            old(self).wf(),
        ensures
            final(self).wf(),
            forall|x: int, y: int|
                valid_cell(x, y) ==> #[trigger] final(self).grid()[x][y] == (Node {
                    state: State::Empty,
                    render_state: old(self).grid()[x][y].render_state,
                }),
            final(self).score == old(self).score,
            final(self).tl == old(self).tl,
    {
        let mut x: usize = 0;
        while x < 10
            invariant
                self.wf(),
                x <= 10,
                self.score == old(self).score,
                self.tl == old(self).tl,
                forall|a: int, b: int|
                    valid_cell(a, b) && a < x ==> #[trigger] self.grid()[a][b] == (Node {
                        state: State::Empty,
                        render_state: old(self).grid()[a][b].render_state,
                    }),
                forall|a: int, b: int|
                    valid_cell(a, b) && a >= x
                        ==> #[trigger] self.grid()[a][b] == old(self).grid()[a][b],
            decreases 10 - x,
        {
            let mut y: usize = 0;
            while y < 10
                invariant
                    self.wf(),
                    x < 10,
                    y <= 10,
                    self.score == old(self).score,
                    self.tl == old(self).tl,
                    forall|a: int, b: int|
                        valid_cell(a, b) && (a < x || (a == x && b < y))
                            ==> #[trigger] self.grid()[a][b] == (Node {
                            state: State::Empty,
                            render_state: old(self).grid()[a][b].render_state,
                        }),
                    forall|a: int, b: int|
                        valid_cell(a, b) && (a > x || (a == x && b >= y))
                            ==> #[trigger] self.grid()[a][b] == old(self).grid()[a][b],
                decreases 10 - y,
            {
                let nd = self.get_cell(x, y);
                self.set_cell(x, y, Node { state: State::Empty, render_state: nd.render_state });
                y += 1;
            }
            x += 1;
        }
    }

    /// Force every cell's reveal flag on; occupancy, score and anchor are
    /// untouched. Irreversible within a game: only a reset follows it.
    pub fn reveal_all(&mut self)
        requires
            old(self).wf(),
        ensures
            final(self).wf(),
            forall|x: int, y: int|
                valid_cell(x, y) ==> #[trigger] final(self).grid()[x][y] == (Node {
                    state: old(self).grid()[x][y].state,
                    render_state: RenderState::Visible,
                }),
            final(self).score == old(self).score,
            final(self).tl == old(self).tl,
    {
        let mut x: usize = 0;
        while x < 10
            invariant
                self.wf(),
                x <= 10,
                self.score == old(self).score,
                self.tl == old(self).tl,
                forall|a: int, b: int|
                    valid_cell(a, b) && a < x ==> #[trigger] self.grid()[a][b] == (Node {
                        state: old(self).grid()[a][b].state,
                        render_state: RenderState::Visible,
                    }),
                forall|a: int, b: int|
                    valid_cell(a, b) && a >= x
                        ==> #[trigger] self.grid()[a][b] == old(self).grid()[a][b],
            decreases 10 - x,
        {
            let mut y: usize = 0;
            while y < 10
                invariant
                    self.wf(),
                    x < 10,
                    y <= 10,
                    self.score == old(self).score,
                    self.tl == old(self).tl,
                    forall|a: int, b: int|
                        valid_cell(a, b) && (a < x || (a == x && b < y))
                            ==> #[trigger] self.grid()[a][b] == (Node {
                            state: old(self).grid()[a][b].state,
                            render_state: RenderState::Visible,
                        }),
                    forall|a: int, b: int|
                        valid_cell(a, b) && (a > x || (a == x && b >= y))
                            ==> #[trigger] self.grid()[a][b] == old(self).grid()[a][b],
                decreases 10 - y,
            {
                let nd = self.get_cell(x, y);
                self.set_cell(x, y, Node { state: nd.state, render_state: RenderState::Visible });
                y += 1;
            }
            x += 1;
        }
    }

    /// Whether `(x, y)` is an in-grid cell that carries a ship; off-grid
    /// coordinates count as vacant.
    fn has_ship_at(&self, x: i32, y: i32) -> (r: bool)
        requires
            self.wf(),
        ensures
            r == (valid_cell(x as int, y as int) && is_ship_at(self.grid(), x as int, y as int)),
    {
        if x < 0 || y < 0 || x >= 10 || y >= 10 {
            false
        } else {
            let n = self.get_cell(x as usize, y as usize);
            n.state == State::Ship
        }
    }

    /// The no-touch placement rule: the cell is on the grid and neither it
    /// nor any in-grid Moore neighbor carries a ship.
    pub fn is_cell_placeable(&self, location: &Point) -> (r: bool)
        requires
            self.wf(),
        ensures
            r == placeable(self.grid(), location.x as int, location.y as int),
    {
        let x: i32 = location.x;
        let y: i32 = location.y;
        if x < 0 || y < 0 || x >= 10 || y >= 10 {
            return false;
        }
        let r = !self.has_ship_at(x - 1, y - 1) && !self.has_ship_at(x - 1, y)
            && !self.has_ship_at(x - 1, y + 1) && !self.has_ship_at(x, y - 1)
            && !self.has_ship_at(x, y) && !self.has_ship_at(x, y + 1)
            && !self.has_ship_at(x + 1, y - 1) && !self.has_ship_at(x + 1, y)
            && !self.has_ship_at(x + 1, y + 1);
        proof {
            if r {
                assert forall|i: int, j: int|
                    valid_cell(i, j) && near(x as int, y as int, i, j)
                        implies !(#[trigger] is_ship_at(self.grid(), i, j)) by {
                    assert(i == x - 1 || i == x || i == x + 1);
                    assert(j == y - 1 || j == y || j == y + 1);
                }
            }
        }
        r
    }

    /// Place one ship at `location` if the no-touch rule allows it; report
    /// whether it was placed. A legal placement adds exactly one ship cell
    /// and keeps ships pairwise non-touching.
    pub fn try_place(&mut self, location: Point) -> (placed: bool)
        requires
            old(self).wf(),
        ensures
            final(self).wf(),
            placed == placeable(old(self).grid(), location.x as int, location.y as int),
            placed ==> final(self).grid() == set_model(
                old(self).grid(),
                location.x as int,
                location.y as int,
                (Node {
                    state: State::Ship,
                    render_state: old(self).grid()[location.x as int][location.y as int].render_state,
                }),
            ),
            placed ==> ship_count(final(self).grid()) == ship_count(old(self).grid()) + 1,
            placed && no_touching(old(self).grid()) ==> no_touching(final(self).grid()),
            !placed ==> *final(self) == *old(self),
            final(self).score == old(self).score,
            final(self).tl == old(self).tl,
    {
        if self.is_cell_placeable(&location) {
            let x: usize = location.x as usize;
            let y: usize = location.y as usize;
            let nd = self.get_cell(x, y);
            let shipn = Node { state: State::Ship, render_state: nd.render_state };
            self.set_cell(x, y, shipn);
            proof {
                let g0 = old(self).grid();
                let xi = x as int;
                let yi = y as int;
                lemma_ship_count_set(g0, xi, yi, shipn);
                lemma_set_model_wf(g0, xi, yi, shipn);
                assert(!is_ship_at(g0, xi, yi));
                assert(ship_val(g0[xi][yi]) == 0);
                if no_touching(g0) {
                    assert forall|x1: int, y1: int, x2: int, y2: int|
                        #[trigger] is_ship_at(self.grid(), x1, y1)
                            && #[trigger] is_ship_at(self.grid(), x2, y2)
                            && valid_cell(x1, y1) && valid_cell(x2, y2)
                            && (x1 != x2 || y1 != y2)
                            implies !near(x1, y1, x2, y2) by {
                        if (x1 != xi || y1 != yi) && (x2 != xi || y2 != yi) {
                            assert(is_ship_at(g0, x1, y1));
                            assert(is_ship_at(g0, x2, y2));
                        } else if x1 == xi && y1 == yi {
                            assert(is_ship_at(g0, x2, y2));
                            assert(!is_ship_at(g0, x2, y2) || !near(xi, yi, x2, y2));
                        } else {
                            assert(is_ship_at(g0, x1, y1));
                            assert(!is_ship_at(g0, x1, y1) || !near(xi, yi, x1, y1));
                            assert(near(x1, y1, x2, y2) ==> near(xi, yi, x1, y1));
                        }
                    }
                }
            }
            true
        } else {
            false
        }
    }

    /// A uniformly random cell coordinate of the grid.
    pub fn get_random_field_point(&self) -> (r: Point)
        ensures
            valid_cell(r.x as int, r.y as int),
    {
        let x: usize = random_below(10);
        let y: usize = random_below(10);
        Point { x: x as i32, y: y as i32 }
    }

    /// A uniformly random cell among those not yet recorded as a miss: the
    /// pool keeps untargeted cells and destroyed ships, and drops only
    /// misses. The pool must not be empty; an exhausted pool would mean the
    /// round was driven past its end.
    pub fn get_random_empty_field_point(&self) -> (r: Point)
        requires
            self.wf(),
            exists|x: int, y: int| #[trigger] targetable(self.grid(), x, y),
        ensures
            targetable(self.grid(), r.x as int, r.y as int),
    {
        let mut available: Vec<Point> = Vec::new();
        let mut x: i32 = 0;
        while x < 10
            invariant
                self.wf(),
                0 <= x <= 10,
                forall|t: int|
                    0 <= t < available@.len() ==> targetable(
                        self.grid(),
                        (#[trigger] available@[t]).x as int,
                        available@[t].y as int,
                    ),
                forall|a: i32, b: i32|
                    0 <= a < x && 0 <= b < 10 && targetable(self.grid(), a as int, b as int)
                        ==> available@.contains(Point { x: a, y: b }),
            decreases 10 - x,
        {
            let mut y: i32 = 0;
            while y < 10
                invariant
                    self.wf(),
                    0 <= x < 10,
                    0 <= y <= 10,
                    forall|t: int|
                        0 <= t < available@.len() ==> targetable(
                            self.grid(),
                            (#[trigger] available@[t]).x as int,
                            available@[t].y as int,
                        ),
                    forall|a: i32, b: i32|
                        0 <= a < x && 0 <= b < 10 && targetable(self.grid(), a as int, b as int)
                            ==> available@.contains(Point { x: a, y: b }),
                    forall|b: i32|
                        0 <= b < y && targetable(self.grid(), x as int, b as int)
                            ==> available@.contains(Point { x, y: b }),
                decreases 10 - y,
            {
                let n = self.get_cell(x as usize, y as usize);
                let ghost av0 = available@;
                if !(n.state == State::Pressed) {
                    available.push(Point { x, y });
                }
                proof {
                    assert forall|pt: Point| av0.contains(pt) implies available@.contains(pt) by {
                        let t = choose|t: int| 0 <= t < av0.len() && av0[t] == pt;
                        assert(available@[t] == pt);
                    }
                    if n.state != State::Pressed {
                        assert(available@[av0.len() as int] == (Point { x, y }));
                        assert(available@.contains(Point { x, y }));
                    }
                }
                y += 1;
            }
            x += 1;
        }
        proof {
            let (wx, wy) = choose|wx: int, wy: int| #[trigger] targetable(self.grid(), wx, wy);
            assert(available@.contains(Point { x: wx as i32, y: wy as i32 }));
            assert(available@.len() > 0);
        }
        let idx: usize = random_below(available.len());
        available[idx]
    }

    /// First cell, scanning column by column, that the no-touch rule still
    /// allows a ship on; `None` exactly when no cell is left that it allows.
    fn find_placeable(&self) -> (r: Option<Point>)
        requires
            self.wf(),
        ensures
            match r {
                Some(p) => placeable(self.grid(), p.x as int, p.y as int),
                None => forall|x: int, y: int| !(#[trigger] placeable(self.grid(), x, y)),
            },
    {
        let mut x: i32 = 0;
        while x < 10
            invariant
                self.wf(),
                0 <= x <= 10,
                forall|a: int, b: int| a < x ==> !(#[trigger] placeable(self.grid(), a, b)),
            decreases 10 - x,
        {
            let mut y: i32 = 0;
            while y < 10
                invariant
                    self.wf(),
                    0 <= x < 10,
                    0 <= y <= 10,
                    forall|a: int, b: int| a < x ==> !(#[trigger] placeable(self.grid(), a, b)),
                    forall|b: int| b < y ==> !(#[trigger] placeable(self.grid(), x as int, b)),
                decreases 10 - y,
            {
                let pt = Point { x, y };
                if self.is_cell_placeable(&pt) {
                    return Some(pt);
                }
                y += 1;
            }
            x += 1;
        }
        None
    }

    /// Put one more ship on a legal slot: sample random cells for a while
    /// and, if none of the samples lands on a legal slot, fall back to the
    /// first legal slot of a scan, which the ship bound guarantees exists.
    fn place_one(&mut self)
        requires
            old(self).wf(),
            ship_count(old(self).grid()) <= 6,
            no_touching(old(self).grid()),
        ensures
            final(self).wf(),
            ship_count(final(self).grid()) == ship_count(old(self).grid()) + 1,
            no_touching(final(self).grid()),
            final(self).score == old(self).score,
            final(self).tl == old(self).tl,
            forall|x: int, y: int|
                valid_cell(x, y) ==> #[trigger] final(self).grid()[x][y] == old(self).grid()[x][y]
                    || final(self).grid()[x][y] == (Node {
                    state: State::Ship,
                    render_state: old(self).grid()[x][y].render_state,
                }),
    {
        let mut tries: i32 = 0;
        while tries < 100
            invariant
                *self == *old(self),
                old(self).wf(),
                ship_count(old(self).grid()) <= 6,
                no_touching(old(self).grid()),
            decreases 100 - tries,
        {
            let p = self.get_random_field_point();
            if self.try_place(p) {
                proof {
                    lemma_set_model_wf(
                        old(self).grid(),
                        p.x as int,
                        p.y as int,
                        (Node {
                            state: State::Ship,
                            render_state: old(self).grid()[p.x as int][p.y as int].render_state,
                        }),
                    );
                }
                return;
            }
            tries += 1;
        }
        proof {
            lemma_placeable_exists(self.grid());
        }
        let found = self.find_placeable();
        match found {
            Some(q) => {
                let did = self.try_place(q);
                proof {
                    assert(did);
                    lemma_set_model_wf(
                        old(self).grid(),
                        q.x as int,
                        q.y as int,
                        (Node {
                            state: State::Ship,
                            render_state: old(self).grid()[q.x as int][q.y as int].render_state,
                        }),
                    );
                }
            },
            None => {
                proof {
                    assert(false);
                }
            },
        }
    }

    /// Repeatedly draw random cells and place a ship on each legal one
    /// until the grid holds exactly 7 ships, which then pairwise never
    /// touch. Scores, reveal flags and the anchor are untouched.
    pub fn randomize_ugly(&mut self)
        requires
            old(self).wf(),
            forall|x: int, y: int|
                valid_cell(x, y) ==> !(#[trigger] is_ship_at(old(self).grid(), x, y)),
        ensures
            final(self).wf(),
            ship_count(final(self).grid()) == SHIP_COUNT as int,
            no_touching(final(self).grid()),
            final(self).score == old(self).score,
            final(self).tl == old(self).tl,
            forall|x: int, y: int|
                valid_cell(x, y) ==> #[trigger] final(self).grid()[x][y] == old(self).grid()[x][y]
                    || final(self).grid()[x][y] == (Node {
                    state: State::Ship,
                    render_state: old(self).grid()[x][y].render_state,
                }),
    {
        proof {
            lemma_no_ships_count_zero(old(self).grid());
        }
        let mut placed: i32 = 0;
        while placed < SHIP_COUNT
            invariant
                old(self).wf(),
                self.wf(),
                0 <= placed <= SHIP_COUNT,
                ship_count(self.grid()) == placed as int,
                no_touching(self.grid()),
                self.score == old(self).score,
                self.tl == old(self).tl,
                forall|x: int, y: int|
                    valid_cell(x, y) ==> #[trigger] self.grid()[x][y] == old(self).grid()[x][y]
                        || self.grid()[x][y] == (Node {
                        state: State::Ship,
                        render_state: old(self).grid()[x][y].render_state,
                    }),
            decreases SHIP_COUNT - placed,
        {
            self.place_one();
            placed += 1;
        }
    }

    /// A fresh round on the same board: every cell back to empty, 7 ships
    /// placed anew at random, score back to 0. Reveal flags persist across
    /// the reset; re-hiding is the presentation layer's choice.
    pub fn reset(&mut self)
        requires
            old(self).wf(),
        ensures
            final(self).wf(),
            final(self).score == 0,
            ship_count(final(self).grid()) == SHIP_COUNT as int,
            no_touching(final(self).grid()),
            final(self).tl == old(self).tl,
            forall|x: int, y: int|
                valid_cell(x, y) ==> #[trigger] final(self).grid()[x][y].render_state
                    == old(self).grid()[x][y].render_state,
    {
        self.clean();
        self.randomize_ugly();
        self.score = 0;
    }

    /// Whether this side has destroyed every enemy ship.
    pub fn has_won(&self) -> (r: bool)
        ensures
            r == (self.score >= SHIP_COUNT),
    {
        self.score >= SHIP_COUNT
    }

    /// Whether a pixel location lies inside this field's rendered 500x500
    /// footprint, anchored at `tl`. Pure hit test; no mutation.
    pub fn is_point_in_field(&self, location: Point) -> (r: bool)
        ensures
            r == in_footprint(self.tl, location),
    {
        let lx: i64 = location.x as i64;
        let ly: i64 = location.y as i64;
        let tx: i64 = self.tl.x as i64;
        let ty: i64 = self.tl.y as i64;
        lx >= tx && lx < tx + 500 && ly >= ty && ly < ty + 500
    }
}

} // verus!
