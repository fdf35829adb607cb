use vstd::prelude::*;
use crate::model::{State, Point, after_mark};
use crate::grid_model::{valid_cell, mark_model, targetable, ship_count, no_touching};
use crate::field::{Field, in_footprint};
use crate::SHIP_COUNT;

verus! {

/// One side's turn-taking state: the coordinates it has already targeted
/// on the enemy grid this game. The two fields themselves are owned by the
/// caller and handed to each turn, so the two sides can share one pair of
/// grids with the roles swapped.
pub struct Session {
    pub cells_targeted: Vec<Point>,
}

/// The cell address that a pixel location inside a footprint anchored at
/// `tl` resolves to (50 pixels per cell each way).
pub open spec fn cell_pt(tl: Point, m: Point) -> Point {
    Point { x: ((m.x - tl.x) / 50) as i32, y: ((m.y - tl.y) / 50) as i32 }
}

/// What one successfully resolved turn does, targeting cell `c` of the
/// enemy grid: `c` is recorded, the enemy cell is marked, and the own
/// score grows by exactly 1 exactly when the mark destroyed a ship.
/// Nothing else moves.
pub open spec fn applied(
    pre_s: Session,
    post_s: Session,
    pre_own: Field,
    post_own: Field,
    pre_enemy: Field,
    post_enemy: Field,
    c: Point,
) -> bool {
    &&& valid_cell(c.x as int, c.y as int)
    &&& post_s.cells_targeted@ == pre_s.cells_targeted@.push(c)
    &&& post_enemy.grid() == mark_model(pre_enemy.grid(), c.x as int, c.y as int)
    &&& post_enemy.score == pre_enemy.score
    &&& post_enemy.tl == pre_enemy.tl
    &&& post_own.score == pre_own.score + (
        if after_mark(pre_enemy.grid()[c.x as int][c.y as int].state) == State::Killed {
            1int
        } else {
            0int
        }
    )
    &&& post_own.matrix == pre_own.matrix
    &&& post_own.tl == pre_own.tl
}

impl Session {
    /// A side that has not targeted anything yet.
    pub fn new() -> (r: Session)
        ensures
            r.cells_targeted@.len() == 0,
    {
        Session { cells_targeted: Vec::new() }
    }

    /// Whether this side has already targeted cell `p` this game.
    fn contains_target(&self, p: &Point) -> (r: bool)
        ensures
            r == self.cells_targeted@.contains(*p),
    {
        let mut k: usize = 0;
        while k < self.cells_targeted.len()
            invariant
                k <= self.cells_targeted@.len(),
                forall|t: int| 0 <= t < k ==> self.cells_targeted@[t] != *p,
            decreases self.cells_targeted@.len() - k,
        {
            if self.cells_targeted[k] == *p {
                return true;
            }
            k += 1;
        }
        false
    }

    /// Execute one targeting action against `enemy_field`, crediting a
    /// destroyed ship to `own_field`'s score.
    ///
    /// With a pixel location (a human move), the move is rejected — false,
    /// no mutation anywhere — when the location misses the enemy grid's
    /// footprint or resolves to a cell this side has already targeted.
    /// Without one (an automated move), a random cell is drawn from the
    /// enemy grid's pool of cells not yet recorded as a miss; such a move
    /// is never rejected, but it may re-target a destroyed ship, which
    /// credits the score again.
    pub fn perform(
        &mut self,
        own_field: &mut Field,
        enemy_field: &mut Field,
        mouse_location: Option<Point>,
    ) -> (r: bool)
        requires
            old(enemy_field).wf(),
            old(own_field).score < i32::MAX,
            mouse_location is None ==> exists|x: int, y: int|
                #[trigger] targetable(old(enemy_field).grid(), x, y),
        ensures
            final(enemy_field).wf(),
            r == (match mouse_location {
                Option::Some(m) => in_footprint(old(enemy_field).tl, m)
                    && !old(self).cells_targeted@.contains(cell_pt(old(enemy_field).tl, m)),
                Option::None => true,
            }),
            !r ==> *final(self) == *old(self) && *final(own_field) == *old(own_field)
                && *final(enemy_field) == *old(enemy_field),
            r ==> (match mouse_location {
                Option::Some(m) => applied(
                    *old(self),
                    *final(self),
                    *old(own_field),
                    *final(own_field),
                    *old(enemy_field),
                    *final(enemy_field),
                    cell_pt(old(enemy_field).tl, m),
                ),
                Option::None => exists|c: Point|
                    targetable(old(enemy_field).grid(), c.x as int, c.y as int) && #[trigger] applied(
                        *old(self),
                        *final(self),
                        *old(own_field),
                        *final(own_field),
                        *old(enemy_field),
                        *final(enemy_field),
                        c,
                    ),
            }),
    {
        let cell: Point;
        match mouse_location {
            Some(mouse) => {
                if !enemy_field.is_point_in_field(mouse) {
                    return false;
                }
                let rlx: i32 = mouse.x - enemy_field.tl.x;
                let rly: i32 = mouse.y - enemy_field.tl.y;
                let cx: usize = (rlx as usize) / 50;
                let cy: usize = (rly as usize) / 50;
                cell = Point { x: cx as i32, y: cy as i32 };
                proof {
                    assert(cell == cell_pt(enemy_field.tl, mouse));
                    assert(valid_cell(cell.x as int, cell.y as int));
                }
                if self.contains_target(&cell) {
                    return false;
                }
            },
            None => {
                cell = enemy_field.get_random_empty_field_point();
            },
        }
        let state = enemy_field.mark(cell);
        self.cells_targeted.push(cell);
        if state == State::Killed {
            own_field.score = own_field.score + 1;
        }
        proof {
            if mouse_location is None {
                assert(targetable(old(enemy_field).grid(), cell.x as int, cell.y as int));
                assert(applied(
                    *old(self),
                    *self,
                    *old(own_field),
                    *own_field,
                    *old(enemy_field),
                    *enemy_field,
                    cell,
                ));
            }
        }
        true
    }

    /// Start this side's next game: forget every targeted coordinate and
    /// reset its own grid (occupancy cleared, 7 fresh ships, score 0).
    pub fn reset(&mut self, own_field: &mut Field)
        requires
            old(own_field).wf(),
        ensures
            final(self).cells_targeted@.len() == 0,
            final(own_field).wf(),
            final(own_field).score == 0,
            ship_count(final(own_field).grid()) == SHIP_COUNT as int,
            no_touching(final(own_field).grid()),
            final(own_field).tl == old(own_field).tl,
    {
        self.cells_targeted.clear();
        own_field.reset();
    }
}

/// Targeting uniqueness: a turn that is given a target records only a
/// coordinate it has not recorded before, so the targeted set of a side
/// that is always given its targets stays duplicate-free, and no
/// coordinate is ever marked twice on its behalf.
pub proof fn lemma_targeting_unique(s: Seq<Point>, p: Point)
    requires
        s.no_duplicates(),
        !s.contains(p),
    ensures
        s.push(p).no_duplicates(),
{
    let s2 = s.push(p);
    assert forall|i: int, j: int|
        0 <= i < s2.len() && 0 <= j < s2.len() && i != j implies s2[i] != s2[j] by {
        if i < s.len() && j < s.len() {
            assert(s2[i] == s[i] && s2[j] == s[j]);
        } else if j == s.len() {
            assert(s2[j] == p && s2[i] == s[i]);
        } else {
            assert(s2[i] == p && s2[j] == s[j]);
        }
    }
}

} // verus!
