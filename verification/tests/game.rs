use sea_battle::field::Field;
use sea_battle::model::{Node, Point, RenderState, State};
use sea_battle::session::Session;
use sea_battle::SHIP_COUNT;

fn pt(x: i32, y: i32) -> Point {
    Point { x, y }
}

fn ship_cells(f: &Field) -> Vec<(i32, i32)> {
    let mut out = Vec::new();
    for x in 0..10 {
        for y in 0..10 {
            if f.matrix[x as usize][y as usize].state == State::Ship {
                out.push((x, y));
            }
        }
    }
    out
}

#[test]
fn mark_is_idempotent_on_misses_and_kills() {
    let mut f = Field::new(pt(0, 0), true);
    assert!(f.try_place(pt(3, 3)));

    assert_eq!(f.mark(pt(3, 3)), State::Killed);
    let snapshot = f.matrix.clone();
    let score = f.score;
    assert_eq!(f.mark(pt(3, 3)), State::Killed);
    assert_eq!(f.matrix, snapshot);
    assert_eq!(f.score, score);

    assert_eq!(f.mark(pt(0, 0)), State::Pressed);
    let snapshot = f.matrix.clone();
    assert_eq!(f.mark(pt(0, 0)), State::Pressed);
    assert_eq!(f.matrix, snapshot);
    assert_eq!(f.score, score);
}

#[test]
fn random_placement_puts_exactly_seven_ships() {
    let mut f = Field::new(pt(400, 100), true);
    f.randomize_ugly();
    assert_eq!(ship_cells(&f).len(), 7);
}

#[test]
fn random_placement_never_touches() {
    for _ in 0..20 {
        let mut f = Field::new(pt(0, 0), false);
        f.randomize_ugly();
        let ships = ship_cells(&f);
        assert_eq!(ships.len(), 7);
        for &(x1, y1) in &ships {
            for &(x2, y2) in &ships {
                if (x1, y1) != (x2, y2) {
                    let d = (x1 - x2).abs().max((y1 - y2).abs());
                    assert!(d >= 2, "ships at ({x1},{y1}) and ({x2},{y2}) touch");
                }
            }
        }
    }
}

#[test]
fn marking_a_seeded_ship_then_an_empty_cell() {
    // A grid seeded with one ship at (3,3) only, bypassing random placement.
    let mut f = Field::new(pt(0, 0), true);
    assert!(f.try_place(pt(3, 3)));
    assert_eq!(f.mark(pt(3, 3)), State::Killed);
    assert_eq!(f.mark(pt(3, 3)), State::Killed);
    assert_eq!(f.mark(pt(0, 0)), State::Pressed);
}

#[test]
fn automated_move_resolves_to_the_last_open_cell() {
    // Enemy grid fully targeted except (5,5), which holds a ship.
    let mut own = Field::new(pt(0, 0), false);
    let mut enemy = Field::new(pt(500, 0), true);
    assert!(enemy.try_place(pt(5, 5)));
    for x in 0..10 {
        for y in 0..10 {
            if (x, y) != (5, 5) {
                assert_eq!(enemy.mark(pt(x, y)), State::Pressed);
            }
        }
    }
    let mut s = Session::new();
    assert!(s.perform(&mut own, &mut enemy, None));
    assert_eq!(enemy.matrix[5][5].state, State::Killed);
    assert_eq!(own.score, 1);
    assert_eq!(s.cells_targeted.len(), 1);
    assert_eq!(s.cells_targeted[0], pt(5, 5));
}

#[test]
fn click_outside_the_footprint_is_rejected_without_mutation() {
    let mut own = Field::new(pt(0, 0), false);
    let mut enemy = Field::new(pt(500, 0), true);
    enemy.randomize_ugly();
    let enemy_snapshot = enemy.matrix.clone();
    let mut s = Session::new();

    // One pixel left of, and one pixel past, the 500x500 footprint.
    assert!(!s.perform(&mut own, &mut enemy, Some(pt(499, 10))));
    assert!(!s.perform(&mut own, &mut enemy, Some(pt(1000, 10))));
    assert!(!s.perform(&mut own, &mut enemy, Some(pt(700, 500))));

    assert_eq!(s.cells_targeted.len(), 0);
    assert_eq!(enemy.matrix, enemy_snapshot);
    assert_eq!(own.score, 0);
    assert_eq!(enemy.score, 0);
}

#[test]
fn a_coordinate_is_never_targeted_twice_when_given() {
    let mut own = Field::new(pt(0, 0), false);
    let mut enemy = Field::new(pt(0, 0), true);
    enemy.randomize_ugly();
    let mut s = Session::new();

    // Click every cell once, then every cell again; the second pass is
    // rejected wholesale.
    for x in 0..10 {
        for y in 0..10 {
            let pixel = pt(x * 50 + 25, y * 50 + 25);
            assert!(s.perform(&mut own, &mut enemy, Some(pixel)));
        }
    }
    for x in 0..10 {
        for y in 0..10 {
            let pixel = pt(x * 50 + 7, y * 50 + 43);
            assert!(!s.perform(&mut own, &mut enemy, Some(pixel)));
        }
    }
    assert_eq!(s.cells_targeted.len(), 100);
    for i in 0..s.cells_targeted.len() {
        for j in 0..i {
            assert_ne!(s.cells_targeted[i], s.cells_targeted[j]);
        }
    }
    // Every ship found: the whole grid was swept once.
    assert_eq!(own.score, 7);
}

#[test]
fn score_grows_by_one_exactly_on_a_kill() {
    let mut own = Field::new(pt(0, 0), false);
    let mut enemy = Field::new(pt(0, 0), true);
    assert!(enemy.try_place(pt(2, 2)));
    let mut s = Session::new();

    // A miss leaves the score alone.
    assert!(s.perform(&mut own, &mut enemy, Some(pt(25, 25))));
    assert_eq!(own.score, 0);
    // A kill adds exactly 1.
    assert!(s.perform(&mut own, &mut enemy, Some(pt(125, 125))));
    assert_eq!(own.score, 1);
    // A rejected move leaves it alone.
    assert!(!s.perform(&mut own, &mut enemy, Some(pt(125, 125))));
    assert_eq!(own.score, 1);
}

#[test]
fn reset_clears_score_targets_and_reseeds_seven_ships() {
    let mut own = Field::new(pt(0, 0), false);
    let mut enemy = Field::new(pt(0, 0), true);
    enemy.randomize_ugly();
    own.randomize_ugly();
    let mut s = Session::new();
    for x in 0..10 {
        for y in 0..3 {
            assert!(s.perform(&mut own, &mut enemy, Some(pt(x * 50 + 25, y * 50 + 25))));
        }
    }
    s.reset(&mut own);
    assert_eq!(s.cells_targeted.len(), 0);
    assert_eq!(own.score, 0);
    assert_eq!(ship_cells(&own).len(), 7);
    for x in 0..10 {
        for y in 0..10 {
            let st = own.matrix[x][y].state;
            assert!(st == State::Empty || st == State::Ship);
        }
    }
}

#[test]
fn seventh_ship_lands_on_the_eventually_legal_candidate() {
    // Six ships down; a deterministic candidate sequence with illegal
    // candidates first must refuse them and place the seventh on the legal
    // slot.
    let mut f = Field::new(pt(0, 0), true);
    for &(x, y) in &[(0, 0), (0, 4), (0, 8), (4, 0), (4, 4), (4, 8)] {
        assert!(f.try_place(pt(x, y)));
    }
    let candidates = [(0, 1), (1, 1), (4, 5), (3, 3), (5, 4), (8, 8)];
    let mut placed = 0;
    let mut landed = None;
    for &(x, y) in &candidates {
        if f.try_place(pt(x, y)) {
            placed += 1;
            landed = Some((x, y));
            break;
        }
    }
    assert_eq!(placed, 1);
    assert_eq!(landed, Some((8, 8)));
    assert_eq!(ship_cells(&f).len(), 7);
}

#[test]
fn random_cell_is_always_in_bounds() {
    let f = Field::new(pt(0, 0), true);
    for _ in 0..200 {
        let p = f.get_random_field_point();
        assert!(0 <= p.x && p.x < 10);
        assert!(0 <= p.y && p.y < 10);
    }
}

#[test]
fn random_open_cell_skips_misses_but_not_kills() {
    let mut f = Field::new(pt(0, 0), true);
    assert!(f.try_place(pt(5, 5)));
    assert_eq!(f.mark(pt(5, 5)), State::Killed);
    // Record a miss on every cell but the destroyed ship.
    for x in 0..10 {
        for y in 0..10 {
            if (x, y) != (5, 5) {
                f.mark(pt(x, y));
            }
        }
    }
    // The destroyed ship is still in the pool; misses are not.
    for _ in 0..50 {
        let p = f.get_random_empty_field_point();
        assert_eq!(p, pt(5, 5));
    }
}

#[test]
fn hit_test_matches_the_footprint_boundary() {
    let f = Field::new(pt(400, 100), true);
    assert!(f.is_point_in_field(pt(400, 100)));
    assert!(f.is_point_in_field(pt(899, 599)));
    assert!(!f.is_point_in_field(pt(399, 100)));
    assert!(!f.is_point_in_field(pt(900, 100)));
    assert!(!f.is_point_in_field(pt(400, 600)));
}

#[test]
fn reveal_all_shows_every_cell_and_keeps_occupancy() {
    let mut f = Field::new(pt(0, 0), true);
    f.randomize_ugly();
    let before = f.matrix.clone();
    f.reveal_all();
    for x in 0..10 {
        for y in 0..10 {
            assert_eq!(f.matrix[x][y].render_state, RenderState::Visible);
            assert_eq!(f.matrix[x][y].state, before[x][y].state);
        }
    }
}

#[test]
fn new_field_is_empty_hidden_and_scoreless() {
    let f = Field::new(pt(7, 9), true);
    assert_eq!(f.score, 0);
    assert_eq!(f.tl, pt(7, 9));
    for x in 0..10 {
        for y in 0..10 {
            assert_eq!(
                f.matrix[x][y],
                Node { state: State::Empty, render_state: RenderState::Hidden }
            );
        }
    }
    let g = Field::new(pt(0, 0), false);
    for x in 0..10 {
        for y in 0..10 {
            assert_eq!(g.matrix[x][y].render_state, RenderState::Visible);
        }
    }
}

#[test]
fn winning_takes_the_full_ship_count() {
    let mut f = Field::new(pt(0, 0), false);
    f.score = SHIP_COUNT - 1;
    assert!(!f.has_won());
    f.score = SHIP_COUNT;
    assert!(f.has_won());
}
