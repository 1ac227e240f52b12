use concord::grid::Rect;
use concord::grid::TileCoord;
use concord::grid::compact;
use concord::grid::covered_cells;

fn tiles_of(cells: &[(i32, i32)]) -> Vec<TileCoord> {
    let mut v = Vec::new();
    for &(x, y) in cells {
        v.push(TileCoord { x, y });
    }
    v
}

fn sorted_rects(mut rects: Vec<Rect>) -> Vec<Rect> {
    rects.sort();
    rects
}

fn sorted_tiles(mut tiles: Vec<TileCoord>) -> Vec<TileCoord> {
    tiles.sort();
    tiles
}

#[test]
fn full_two_by_two_is_one_rect() {
    let tiles = tiles_of(&[(0, 0), (1, 0), (0, 1), (1, 1)]);
    let rects = compact(&tiles, 2, 2);
    assert_eq!(rects, vec![Rect { left: 0, right: 1, top: 1, bottom: 0 }]);
}

#[test]
fn gap_splits_into_unit_rects() {
    let tiles = tiles_of(&[(0, 0), (2, 0)]);
    let rects = sorted_rects(compact(&tiles, 3, 1));
    assert_eq!(
        rects,
        vec![
            Rect { left: 0, right: 0, top: 0, bottom: 0 },
            Rect { left: 2, right: 2, top: 0, bottom: 0 },
        ]
    );
}

#[test]
fn empty_grid_gives_no_rects() {
    let tiles = tiles_of(&[]);
    let rects = compact(&tiles, 8, 8);
    assert!(rects.is_empty());
}

#[test]
fn single_tile_gives_unit_rect() {
    let tiles = tiles_of(&[(5, 7)]);
    let rects = compact(&tiles, 10, 10);
    assert_eq!(rects, vec![Rect { left: 5, right: 5, top: 7, bottom: 7 }]);
}

#[test]
fn full_column_stacks_into_one_rect() {
    let tiles = tiles_of(&[(0, 0), (0, 1), (0, 2)]);
    let rects = compact(&tiles, 1, 3);
    assert_eq!(rects, vec![Rect { left: 0, right: 0, top: 2, bottom: 0 }]);
}

#[test]
fn l_shape_splits_on_column_mismatch() {
    let tiles = tiles_of(&[(0, 0), (1, 0), (0, 1)]);
    let rects = sorted_rects(compact(&tiles, 2, 2));
    assert_eq!(
        rects,
        vec![
            Rect { left: 0, right: 0, top: 1, bottom: 1 },
            Rect { left: 0, right: 1, top: 0, bottom: 0 },
        ]
    );
}

#[test]
fn tile_order_does_not_change_result() {
    let a = tiles_of(&[(0, 0), (1, 0), (0, 1), (1, 1), (3, 1)]);
    let b = tiles_of(&[(3, 1), (1, 1), (0, 0), (0, 1), (1, 0)]);
    let ra = sorted_rects(compact(&a, 4, 2));
    let rb = sorted_rects(compact(&b, 4, 2));
    assert_eq!(ra, rb);
}

#[test]
fn coverage_reproduces_occupied_cells() {
    let tiles = tiles_of(&[(0, 0), (1, 0), (0, 1), (4, 3), (4, 4), (5, 3), (5, 4), (2, 0)]);
    let rects = compact(&tiles, 6, 5);
    let back = sorted_tiles(covered_cells(&rects));
    assert_eq!(back, sorted_tiles(tiles));
}

#[test]
fn recompaction_is_idempotent() {
    let tiles = tiles_of(&[(0, 0), (1, 0), (0, 1), (1, 1), (3, 0), (3, 1), (3, 2), (5, 5)]);
    let first = compact(&tiles, 8, 8);
    let rederived = covered_cells(&first);
    let second = compact(&rederived, 8, 8);
    assert_eq!(sorted_rects(first), sorted_rects(second));
}

#[test]
fn no_two_rects_share_a_full_matching_edge() {
    let tiles = tiles_of(&[
        (0, 0),
        (1, 0),
        (2, 0),
        (0, 1),
        (1, 1),
        (0, 2),
        (4, 0),
        (4, 1),
        (5, 0),
        (5, 1),
    ]);
    let rects = compact(&tiles, 6, 3);
    for a in &rects {
        for b in &rects {
            if a != b {
                let vertical = a.left == b.left && a.right == b.right && (a.top + 1 == b.bottom
                    || b.top + 1 == a.bottom);
                let horizontal = a.bottom == b.bottom && a.top == b.top && (a.right + 1 == b.left
                    || b.right + 1 == a.left);
                assert!(!vertical && !horizontal);
            }
        }
    }
}

#[test]
fn rects_do_not_overlap() {
    let tiles = tiles_of(&[(0, 0), (1, 0), (2, 0), (1, 1), (1, 2), (2, 2), (2, 1)]);
    let rects = compact(&tiles, 3, 3);
    for x in 0..3i32 {
        for y in 0..3i32 {
            let covering = rects
                .iter()
                .filter(|r| r.left <= x && x <= r.right && r.bottom <= y && y <= r.top)
                .count();
            let occupied = tiles.iter().any(|t| t.x == x && t.y == y);
            assert_eq!(covering, if occupied { 1 } else { 0 });
        }
    }
}
