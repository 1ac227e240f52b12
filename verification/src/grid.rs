//! Compaction of a sparse grid of occupied tiles into a minimal set of
//! axis-aligned rectangles.
//!
//! The algorithm is a two-pass greedy merge. A row pass scans each row with
//! a one-past-the-end sentinel column and emits each maximal horizontal run
//! of occupied cells as a plate. A column pass sweeps the rows bottom to top
//! with a sentinel empty row, stacking equal plates of consecutive rows into
//! open rectangles and emitting each rectangle the first row its plate is
//! missing.
//!
//! The result is characterized exactly: a rectangle is returned if and only
//! if it is a maximal stack of identical maximal runs ([`is_canonical`]),
//! which pins the output down independently of any iteration order and gives
//! coverage, disjointness, maximality and idempotence as consequences.

use vstd::prelude::*;

verus! {

/// One occupied cell of the tile grid.
#[derive(Clone, Copy, PartialEq, Eq, PartialOrd, Ord, Structural, Debug, Hash)]
pub struct TileCoord {
    pub x: i32,
    pub y: i32,
}

/// A maximal horizontal run of occupied cells within one row.
#[derive(Clone, Copy, PartialEq, Eq, PartialOrd, Ord, Structural, Debug, Hash)]
pub struct Plate {
    pub left: i32,
    pub right: i32,
}

/// A maximal vertical stack of identical plates across consecutive rows.
#[derive(Clone, Copy, PartialEq, Eq, PartialOrd, Ord, Structural, Debug, Hash)]
pub struct Rect {
    pub left: i32,
    pub right: i32,
    pub top: i32,
    pub bottom: i32,
}

/// Whether some tile in the sequence lies at `(x, y)`.
pub open spec fn has_tile(s: Seq<TileCoord>, x: int, y: int) -> bool {
    exists|i: int| 0 <= i < s.len() && s[i].x == x && s[i].y == y
}

/// The set of occupied cells of a tile sequence.
pub open spec fn occ(s: Seq<TileCoord>) -> Set<(int, int)> {
    Set::new(|p: (int, int)| has_tile(s, p.0, p.1))
}

/// Whether every cell of `o` lies in a column of `[0, width)`.
pub open spec fn cols_bounded(o: Set<(int, int)>, width: int) -> bool {
    forall|p: (int, int)| #[trigger] o.contains(p) ==> 0 <= p.0 < width
}

/// Whether every cell of `o` lies in a row of `[0, height)`.
pub open spec fn rows_bounded(o: Set<(int, int)>, height: int) -> bool {
    forall|p: (int, int)| #[trigger] o.contains(p) ==> 0 <= p.1 < height
}

/// Whether every cell of `o` lies within the `width x height` grid.
pub open spec fn o_bounded(o: Set<(int, int)>, width: int, height: int) -> bool {
    cols_bounded(o, width) && rows_bounded(o, height)
}

/// Whether `[left, right]` is a maximal run of occupied cells in row `y`:
/// every cell of the span is occupied and both neighbours are free.
pub open spec fn is_run(o: Set<(int, int)>, left: int, right: int, y: int) -> bool {
    &&& left <= right
    &&& forall|x: int| left <= x <= right ==> o.contains((x, y))
    &&& !o.contains((left - 1, y))
    &&& !o.contains((right + 1, y))
}

/// Whether the plate is a maximal run of row `y`.
pub open spec fn plate_run(o: Set<(int, int)>, p: Plate, y: int) -> bool {
    is_run(o, p.left as int, p.right as int, y)
}

/// Whether some plate of the sequence has exactly the span `[l, r]`.
pub open spec fn has_plate(s: Seq<Plate>, l: int, r: int) -> bool {
    exists|k: int| 0 <= k < s.len() && s[k].left == l && s[k].right == r
}

/// Whether some rect of the sequence equals `rc`.
pub open spec fn has_rect(s: Seq<Rect>, rc: Rect) -> bool {
    exists|k: int| 0 <= k < s.len() && s[k] == rc
}

/// Whether the rect is a maximal downward stack of `(left, right)` runs
/// whose topmost row is exactly `top`: every row of `bottom..=top` carries
/// the run and the row below the bottom does not.
pub open spec fn open_at(o: Set<(int, int)>, r: Rect, top: int) -> bool {
    &&& r.top == top
    &&& r.bottom <= r.top
    &&& forall|yy: int| r.bottom <= yy <= top ==> is_run(o, r.left as int, r.right as int, yy)
    &&& !is_run(o, r.left as int, r.right as int, r.bottom - 1)
}

/// Whether the rect is canonical for `o`: a stack of identical maximal runs
/// over exactly the rows `bottom..=top`, extendable neither downward nor
/// upward. The compaction returns exactly the canonical rects.
pub open spec fn is_canonical(o: Set<(int, int)>, r: Rect) -> bool {
    &&& r.bottom <= r.top
    &&& forall|yy: int| r.bottom <= yy <= r.top ==> is_run(o, r.left as int, r.right as int, yy)
    &&& !is_run(o, r.left as int, r.right as int, r.bottom - 1)
    &&& !is_run(o, r.left as int, r.right as int, r.top + 1)
}

/// Whether the rect covers cell `(x, y)`.
pub open spec fn rect_covers(r: Rect, x: int, y: int) -> bool {
    r.left <= x <= r.right && r.bottom <= y <= r.top
}

/// Whether some rect of the sequence covers cell `(x, y)`.
pub open spec fn covered(rs: Seq<Rect>, x: int, y: int) -> bool {
    exists|i: int| 0 <= i < rs.len() && rect_covers(#[trigger] rs[i], x, y)
}

/// Two maximal runs of one row that share a cell are the same run.
pub proof fn lemma_run_unique(
    o: Set<(int, int)>,
    l1: int,
    r1: int,
    l2: int,
    r2: int,
    y: int,
    m: int,
)
    requires
        is_run(o, l1, r1, y),
        is_run(o, l2, r2, y),
        l1 <= m <= r1,
        l2 <= m <= r2,
    ensures
        l1 == l2,
        r1 == r2,
{
    if l1 < l2 {
        assert(o.contains((l2 - 1, y)));
    }
    if l2 < l1 {
        assert(o.contains((l1 - 1, y)));
    }
    if r1 < r2 {
        assert(o.contains((r1 + 1, y)));
    }
    if r2 < r1 {
        assert(o.contains((r2 + 1, y)));
    }
}

/// Looks a cell up in the tile list.
fn contains_tile(tiles: &Vec<TileCoord>, x: i32, y: i32) -> (r: bool)
    ensures
        r == occ(tiles@).contains((x as int, y as int)),
{
    let mut i: usize = 0;
    while i < tiles.len()
        invariant
            0 <= i <= tiles@.len(),
            forall|j: int| 0 <= j < i ==> !((#[trigger] tiles@[j]).x == x && tiles@[j].y == y),
        decreases tiles@.len() - i,
    {
        if tiles[i].x == x && tiles[i].y == y {
            proof {
                assert(tiles@[i as int].x == x as int && tiles@[i as int].y == y as int);
                assert(has_tile(tiles@, x as int, y as int));
            }
            return true;
        }
        i = i + 1;
    }
    proof {
        assert(!has_tile(tiles@, x as int, y as int));
    }
    false
}

/// The row pass for row `y`: scans the columns with a sentinel column at
/// `width` and emits every maximal run of occupied cells as a plate, left
/// to right.
fn row_plates(tiles: &Vec<TileCoord>, width: i32, y: i32) -> (plates: Vec<Plate>)
    requires
        0 <= width < i32::MAX,
        cols_bounded(occ(tiles@), width as int),
    ensures
        forall|k: int|
            0 <= k < plates@.len() ==> plate_run(occ(tiles@), #[trigger] plates@[k], y as int),
        forall|l: int, r: int| is_run(occ(tiles@), l, r, y as int) ==> has_plate(plates@, l, r),
        forall|i: int, j: int|
            0 <= i < j < plates@.len() ==> (#[trigger] plates@[i]).right < (#[trigger] plates@[j]).left,
{
    let ghost o = occ(tiles@);
    let mut plates: Vec<Plate> = Vec::new();
    let mut plate_start: Option<i32> = None;
    let mut x: i32 = 0;
    proof {
        // no run can end left of the grid: its cells would sit in negative
        // columns
        assert forall|l: int, r: int|
            is_run(o, l, r, y as int) && r < 0 implies has_plate(plates@, l, r) by {
            assert(o.contains((r, y as int)));
        }
    }
    while x <= width
        invariant
            0 <= x <= width + 1,
            width < i32::MAX,
            o == occ(tiles@),
            cols_bounded(o, width as int),
            forall|k: int| 0 <= k < plates@.len() ==> plate_run(o, #[trigger] plates@[k], y as int),
            forall|i: int, j: int|
                0 <= i < j < plates@.len() ==> (#[trigger] plates@[i]).right < (#[trigger] plates@[j]).left,
            plate_start matches Some(s) ==> {
                &&& 0 <= s < x
                &&& forall|xx: int| s <= xx < x ==> o.contains((xx, y as int))
                &&& !o.contains((s - 1, y as int))
                &&& forall|k: int| 0 <= k < plates@.len() ==> (#[trigger] plates@[k]).right < s
                &&& forall|l: int, r: int|
                    is_run(o, l, r, y as int) && r < s ==> has_plate(plates@, l, r)
            },
            plate_start is None ==> {
                &&& (x == 0 || !o.contains((x - 1, y as int)))
                &&& forall|k: int| 0 <= k < plates@.len() ==> (#[trigger] plates@[k]).right < x
                &&& forall|l: int, r: int|
                    is_run(o, l, r, y as int) && r < x ==> has_plate(plates@, l, r)
            },
        decreases width + 1 - x,
    {
        let occupied = contains_tile(tiles, x, y);
        match (plate_start, occupied) {
            (Some(s), false) => {
                let newp = Plate { left: s, right: x - 1 };
                let ghost pl0 = plates@;
                proof {
                    assert(is_run(o, s as int, x - 1, y as int));
                }
                plates.push(newp);
                plate_start = None;
                proof {
                    let pl = plates@;
                    assert(pl == pl0.push(newp));
                    assert(pl[pl.len() - 1] == newp);
                    assert forall|l: int, r: int|
                        is_run(o, l, r, y as int) && r < x + 1 implies has_plate(pl, l, r) by {
                        if r < s as int {
                            assert(has_plate(pl0, l, r));
                            let k = choose|k: int|
                                0 <= k < pl0.len() && pl0[k].left == l && pl0[k].right == r;
                            assert(pl[k] == pl0[k]);
                            assert(pl[k].left == l && pl[k].right == r);
                        } else {
                            // a run reaching column s or beyond shares a cell
                            // with the run just emitted
                            assert(!o.contains((x as int, y as int)));
                            assert(r != s - 1 && r != x) by {
                                if r == s - 1 || r == x {
                                    assert(o.contains((r, y as int)));
                                }
                            }
                            assert(s <= r < x);
                            lemma_run_unique(o, l, r, s as int, x - 1, y as int, r);
                            assert(pl[pl.len() - 1].left == l && pl[pl.len() - 1].right == r);
                        }
                    }
                }
            },
            (None, true) => {
                plate_start = Some(x);
            },
            _ => {
                proof {
                    if plate_start is None {
                        assert forall|l: int, r: int|
                            is_run(o, l, r, y as int) && r < x + 1 implies has_plate(
                            plates@,
                            l,
                            r,
                        ) by {
                            if r == x {
                                assert(o.contains((r, y as int)));
                            }
                        }
                    }
                }
            },
        }
        x = x + 1;
    }
    proof {
        // with the scan past the sentinel column, every run of the row has
        // been emitted: an open run would have to occupy the sentinel column
        if plate_start matches Some(s) {
            assert(o.contains((width as int, y as int)));
        }
        assert forall|l: int, r: int| is_run(o, l, r, y as int) implies has_plate(plates@, l, r) by {
            assert(o.contains((l, y as int)));
            assert(r < width as int) by {
                if r >= width as int {
                    assert(o.contains((r, y as int)));
                }
            }
        }
    }
    plates
}

/// Whether every cell of `o` lies in a row at or above 0.
pub open spec fn rows_nonneg(o: Set<(int, int)>) -> bool {
    forall|p: (int, int)| #[trigger] o.contains(p) ==> 0 <= p.1
}

/// The bottom row of the maximal downward stack of `(l, r)` runs whose top
/// row is `y`.
pub open spec fn stack_bottom(o: Set<(int, int)>, l: int, r: int, y: int) -> int
    decreases y,
{
    if y <= 0 || !is_run(o, l, r, y - 1) {
        y
    } else {
        stack_bottom(o, l, r, y - 1)
    }
}

/// A run at row `y` heads a downward stack: every row from the stack bottom
/// to `y` carries the run, and the row below the bottom does not.
proof fn lemma_stack_bottom(o: Set<(int, int)>, l: int, r: int, y: int)
    requires
        rows_nonneg(o),
        is_run(o, l, r, y),
    ensures
        ({
            let b = stack_bottom(o, l, r, y);
            &&& 0 <= b <= y
            &&& !is_run(o, l, r, b - 1)
            &&& forall|yy: int| b <= yy <= y ==> is_run(o, l, r, yy)
        }),
    decreases y,
{
    assert(o.contains((l, y)));
    if y > 0 && is_run(o, l, r, y - 1) {
        lemma_stack_bottom(o, l, r, y - 1);
    } else if y <= 0 {
        assert(!is_run(o, l, r, -1)) by {
            if is_run(o, l, r, -1) {
                assert(o.contains((l, -1)));
            }
        }
    }
}

/// Every maximal run of a row heads exactly one maximal downward stack, so
/// an open rect with the run's span exists at that row.
proof fn lemma_open_exists(o: Set<(int, int)>, p: Plate, y: int)
    requires
        rows_nonneg(o),
        plate_run(o, p, y),
        y < 0x8000_0000,
    ensures
        exists|rc: Rect| open_at(o, rc, y) && rc.left == p.left && rc.right == p.right,
{
    let l = p.left as int;
    let r = p.right as int;
    assert(o.contains((l, y)));
    lemma_stack_bottom(o, l, r, y);
    let b = stack_bottom(o, l, r, y);
    let rc = Rect { left: p.left, right: p.right, top: y as i32, bottom: b as i32 };
    assert(open_at(o, rc, y));
}

/// Two open rects at one row with the same span are the same rect.
proof fn lemma_open_unique(o: Set<(int, int)>, a: Rect, b: Rect, top: int)
    requires
        open_at(o, a, top),
        open_at(o, b, top),
        a.left == b.left,
        a.right == b.right,
    ensures
        a == b,
{
    if a.bottom < b.bottom {
        assert(is_run(o, a.left as int, a.right as int, b.bottom - 1));
    }
    if b.bottom < a.bottom {
        assert(is_run(o, b.left as int, b.right as int, a.bottom - 1));
    }
}

/// Looks up an open rect by its span.
fn find_open(prev: &Vec<Rect>, left: i32, right: i32) -> (r: Option<usize>)
    ensures
        r matches Some(i) ==> i < prev@.len() && prev@[i as int].left == left && prev@[i as int].right == right,
        r is None ==> forall|k: int|
            0 <= k < prev@.len() ==> !((#[trigger] prev@[k]).left == left && prev@[k].right
                == right),
{
    let mut i: usize = 0;
    while i < prev.len()
        invariant
            0 <= i <= prev@.len(),
            forall|k: int|
                0 <= k < i ==> !((#[trigger] prev@[k]).left == left && prev@[k].right == right),
        decreases prev@.len() - i,
    {
        if prev[i].left == left && prev[i].right == right {
            return Some(i);
        }
        i = i + 1;
    }
    None
}

/// Looks up a plate by its span.
fn plates_have_key(plates: &Vec<Plate>, left: i32, right: i32) -> (r: bool)
    ensures
        r == has_plate(plates@, left as int, right as int),
{
    let mut i: usize = 0;
    while i < plates.len()
        invariant
            0 <= i <= plates@.len(),
            forall|k: int|
                0 <= k < i ==> !((#[trigger] plates@[k]).left == left && plates@[k].right == right),
        decreases plates@.len() - i,
    {
        if plates[i].left == left && plates[i].right == right {
            proof {
                assert(plates@[i as int].left == left as int && plates@[i as int].right
                    == right as int);
            }
            return true;
        }
        i = i + 1;
    }
    false
}

/// The first half of a column-pass step: extends each rect open at row
/// `y - 1` whose span recurs among row `y`'s plates, and opens a new rect
/// for each plate without a predecessor. Returns the rects open at row `y`,
/// one per plate, in plate order.
fn extend_row(Ghost(o): Ghost<Set<(int, int)>>, prev: &Vec<Rect>, plates: &Vec<Plate>, y: i32) -> (
    next: Vec<Rect>)
    requires
        0 <= y,
        rows_nonneg(o),
        forall|k: int| 0 <= k < prev@.len() ==> open_at(o, #[trigger] prev@[k], y - 1),
        forall|rc: Rect| open_at(o, rc, y - 1) ==> has_rect(prev@, rc),
        forall|k: int| 0 <= k < plates@.len() ==> plate_run(o, #[trigger] plates@[k], y as int),
        forall|l: int, r: int| is_run(o, l, r, y as int) ==> has_plate(plates@, l, r),
        forall|i: int, j: int|
            0 <= i < j < plates@.len() ==> (#[trigger] plates@[i]).right < (
            #[trigger] plates@[j]).left,
    ensures
        forall|k: int| 0 <= k < next@.len() ==> open_at(o, #[trigger] next@[k], y as int),
        forall|rc: Rect| open_at(o, rc, y as int) ==> has_rect(next@, rc),
        forall|i: int, j: int|
            0 <= i < j < next@.len() ==> !((#[trigger] next@[i]).left == (
            #[trigger] next@[j]).left && next@[i].right == next@[j].right),
{
    let mut next: Vec<Rect> = Vec::new();
    let mut k: usize = 0;
    while k < plates.len()
        invariant
            0 <= y,
            rows_nonneg(o),
            forall|t: int| 0 <= t < prev@.len() ==> open_at(o, #[trigger] prev@[t], y - 1),
            forall|rc: Rect| open_at(o, rc, y - 1) ==> has_rect(prev@, rc),
            forall|t: int| 0 <= t < plates@.len() ==> plate_run(o, #[trigger] plates@[t], y as int),
            0 <= k <= plates@.len(),
            next@.len() == k as int,
            forall|t: int|
                0 <= t < k ==> open_at(o, #[trigger] next@[t], y as int) && next@[t].left
                    == plates@[t].left && next@[t].right == plates@[t].right,
            forall|rc: Rect|
                open_at(o, rc, y as int) && has_plate(
                    plates@.subrange(0, k as int),
                    rc.left as int,
                    rc.right as int,
                ) ==> has_rect(next@, rc),
        decreases plates@.len() - k,
    {
        let p = plates[k];
        proof {
            assert(plate_run(o, plates@[k as int], y as int));
        }
        let found = find_open(prev, p.left, p.right);
        let ghost next0 = next@;
        let ghost sub0 = plates@.subrange(0, k as int);
        let ghost sub1 = plates@.subrange(0, k + 1 as int);
        proof {
            assert(sub1.drop_last() =~= sub0);
            assert(sub1.last() == plates@[k as int]);
        }
        let newr: Rect;
        match found {
            Some(i) => {
                let base = prev[i];
                newr = Rect { left: base.left, right: base.right, top: y, bottom: base.bottom };
                proof {
                    assert(open_at(o, prev@[i as int], y - 1));
                    assert forall|yy: int|
                        newr.bottom <= yy <= y as int implies is_run(
                        o,
                        newr.left as int,
                        newr.right as int,
                        yy,
                    ) by {
                        if yy < y as int {
                            assert(is_run(o, base.left as int, base.right as int, yy));
                        }
                    }
                    assert(open_at(o, newr, y as int));
                }
            },
            None => {
                newr = Rect { left: p.left, right: p.right, top: y, bottom: y };
                proof {
                    assert(!is_run(o, p.left as int, p.right as int, y - 1)) by {
                        if is_run(o, p.left as int, p.right as int, y - 1) {
                            lemma_open_exists(o, p, y - 1);
                            let rc = choose|rc: Rect|
                                open_at(o, rc, y - 1) && rc.left == p.left && rc.right == p.right;
                            assert(has_rect(prev@, rc));
                            let t = choose|t: int| 0 <= t < prev@.len() && prev@[t] == rc;
                            assert(!(prev@[t].left == p.left && prev@[t].right == p.right));
                        }
                    }
                    assert(open_at(o, newr, y as int));
                }
            },
        }
        next.push(newr);
        proof {
            assert(next@ == next0.push(newr));
            assert(next@[next@.len() - 1] == newr);
            assert forall|rc: Rect|
                open_at(o, rc, y as int) && has_plate(sub1, rc.left as int, rc.right as int)
                    implies has_rect(next@, rc) by {
                let j = choose|j: int|
                    0 <= j < sub1.len() && sub1[j].left == rc.left as int && sub1[j].right
                        == rc.right as int;
                if j < k as int {
                    assert(sub0[j] == sub1[j]);
                    assert(has_plate(sub0, rc.left as int, rc.right as int));
                    assert(has_rect(next0, rc));
                    let t = choose|t: int| 0 <= t < next0.len() && next0[t] == rc;
                    assert(next@[t] == rc);
                } else {
                    // the span is this very plate's: open rects at one row
                    // with one span are unique
                    lemma_open_unique(o, rc, newr, y as int);
                    assert(next@[next@.len() - 1] == rc);
                }
            }
        }
        k = k + 1;
    }
    proof {
        assert(plates@.subrange(0, plates@.len() as int) =~= plates@);
        // every rect open at row y carries a maximal run of the row, whose
        // span is therefore among the row's plates
        assert forall|rc: Rect| open_at(o, rc, y as int) implies has_rect(next@, rc) by {
            assert(is_run(o, rc.left as int, rc.right as int, y as int));
            assert(has_plate(plates@, rc.left as int, rc.right as int));
        }
        // one rect per plate, and the plates' spans are pairwise disjoint
        assert forall|i: int, j: int| 0 <= i < j < next@.len() implies !((#[trigger] next@[i]).left
            == (#[trigger] next@[j]).left && next@[i].right == next@[j].right) by {
            assert(plates@[i].left <= plates@[i].right < plates@[j].left);
        }
    }
    next
}

/// The second half of a column-pass step: emits every rect open at row
/// `y - 1` whose span is missing from row `y`'s plates — exactly the
/// canonical rects topping out at row `y - 1`.
fn close_row(
    Ghost(o): Ghost<Set<(int, int)>>,
    prev: &Vec<Rect>,
    plates: &Vec<Plate>,
    done: &mut Vec<Rect>,
    y: i32,
)
    requires
        0 <= y,
        forall|k: int| 0 <= k < prev@.len() ==> open_at(o, #[trigger] prev@[k], y - 1),
        forall|rc: Rect| open_at(o, rc, y - 1) ==> has_rect(prev@, rc),
        forall|i: int, j: int|
            0 <= i < j < prev@.len() ==> !((#[trigger] prev@[i]).left == (
            #[trigger] prev@[j]).left && prev@[i].right == prev@[j].right),
        forall|k: int| 0 <= k < plates@.len() ==> plate_run(o, #[trigger] plates@[k], y as int),
        forall|l: int, r: int| is_run(o, l, r, y as int) ==> has_plate(plates@, l, r),
        forall|k: int|
            0 <= k < old(done)@.len() ==> is_canonical(o, #[trigger] old(done)@[k]) && old(done)@[k].top < y - 1,
        forall|rc: Rect| is_canonical(o, rc) && rc.top < y - 1 ==> has_rect(old(done)@, rc),
        forall|i: int, j: int|
            0 <= i < j < old(done)@.len() ==> (#[trigger] old(done)@[i]) != (
            #[trigger] old(done)@[j]),
    ensures
        forall|k: int|
            0 <= k < final(done)@.len() ==> is_canonical(o, #[trigger] final(done)@[k]) && final(done)@[k].top < y,
        forall|rc: Rect| is_canonical(o, rc) && rc.top < y ==> has_rect(final(done)@, rc),
        forall|i: int, j: int|
            0 <= i < j < final(done)@.len() ==> (#[trigger] final(done)@[i]) != (
            #[trigger] final(done)@[j]),
{
    let mut m: usize = 0;
    while m < prev.len()
        invariant
            0 <= y,
            forall|t: int| 0 <= t < prev@.len() ==> open_at(o, #[trigger] prev@[t], y - 1),
            forall|i: int, j: int|
                0 <= i < j < prev@.len() ==> !((#[trigger] prev@[i]).left == (
                #[trigger] prev@[j]).left && prev@[i].right == prev@[j].right),
            forall|t: int| 0 <= t < plates@.len() ==> plate_run(o, #[trigger] plates@[t], y as int),
            forall|l: int, r: int| is_run(o, l, r, y as int) ==> has_plate(plates@, l, r),
            0 <= m <= prev@.len(),
            forall|t: int|
                0 <= t < done@.len() ==> is_canonical(o, #[trigger] done@[t]) && done@[t].top < y,
            forall|rc: Rect| is_canonical(o, rc) && rc.top < y - 1 ==> has_rect(done@, rc),
            forall|j: int|
                0 <= j < m && !has_plate(
                    plates@,
                    (#[trigger] prev@[j]).left as int,
                    prev@[j].right as int,
                ) ==> has_rect(done@, prev@[j]),
            forall|t: int|
                0 <= t < done@.len() ==> (#[trigger] done@[t]).top < y - 1 || exists|j: int|
                    0 <= j < m && prev@[j] == done@[t],
            forall|i: int, j: int|
                0 <= i < j < done@.len() ==> (#[trigger] done@[i]) != (#[trigger] done@[j]),
        decreases prev@.len() - m,
    {
        let r0 = prev[m];
        let ghost done0 = done@;
        if !plates_have_key(plates, r0.left, r0.right) {
            proof {
                assert(open_at(o, prev@[m as int], y - 1));
                assert(!is_run(o, r0.left as int, r0.right as int, y as int)) by {
                    if is_run(o, r0.left as int, r0.right as int, y as int) {
                        assert(has_plate(plates@, r0.left as int, r0.right as int));
                    }
                }
                assert(is_canonical(o, prev@[m as int]));
            }
            done.push(r0);
            proof {
                assert(done@ == done0.push(r0));
                assert(done@[done@.len() - 1] == r0);
                assert forall|rc: Rect|
                    is_canonical(o, rc) && rc.top < y - 1 implies has_rect(done@, rc) by {
                    let t = choose|t: int| 0 <= t < done0.len() && done0[t] == rc;
                    assert(done@[t] == rc);
                }
                assert forall|j: int|
                    0 <= j < m + 1 && !has_plate(
                        plates@,
                        (#[trigger] prev@[j]).left as int,
                        prev@[j].right as int,
                    ) implies has_rect(done@, prev@[j]) by {
                    if j < m {
                        let t = choose|t: int| 0 <= t < done0.len() && done0[t] == prev@[j];
                        assert(done@[t] == prev@[j]);
                    } else {
                        assert(done@[done@.len() - 1] == prev@[m as int]);
                    }
                }
                assert forall|i: int, j: int| 0 <= i < j < done@.len() implies (
                #[trigger] done@[i]) != (#[trigger] done@[j]) by {
                    if j == done@.len() - 1 && done@[i] == r0 {
                        if done0[i].top < y - 1 {
                        } else {
                            let jj = choose|jj: int| 0 <= jj < m && prev@[jj] == done0[i];
                            assert(!(prev@[jj].left == prev@[m as int].left && prev@[jj].right
                                == prev@[m as int].right));
                        }
                    }
                }
                assert forall|t: int| 0 <= t < done@.len() implies (#[trigger] done@[t]).top < y - 1
                    || exists|j: int| 0 <= j < m + 1 && prev@[j] == done@[t] by {
                    if t < done0.len() {
                        if !(done0[t].top < y - 1) {
                            let jj = choose|jj: int| 0 <= jj < m && prev@[jj] == done0[t];
                            assert(0 <= jj < m + 1 && prev@[jj] == done@[t]);
                        }
                    } else {
                        assert(prev@[m as int] == done@[t]);
                    }
                }
            }
        }
        m = m + 1;
    }
    proof {
        // a canonical rect topping out at row y - 1 is open there and its
        // span is gone from row y, so the loop has emitted it
        assert forall|rc: Rect| is_canonical(o, rc) && rc.top < y implies has_rect(done@, rc) by {
            if rc.top == y - 1 {
                assert(open_at(o, rc, y - 1));
                assert(has_rect(prev@, rc));
                let j = choose|j: int| 0 <= j < prev@.len() && prev@[j] == rc;
                assert(!has_plate(plates@, rc.left as int, rc.right as int)) by {
                    if has_plate(plates@, rc.left as int, rc.right as int) {
                        let t = choose|t: int|
                            0 <= t < plates@.len() && plates@[t].left == rc.left as int && plates@[t].right == rc.right as int;
                        assert(plate_run(o, plates@[t], y as int));
                        assert(is_run(o, rc.left as int, rc.right as int, y as int));
                    }
                }
                assert(has_rect(done@, prev@[j]));
            }
        }
    }
}

/// A canonical rect of a bounded grid lies within the grid.
pub proof fn lemma_canonical_in_grid(o: Set<(int, int)>, width: int, height: int, r: Rect)
    requires
        o_bounded(o, width, height),
        is_canonical(o, r),
    ensures
        0 <= r.left <= r.right < width,
        0 <= r.bottom <= r.top < height,
{
    assert(is_run(o, r.left as int, r.right as int, r.bottom as int));
    assert(is_run(o, r.left as int, r.right as int, r.top as int));
    assert(o.contains((r.left as int, r.bottom as int)));
    assert(o.contains((r.right as int, r.bottom as int)));
    assert(o.contains((r.left as int, r.top as int)));
}

/// Compacts the occupied cells of a `width x height` grid into the set of
/// canonical rectangles: the returned rects are exactly the maximal stacks
/// of identical maximal runs ([`is_canonical`]), listed without repetition,
/// whatever order the tiles come in.
pub fn compact(tiles: &Vec<TileCoord>, width: i32, height: i32) -> (rects: Vec<Rect>)
    requires
        0 <= width < i32::MAX,
        0 <= height < i32::MAX,
        o_bounded(occ(tiles@), width as int, height as int),
    ensures
        forall|k: int| 0 <= k < rects@.len() ==> is_canonical(occ(tiles@), #[trigger] rects@[k]),
        forall|rc: Rect| is_canonical(occ(tiles@), rc) ==> has_rect(rects@, rc),
        forall|i: int, j: int|
            0 <= i < j < rects@.len() ==> (#[trigger] rects@[i]) != (#[trigger] rects@[j]),
        forall|k: int|
            0 <= k < rects@.len() ==> {
                let r = #[trigger] rects@[k];
                &&& 0 <= r.left <= r.right < width
                &&& 0 <= r.bottom <= r.top < height
            },
{
    let ghost o = occ(tiles@);
    let mut done: Vec<Rect> = Vec::new();
    let mut prev: Vec<Rect> = Vec::new();
    let mut y: i32 = 0;
    proof {
        // nothing is open below row 0 and nothing canonical tops out there
        assert forall|rc: Rect| open_at(o, rc, -1) implies has_rect(prev@, rc) by {
            assert(is_run(o, rc.left as int, rc.right as int, -1));
            assert(o.contains((rc.left as int, -1)));
        }
        assert forall|rc: Rect| is_canonical(o, rc) && rc.top < -1 implies has_rect(done@, rc) by {
            assert(is_run(o, rc.left as int, rc.right as int, rc.top as int));
            assert(o.contains((rc.left as int, rc.top as int)));
        }
    }
    while y <= height
        invariant
            0 <= y <= height + 1,
            0 <= width < i32::MAX,
            height < i32::MAX,
            o == occ(tiles@),
            o_bounded(o, width as int, height as int),
            forall|k: int| 0 <= k < prev@.len() ==> open_at(o, #[trigger] prev@[k], y - 1),
            forall|rc: Rect| open_at(o, rc, y - 1) ==> has_rect(prev@, rc),
            forall|i: int, j: int|
                0 <= i < j < prev@.len() ==> !((#[trigger] prev@[i]).left == (
                #[trigger] prev@[j]).left && prev@[i].right == prev@[j].right),
            forall|k: int|
                0 <= k < done@.len() ==> is_canonical(o, #[trigger] done@[k]) && done@[k].top < y
                    - 1,
            forall|rc: Rect| is_canonical(o, rc) && rc.top < y - 1 ==> has_rect(done@, rc),
            forall|i: int, j: int|
                0 <= i < j < done@.len() ==> (#[trigger] done@[i]) != (#[trigger] done@[j]),
        decreases height + 1 - y,
    {
        let plates = row_plates(tiles, width, y);
        let next = extend_row(Ghost(o), &prev, &plates, y);
        close_row(Ghost(o), &prev, &plates, &mut done, y);
        prev = next;
        y = y + 1;
    }
    proof {
        // every canonical rect tops out within the grid, below the sentinel
        // row the loop ended on
        assert forall|rc: Rect| is_canonical(o, rc) implies has_rect(done@, rc) by {
            assert(is_run(o, rc.left as int, rc.right as int, rc.top as int));
            assert(o.contains((rc.left as int, rc.top as int)));
        }
        assert forall|k: int| 0 <= k < done@.len() implies {
            let r = #[trigger] done@[k];
            &&& 0 <= r.left <= r.right < width as int
            &&& 0 <= r.bottom <= r.top < height as int
        } by {
            lemma_canonical_in_grid(o, width as int, height as int, done@[k]);
        }
    }
    done
}

/// The leftmost cell of the run of occupied cells containing column `x` in
/// row `y`.
pub open spec fn run_left(o: Set<(int, int)>, x: int, y: int) -> int
    decreases x,
{
    if x <= 0 || !o.contains((x - 1, y)) {
        x
    } else {
        run_left(o, x - 1, y)
    }
}

/// The rightmost cell of the run of occupied cells containing column `x` in
/// row `y`, within a grid `width` columns wide.
pub open spec fn run_right(o: Set<(int, int)>, width: int, x: int, y: int) -> int
    decreases width - x,
{
    if x >= width || !o.contains((x + 1, y)) {
        x
    } else {
        run_right(o, width, x + 1, y)
    }
}

/// The top row of the maximal upward stack of `(l, r)` runs starting at row
/// `y`, within a grid `height` rows tall.
pub open spec fn stack_top(o: Set<(int, int)>, height: int, l: int, r: int, y: int) -> int
    decreases height - y,
{
    if y >= height || !is_run(o, l, r, y + 1) {
        y
    } else {
        stack_top(o, height, l, r, y + 1)
    }
}

/// An occupied cell extends leftward to a free-bordered column.
proof fn lemma_run_left(o: Set<(int, int)>, width: int, x: int, y: int)
    requires
        cols_bounded(o, width),
        o.contains((x, y)),
    ensures
        ({
            let l = run_left(o, x, y);
            &&& 0 <= l <= x
            &&& !o.contains((l - 1, y))
            &&& forall|xx: int| l <= xx <= x ==> o.contains((xx, y))
        }),
    decreases x,
{
    if x > 0 && o.contains((x - 1, y)) {
        lemma_run_left(o, width, x - 1, y);
    }
}

/// An occupied cell extends rightward to a free-bordered column.
proof fn lemma_run_right(o: Set<(int, int)>, width: int, x: int, y: int)
    requires
        cols_bounded(o, width),
        o.contains((x, y)),
    ensures
        ({
            let r = run_right(o, width, x, y);
            &&& x <= r < width
            &&& !o.contains((r + 1, y))
            &&& forall|xx: int| x <= xx <= r ==> o.contains((xx, y))
        }),
    decreases width - x,
{
    if x < width && o.contains((x + 1, y)) {
        lemma_run_right(o, width, x + 1, y);
    }
}

/// A run extends upward to a row whose successor lacks it.
proof fn lemma_stack_top(o: Set<(int, int)>, height: int, l: int, r: int, y: int)
    requires
        rows_bounded(o, height),
        is_run(o, l, r, y),
    ensures
        ({
            let t = stack_top(o, height, l, r, y);
            &&& y <= t < height
            &&& !is_run(o, l, r, t + 1)
            &&& forall|yy: int| y <= yy <= t ==> is_run(o, l, r, yy)
        }),
    decreases height - y,
{
    assert(o.contains((l, y)));
    if y < height && is_run(o, l, r, y + 1) {
        lemma_stack_top(o, height, l, r, y + 1);
    }
}

/// Every occupied cell of a bounded grid lies in some canonical rect: the
/// maximal run through the cell, stacked maximally downward and upward.
proof fn lemma_cell_in_canonical(o: Set<(int, int)>, width: int, height: int, x: int, y: int)
    requires
        o_bounded(o, width, height),
        width <= 0x7fff_ffff,
        height <= 0x7fff_ffff,
        o.contains((x, y)),
    ensures
        exists|rc: Rect| is_canonical(o, rc) && rect_covers(rc, x, y),
{
    lemma_run_left(o, width, x, y);
    lemma_run_right(o, width, x, y);
    let l = run_left(o, x, y);
    let r = run_right(o, width, x, y);
    assert(is_run(o, l, r, y));
    assert(rows_nonneg(o));
    lemma_stack_bottom(o, l, r, y);
    lemma_stack_top(o, height, l, r, y);
    let b = stack_bottom(o, l, r, y);
    let t = stack_top(o, height, l, r, y);
    let rc = Rect { left: l as i32, right: r as i32, top: t as i32, bottom: b as i32 };
    assert(is_canonical(o, rc) && rect_covers(rc, x, y));
}

/// Two canonical rects sharing a cell are the same rect.
proof fn lemma_canonical_cover_unique(o: Set<(int, int)>, a: Rect, b: Rect, x: int, y: int)
    requires
        is_canonical(o, a),
        is_canonical(o, b),
        rect_covers(a, x, y),
        rect_covers(b, x, y),
    ensures
        a == b,
{
    assert(is_run(o, a.left as int, a.right as int, y));
    assert(is_run(o, b.left as int, b.right as int, y));
    lemma_run_unique(o, a.left as int, a.right as int, b.left as int, b.right as int, y, x);
    if a.top < b.top {
        assert(is_run(o, b.left as int, b.right as int, a.top + 1));
    }
    if b.top < a.top {
        assert(is_run(o, a.left as int, a.right as int, b.top + 1));
    }
    if a.bottom < b.bottom {
        assert(is_run(o, a.left as int, a.right as int, b.bottom - 1));
    }
    if b.bottom < a.bottom {
        assert(is_run(o, b.left as int, b.right as int, a.bottom - 1));
    }
}

/// Compaction coverage: the rects of a compaction cover exactly the
/// occupied cells — no cell is missed, none is invented — and no two
/// distinct rects of the result share a cell.
pub proof fn lemma_compaction_coverage(
    o: Set<(int, int)>,
    width: int,
    height: int,
    rs: Seq<Rect>,
)
    requires
        o_bounded(o, width, height),
        width <= 0x7fff_ffff,
        height <= 0x7fff_ffff,
        forall|k: int| 0 <= k < rs.len() ==> is_canonical(o, #[trigger] rs[k]),
        forall|rc: Rect| is_canonical(o, rc) ==> has_rect(rs, rc),
        forall|i: int, j: int| 0 <= i < j < rs.len() ==> (#[trigger] rs[i]) != (#[trigger] rs[j]),
    ensures
        forall|x: int, y: int| #[trigger] o.contains((x, y)) ==> covered(rs, x, y),
        forall|x: int, y: int| #[trigger] covered(rs, x, y) ==> o.contains((x, y)),
        forall|i: int, j: int, x: int, y: int|
            0 <= i < rs.len() && 0 <= j < rs.len() && i != j ==> !(#[trigger] rect_covers(rs[i], x, y)
                && #[trigger] rect_covers(rs[j], x, y)),
{
    assert forall|x: int, y: int| #[trigger] o.contains((x, y)) implies covered(rs, x, y) by {
        lemma_cell_in_canonical(o, width, height, x, y);
        let rc = choose|rc: Rect| is_canonical(o, rc) && rect_covers(rc, x, y);
        assert(has_rect(rs, rc));
        let k = choose|k: int| 0 <= k < rs.len() && rs[k] == rc;
        assert(rect_covers(rs[k], x, y));
    }
    assert forall|x: int, y: int| #[trigger] covered(rs, x, y) implies o.contains((x, y)) by {
        let i = choose|i: int| 0 <= i < rs.len() && rect_covers(#[trigger] rs[i], x, y);
        assert(is_run(o, rs[i].left as int, rs[i].right as int, y));
    }
    assert forall|i: int, j: int, x: int, y: int|
        0 <= i < rs.len() && 0 <= j < rs.len() && i != j implies !(#[trigger] rect_covers(rs[i], x, y)
        && #[trigger] rect_covers(rs[j], x, y)) by {
        if rect_covers(rs[i], x, y) && rect_covers(rs[j], x, y) {
            lemma_canonical_cover_unique(o, rs[i], rs[j], x, y);
        }
    }
}

/// Whether two rects share a full edge with matching span, so that their
/// union would again be a rect.
pub open spec fn share_full_edge(a: Rect, b: Rect) -> bool {
    ||| (a.left == b.left && a.right == b.right && (a.top + 1 == b.bottom || b.top + 1
        == a.bottom))
    ||| (a.bottom == b.bottom && a.top == b.top && (a.right + 1 == b.left || b.right + 1
        == a.left))
}

/// Compaction maximality: no two rects of a compaction can be merged into a
/// larger rect — none share a full edge with matching span.
pub proof fn lemma_compaction_maximality(o: Set<(int, int)>, rs: Seq<Rect>)
    requires
        forall|k: int| 0 <= k < rs.len() ==> is_canonical(o, #[trigger] rs[k]),
    ensures
        forall|i: int, j: int|
            0 <= i < rs.len() && 0 <= j < rs.len() ==> !share_full_edge(
                #[trigger] rs[i],
                #[trigger] rs[j],
            ),
{
    assert forall|i: int, j: int|
        0 <= i < rs.len() && 0 <= j < rs.len() implies !share_full_edge(
        #[trigger] rs[i],
        #[trigger] rs[j],
    ) by {
        let a = rs[i];
        let b = rs[j];
        if a.left == b.left && a.right == b.right {
            if a.top + 1 == b.bottom {
                assert(is_run(o, b.left as int, b.right as int, b.bottom as int));
            }
            if b.top + 1 == a.bottom {
                assert(is_run(o, a.left as int, a.right as int, a.bottom as int));
            }
        }
        if a.bottom == b.bottom && a.top == b.top {
            if a.right + 1 == b.left {
                assert(is_run(o, a.left as int, a.right as int, a.bottom as int));
                assert(is_run(o, b.left as int, b.right as int, b.bottom as int));
                assert(o.contains((b.left as int, b.bottom as int)));
            }
            if b.right + 1 == a.left {
                assert(is_run(o, a.left as int, a.right as int, a.bottom as int));
                assert(is_run(o, b.left as int, b.right as int, b.bottom as int));
                assert(o.contains((a.left as int, a.bottom as int)));
            }
        }
    }
}

/// Compaction determinism: two compactions of one occupied set hold exactly
/// the same rects, whatever order either one lists them in — the result is
/// a function of the occupied set alone.
pub proof fn lemma_compaction_deterministic(o: Set<(int, int)>, rs1: Seq<Rect>, rs2: Seq<Rect>)
    requires
        forall|k: int| 0 <= k < rs1.len() ==> is_canonical(o, #[trigger] rs1[k]),
        forall|rc: Rect| is_canonical(o, rc) ==> has_rect(rs1, rc),
        forall|k: int| 0 <= k < rs2.len() ==> is_canonical(o, #[trigger] rs2[k]),
        forall|rc: Rect| is_canonical(o, rc) ==> has_rect(rs2, rc),
    ensures
        forall|rc: Rect| #[trigger] has_rect(rs1, rc) <==> has_rect(rs2, rc),
{
    assert forall|rc: Rect| #[trigger] has_rect(rs1, rc) implies has_rect(rs2, rc) by {
        let k = choose|k: int| 0 <= k < rs1.len() && rs1[k] == rc;
        assert(is_canonical(o, rs1[k]));
    }
    assert forall|rc: Rect| has_rect(rs2, rc) implies #[trigger] has_rect(rs1, rc) by {
        let k = choose|k: int| 0 <= k < rs2.len() && rs2[k] == rc;
        assert(is_canonical(o, rs2[k]));
    }
}

/// Compaction idempotence: compacting the cells covered by a compaction
/// gives back the same rect set — whatever order either result lists it in.
pub proof fn lemma_compaction_idempotent(
    o: Set<(int, int)>,
    cov: Set<(int, int)>,
    width: int,
    height: int,
    rs1: Seq<Rect>,
    rs2: Seq<Rect>,
)
    requires
        o_bounded(o, width, height),
        width <= 0x7fff_ffff,
        height <= 0x7fff_ffff,
        forall|k: int| 0 <= k < rs1.len() ==> is_canonical(o, #[trigger] rs1[k]),
        forall|rc: Rect| is_canonical(o, rc) ==> has_rect(rs1, rc),
        forall|i: int, j: int|
            0 <= i < j < rs1.len() ==> (#[trigger] rs1[i]) != (#[trigger] rs1[j]),
        forall|x: int, y: int| #[trigger] cov.contains((x, y)) <==> covered(rs1, x, y),
        forall|k: int| 0 <= k < rs2.len() ==> is_canonical(cov, #[trigger] rs2[k]),
        forall|rc: Rect| is_canonical(cov, rc) ==> has_rect(rs2, rc),
    ensures
        forall|rc: Rect| #[trigger] has_rect(rs1, rc) <==> has_rect(rs2, rc),
{
    lemma_compaction_coverage(o, width, height, rs1);
    assert(cov =~= o) by {
        assert forall|p: (int, int)| cov.contains(p) == o.contains(p) by {
            assert(p == (p.0, p.1));
            if o.contains((p.0, p.1)) {
                assert(covered(rs1, p.0, p.1));
            }
            if cov.contains((p.0, p.1)) {
                assert(covered(rs1, p.0, p.1));
                assert(o.contains((p.0, p.1)));
            }
        }
    }
    assert forall|rc: Rect| #[trigger] has_rect(rs1, rc) implies has_rect(rs2, rc) by {
        let k = choose|k: int| 0 <= k < rs1.len() && rs1[k] == rc;
        assert(is_canonical(o, rs1[k]));
        assert(is_canonical(cov, rc));
    }
    assert forall|rc: Rect| has_rect(rs2, rc) implies #[trigger] has_rect(rs1, rc) by {
        let k = choose|k: int| 0 <= k < rs2.len() && rs2[k] == rc;
        assert(is_canonical(cov, rs2[k]));
        assert(is_canonical(o, rc));
    }
}

/// Enumerates every cell covered by the given rects, row by row within each
/// rect: the re-derived occupied set of a compaction.
pub fn covered_cells(rects: &Vec<Rect>) -> (tiles: Vec<TileCoord>)
    requires
        forall|k: int|
            0 <= k < rects@.len() ==> {
                let r = #[trigger] rects@[k];
                &&& 0 <= r.left <= r.right < 0x7fff_ffff
                &&& 0 <= r.bottom <= r.top < 0x7fff_ffff
            },
    ensures
        forall|x: int, y: int| #[trigger] has_tile(tiles@, x, y) <==> covered(rects@, x, y),
{
    let mut tiles: Vec<TileCoord> = Vec::new();
    let mut k: usize = 0;
    while k < rects.len()
        invariant
            forall|t: int|
                0 <= t < rects@.len() ==> {
                    let r = #[trigger] rects@[t];
                    &&& 0 <= r.left <= r.right < 0x7fff_ffff
                    &&& 0 <= r.bottom <= r.top < 0x7fff_ffff
                },
            0 <= k <= rects@.len(),
            forall|x: int, y: int|
                #[trigger] has_tile(tiles@, x, y) <==> covered(
                    rects@.subrange(0, k as int),
                    x,
                    y,
                ),
        decreases rects@.len() - k,
    {
        let r = rects[k];
        let ghost sub0 = rects@.subrange(0, k as int);
        let ghost sub1 = rects@.subrange(0, k + 1 as int);
        proof {
            assert(sub1.drop_last() =~= sub0);
            assert(sub1.last() == rects@[k as int]);
        }
        let mut yy: i32 = r.bottom;
        while yy <= r.top
            invariant
                r == rects@[k as int],
                0 <= k < rects@.len(),
                0 <= r.left <= r.right < 0x7fff_ffff,
                0 <= r.bottom <= yy,
                yy <= r.top + 1 < 0x8000_0000,
                sub0 == rects@.subrange(0, k as int),
                forall|x: int, y: int|
                    #[trigger] has_tile(tiles@, x, y) <==> (covered(sub0, x, y) || (
                    r.left <= x <= r.right && r.bottom <= y < yy)),
            decreases r.top + 1 - yy,
        {
            let mut xx: i32 = r.left;
            while xx <= r.right
                invariant
                    r == rects@[k as int],
                    0 <= k < rects@.len(),
                    0 <= r.left <= xx,
                    xx <= r.right + 1 < 0x8000_0000,
                    0 <= r.bottom <= yy <= r.top,
                    sub0 == rects@.subrange(0, k as int),
                    forall|x: int, y: int|
                        #[trigger] has_tile(tiles@, x, y) <==> (covered(sub0, x, y) || (
                        r.left <= x <= r.right && r.bottom <= y < yy) || (y == yy && r.left <= x
                            < xx)),
                decreases r.right + 1 - xx,
            {
                let ghost tiles0 = tiles@;
                tiles.push(TileCoord { x: xx, y: yy });
                proof {
                    assert(tiles@ == tiles0.push(TileCoord { x: xx, y: yy }));
                    assert(tiles@[tiles@.len() - 1] == TileCoord { x: xx, y: yy });
                    assert forall|x: int, y: int| #[trigger] has_tile(tiles@, x, y) implies (
                    covered(sub0, x, y) || (r.left <= x <= r.right && r.bottom <= y < yy) || (y
                        == yy && r.left <= x < xx + 1)) by {
                        let t = choose|t: int|
                            0 <= t < tiles@.len() && tiles@[t].x == x && tiles@[t].y == y;
                        if t < tiles0.len() {
                            assert(tiles0[t] == tiles@[t]);
                            assert(has_tile(tiles0, x, y));
                        }
                    }
                    assert forall|x: int, y: int|
                        (covered(sub0, x, y) || (r.left <= x <= r.right && r.bottom <= y < yy) || (
                        y == yy && r.left <= x < xx + 1)) implies #[trigger] has_tile(
                        tiles@,
                        x,
                        y,
                    ) by {
                        if x == xx as int && y == yy as int {
                            assert(tiles@[tiles@.len() - 1].x == x && tiles@[tiles@.len()
                                - 1].y == y);
                        } else {
                            assert(has_tile(tiles0, x, y));
                            let t = choose|t: int|
                                0 <= t < tiles0.len() && tiles0[t].x == x && tiles0[t].y == y;
                            assert(tiles@[t].x == x && tiles@[t].y == y);
                        }
                    }
                }
                xx = xx + 1;
            }
        yy = yy + 1;
        }
        proof {
            assert forall|x: int, y: int| #[trigger] has_tile(tiles@, x, y) implies covered(
                sub1,
                x,
                y,
            ) by {
                if covered(sub0, x, y) {
                    let i = choose|i: int| 0 <= i < sub0.len() && rect_covers(#[trigger] sub0[i], x, y);
                    assert(sub1[i] == sub0[i]);
                    assert(rect_covers(sub1[i], x, y));
                } else {
                    assert(rect_covers(sub1[sub1.len() - 1], x, y));
                }
            }
            assert forall|x: int, y: int| covered(sub1, x, y) implies #[trigger] has_tile(
                tiles@,
                x,
                y,
            ) by {
                let i = choose|i: int| 0 <= i < sub1.len() && rect_covers(#[trigger] sub1[i], x, y);
                if i < sub0.len() {
                    assert(sub0[i] == sub1[i]);
                    assert(covered(sub0, x, y));
                }
            }
        }
        k = k + 1;
    }
    proof {
        assert(rects@.subrange(0, rects@.len() as int) =~= rects@);
    }
    tiles
}

} // verus!
