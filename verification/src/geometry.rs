use vstd::prelude::*;

use crate::errors::ProdError;

verus! {

/// A grid cell of a coworking space, or a displacement between cells.
#[derive(Clone, Copy, PartialEq, Eq, Structural, Hash, Debug)]
pub struct Point {
    pub x: i64,
    pub y: i64,
}

/// The absolute cell that offset `off` lands on when the item's base point
/// is `base`, as a pair of unbounded integers.
pub open spec fn cell_of(base: Point, off: Point) -> (int, int) {
    (base.x + off.x, base.y + off.y)
}

/// Whether the absolute cell for `off` at `base` fits in machine integers.
pub open spec fn cell_fits(base: Point, off: Point) -> bool {
    i64::MIN <= base.x + off.x <= i64::MAX && i64::MIN <= base.y + off.y <= i64::MAX
}

/// The cells occupied by an item whose type has footprint `offsets` and
/// whose instance sits at `base`: each offset translated by the base point.
pub open spec fn abs_cells(base: Point, offsets: Seq<Point>) -> Seq<(int, int)> {
    Seq::new(offsets.len(), |i: int| cell_of(base, offsets[i]))
}

/// The cells named by a sequence of concrete points.
pub open spec fn cells_of(points: Seq<Point>) -> Seq<(int, int)> {
    Seq::new(points.len(), |i: int| (points[i].x as int, points[i].y as int))
}

/// A cell lies on the `width` x `height` grid (0-indexed; negative
/// coordinates are out of bounds like too-large ones).
pub open spec fn cell_in_bounds(c: (int, int), width: int, height: int) -> bool {
    0 <= c.0 < width && 0 <= c.1 < height
}

/// Every cell lies on the grid.
pub open spec fn all_in_bounds(cells: Seq<(int, int)>, width: int, height: int) -> bool {
    forall|i: int| 0 <= i < cells.len() ==> cell_in_bounds(#[trigger] cells[i], width, height)
}

/// No cell occurs in both sequences.
pub open spec fn cells_disjoint(a: Seq<(int, int)>, b: Seq<(int, int)>) -> bool {
    forall|i: int, j: int|
        #![trigger a[i], b[j]]
        0 <= i < a.len() && 0 <= j < b.len() ==> a[i] != b[j]
}

/// No cell occurs twice.
pub open spec fn no_duplicate_cells(cells: Seq<(int, int)>) -> bool {
    forall|i: int, j: int|
        #![trigger cells[i], cells[j]]
        0 <= i < j < cells.len() ==> cells[i] != cells[j]
}

/// Translates each offset of an item type's footprint by the base point.
/// Returns `None` exactly when some translated coordinate overflows `i64`;
/// such a cell is out of bounds for every representable grid.
pub fn absolute_cells(base: Point, offsets: &Vec<Point>) -> (r: Option<Vec<Point>>)
    ensures
        r matches Some(v) ==> cells_of(v@) == abs_cells(base, offsets@),
        r is Some <==> forall|i: int| 0 <= i < offsets@.len() ==> cell_fits(base, #[trigger] offsets@[i]),
{
    let mut out: Vec<Point> = Vec::new();
    let mut k: usize = 0;
    while k < offsets.len()
        invariant
            0 <= k <= offsets@.len(),
            out@.len() == k,
            forall|i: int| 0 <= i < k ==> cell_fits(base, #[trigger] offsets@[i]),
            forall|i: int|
                #![trigger out@[i]]
                0 <= i < k ==> out@[i].x == base.x + offsets@[i].x && out@[i].y == base.y
                    + offsets@[i].y,
        decreases offsets@.len() - k,
    {
        let off = offsets[k];
        let x = match base.x.checked_add(off.x) {
            Some(x) => x,
            None => {
                return None;
            },
        };
        let y = match base.y.checked_add(off.y) {
            Some(y) => y,
            None => {
                return None;
            },
        };
        out.push(Point { x, y });
        k = k + 1;
    }
    proof {
        assert(cells_of(out@) =~= abs_cells(base, offsets@));
    }
    Some(out)
}

/// Whether every cell lies on the `width` x `height` grid.
pub fn check_bounds(cells: &Vec<Point>, width: i64, height: i64) -> (ok: bool)
    ensures
        ok == all_in_bounds(cells_of(cells@), width as int, height as int),
{
    let mut k: usize = 0;
    while k < cells.len()
        invariant
            0 <= k <= cells@.len(),
            forall|i: int|
                0 <= i < k ==> cell_in_bounds(#[trigger] cells_of(cells@)[i], width as int, height as int),
        decreases cells@.len() - k,
    {
        let c = cells[k];
        if !(0 <= c.x && c.x < width && 0 <= c.y && c.y < height) {
            assert(!cell_in_bounds(cells_of(cells@)[k as int], width as int, height as int));
            return false;
        }
        k = k + 1;
    }
    true
}

/// Whether some cell occurs in both sequences.
pub fn check_overlap(a: &Vec<Point>, b: &Vec<Point>) -> (hit: bool)
    ensures
        hit == !cells_disjoint(cells_of(a@), cells_of(b@)),
{
    let mut i: usize = 0;
    while i < a.len()
        invariant
            0 <= i <= a@.len(),
            forall|p: int, q: int|
                #![trigger cells_of(a@)[p], cells_of(b@)[q]]
                0 <= p < i && 0 <= q < b@.len() ==> cells_of(a@)[p] != cells_of(b@)[q],
        decreases a@.len() - i,
    {
        let mut j: usize = 0;
        while j < b.len()
            invariant
                0 <= i < a@.len(),
                0 <= j <= b@.len(),
                forall|q: int|
                    #![trigger cells_of(b@)[q]]
                    0 <= q < j ==> cells_of(a@)[i as int] != cells_of(b@)[q],
            decreases b@.len() - j,
        {
            if a[i].x == b[j].x && a[i].y == b[j].y {
                assert(cells_of(a@)[i as int] == cells_of(b@)[j as int]);
                return true;
            }
            j = j + 1;
        }
        i = i + 1;
    }
    false
}

/// Whether some cell occurs twice in the sequence.
pub fn check_duplicates(cells: &Vec<Point>) -> (dup: bool)
    ensures
        dup == !no_duplicate_cells(cells_of(cells@)),
{
    let mut i: usize = 0;
    while i < cells.len()
        invariant
            0 <= i <= cells@.len(),
            forall|p: int, q: int|
                #![trigger cells_of(cells@)[p], cells_of(cells@)[q]]
                0 <= p < q < cells@.len() && p < i ==> cells_of(cells@)[p] != cells_of(cells@)[q],
        decreases cells@.len() - i,
    {
        let mut j: usize = i + 1;
        while j < cells.len()
            invariant
                0 <= i < j <= cells@.len(),
                forall|q: int|
                    #![trigger cells_of(cells@)[q]]
                    i < q < j ==> cells_of(cells@)[i as int] != cells_of(cells@)[q],
            decreases cells@.len() - j,
        {
            if cells[i].x == cells[j].x && cells[i].y == cells[j].y {
                assert(cells_of(cells@)[i as int] == cells_of(cells@)[j as int]);
                return true;
            }
            j = j + 1;
        }
        i = i + 1;
    }
    false
}

/// Fails with a bounds `Conflict` exactly when some cell lies outside the
/// `width` x `height` grid.
pub fn validate_bounds(cells: &Vec<Point>, width: i64, height: i64) -> (r: Result<(), ProdError>)
    ensures
        r is Ok <==> all_in_bounds(cells_of(cells@), width as int, height as int),
        r matches Err(e) ==> e matches ProdError::Conflict(m) && m@ == "Item overlaps with borders"@,
{
    if check_bounds(cells, width, height) {
        Ok(())
    } else {
        Err(ProdError::Conflict("Item overlaps with borders".to_owned()))
    }
}

/// Fails with an overlap `Conflict` exactly when some cell is claimed twice
/// in the accumulated cell collection (order of insertion is irrelevant).
pub fn validate_no_overlap(all_cells: &Vec<Point>) -> (r: Result<(), ProdError>)
    ensures
        r is Ok <==> no_duplicate_cells(cells_of(all_cells@)),
        r matches Err(e) ==> e matches ProdError::Conflict(m) && m@ == "Item overlaps with other item"@,
{
    if check_duplicates(all_cells) {
        Err(ProdError::Conflict("Item overlaps with other item".to_owned()))
    } else {
        Ok(())
    }
}

/// Disjointness of cell sequences does not depend on the order of the
/// two sequences.
pub proof fn lemma_cells_disjoint_symm(a: Seq<(int, int)>, b: Seq<(int, int)>)
    ensures
        cells_disjoint(a, b) == cells_disjoint(b, a),
{
    if cells_disjoint(a, b) {
        assert forall|i: int, j: int|
            #![trigger b[i], a[j]]
            0 <= i < b.len() && 0 <= j < a.len() implies b[i] != a[j] by {
            assert(a[j] != b[i]);
        }
    }
    if cells_disjoint(b, a) {
        assert forall|i: int, j: int|
            #![trigger a[i], b[j]]
            0 <= i < a.len() && 0 <= j < b.len() implies a[i] != b[j] by {
            assert(b[j] != a[i]);
        }
    }
}

/// Each cell of `cells` translated by `(dx, dy)`.
pub open spec fn translate_cells(cells: Seq<(int, int)>, dx: int, dy: int) -> Seq<(int, int)> {
    Seq::new(cells.len(), |i: int| (cells[i].0 + dx, cells[i].1 + dy))
}

/// Placement is deterministic and translation-consistent: the cells of a
/// footprint placed at `b2` are the cells of the same footprint placed at
/// `b1`, each translated by the displacement from `b1` to `b2`.
pub proof fn lemma_abs_cells_translation(b1: Point, b2: Point, offsets: Seq<Point>)
    ensures
        abs_cells(b2, offsets) == translate_cells(abs_cells(b1, offsets), b2.x - b1.x, b2.y - b1.y),
{
    assert(abs_cells(b2, offsets) =~= translate_cells(
        abs_cells(b1, offsets),
        b2.x - b1.x,
        b2.y - b1.y,
    ));
}

} // verus!
