//! The frontier: the cells from which the walk may still be resumed.

use vstd::prelude::*;
use rand::rngs::StdRng;
use crate::geometry::Point;
use crate::random::draw_below;

verus! {

/// The cells of row `row` that are not on the boundary of a map `width`
/// columns wide, from left to right.
pub open spec fn interior_row(row: usize, width: usize) -> Seq<Point> {
    Seq::new((width - 2) as nat, |j: int| Point { x: row, y: (j + 1) as usize })
}

/// The cells of rows 1 to `rows` that are not in the first or last column of
/// a map `width` columns wide, row after row.
pub open spec fn interior_rows(rows: usize, width: usize) -> Seq<Point>
    decreases rows,
{
    if rows == 0 {
        Seq::empty()
    } else {
        interior_rows((rows - 1) as usize, width) + interior_row(rows, width)
    }
}

/// The cells that are not on the boundary of a map of `height` rows and
/// `width` columns, row after row and from left to right in each row.
pub open spec fn interior_cells(height: usize, width: usize) -> Seq<Point> {
    if height < 3 || width < 3 {
        Seq::empty()
    } else {
        interior_rows((height - 2) as usize, width)
    }
}

/// `p` is not on the boundary of a map of `height` rows and `width` columns.
pub open spec fn is_interior(p: Point, height: int, width: int) -> bool {
    1 <= p.x <= height - 2 && 1 <= p.y <= width - 2
}

/// The sequence `s` without the cell `p`: the last cell of `s` takes the
/// place of `p`, and the sequence is one shorter. A sequence that does not
/// hold `p` is left as it is.
pub open spec fn without(s: Seq<Point>, p: Point) -> Seq<Point> {
    if s.contains(p) {
        s.update(s.index_of(p), s.last()).drop_last()
    } else {
        s
    }
}

/// Where the cells of [`interior_rows`] lie, and how many they are.
pub proof fn lemma_interior_rows(rows: usize, width: usize)
    requires
        width >= 3,
    ensures
        interior_rows(rows, width).len() == rows * (width - 2),
        forall|k: int|
            0 <= k < interior_rows(rows, width).len() ==> {
                let p = #[trigger] interior_rows(rows, width)[k];
                1 <= p.x <= rows && 1 <= p.y <= width - 2
            },
    decreases rows,
{
    if rows > 0 {
        let before = interior_rows((rows - 1) as usize, width);
        lemma_interior_rows((rows - 1) as usize, width);
        assert(rows * (width - 2) == (rows - 1) * (width - 2) + (width - 2)) by (nonlinear_arith);
        assert forall|k: int| 0 <= k < interior_rows(rows, width).len() implies {
            let p = #[trigger] interior_rows(rows, width)[k];
            1 <= p.x <= rows && 1 <= p.y <= width - 2
        } by {
            if k < before.len() {
                assert(interior_rows(rows, width)[k] == before[k]);
            } else {
                assert(interior_rows(rows, width)[k] == interior_row(rows, width)[k - before.len()]);
            }
        }
    }
}

/// The interior cells of the first rows are each listed once.
proof fn lemma_interior_rows_exact(rows: usize, width: usize)
    requires
        width >= 3,
    ensures
        interior_rows(rows, width).no_duplicates(),
        forall|p: Point|
            1 <= p.x <= rows && 1 <= p.y <= width - 2 ==> #[trigger] interior_rows(
                rows,
                width,
            ).contains(p),
    decreases rows,
{
    if rows > 0 {
        let all = interior_rows(rows, width);
        let before = interior_rows((rows - 1) as usize, width);
        let row = interior_row(rows, width);
        lemma_interior_rows_exact((rows - 1) as usize, width);
        lemma_interior_rows((rows - 1) as usize, width);
        assert forall|a: int, b: int| 0 <= a < all.len() && 0 <= b < all.len() && a != b implies all[a]
            != all[b] by {
            if a < before.len() {
                assert(all[a] == before[a]);
            } else {
                assert(all[a] == row[a - before.len()]);
            }
            if b < before.len() {
                assert(all[b] == before[b]);
            } else {
                assert(all[b] == row[b - before.len()]);
            }
        }
        assert forall|p: Point| 1 <= p.x <= rows && 1 <= p.y <= width - 2 implies #[trigger] all.contains(
            p,
        ) by {
            if p.x == rows {
                assert(row[p.y - 1] == p);
                assert(all[before.len() + p.y - 1] == p);
            } else {
                assert(before.contains(p));
                let k = before.index_of(p);
                assert(all[k] == p);
            }
        }
    }
}

/// The interior cells of a map: how many they are, that each is listed
/// once, and that the list holds exactly the cells off the boundary.
pub proof fn lemma_interior_cells(height: usize, width: usize)
    requires
        height >= 3,
        width >= 3,
    ensures
        interior_cells(height, width).len() == (height - 2) * (width - 2),
        interior_cells(height, width).no_duplicates(),
        forall|p: Point| #[trigger]
            interior_cells(height, width).contains(p) <==> is_interior(p, height as int, width as int),
{
    let rows = (height - 2) as usize;
    lemma_interior_rows(rows, width);
    lemma_interior_rows_exact(rows, width);
}

/// What is left of a sequence without duplicates once a cell is taken out.
pub proof fn lemma_without(s: Seq<Point>, p: Point)
    requires
        s.no_duplicates(),
    ensures
        without(s, p).no_duplicates(),
        without(s, p).len() == s.len() - (if s.contains(p) { 1int } else { 0 }),
        forall|c: Point| #[trigger] without(s, p).contains(c) <==> s.contains(c) && c != p,
{
    if s.contains(p) {
        let at = s.index_of(p);
        let rest = without(s, p);
        assert forall|c: Point| #[trigger] rest.contains(c) <==> s.contains(c) && c != p by {
            if rest.contains(c) {
                let k = rest.index_of(c);
                if k == at {
                    assert(c == s[s.len() - 1]);
                } else {
                    assert(c == s[k]);
                }
            }
            if s.contains(c) && c != p {
                let k = s.index_of(c);
                if k == s.len() - 1 {
                    assert(rest[at] == c);
                } else {
                    assert(rest[k] == c);
                }
            }
        }
    }
}

/// The cells that are still candidates for resuming the walk, in a fixed
/// order, with a table that tells where each cell stands in that order.
#[derive(Debug, Clone)]
pub struct Frontier {
    height: usize,
    width: usize,
    cells: Vec<Point>,
    slots: Vec<Vec<Option<usize>>>,
}

impl View for Frontier {
    type V = Seq<Point>;

    closed spec fn view(&self) -> Seq<Point> {
        self.cells@
    }
}

impl Frontier {
    /// The number of rows of the map that the frontier was made for.
    pub closed spec fn height(&self) -> int {
        self.height as int
    }

    /// The number of columns of the map that the frontier was made for.
    pub closed spec fn width(&self) -> int {
        self.width as int
    }

    /// What the table holds for the cell `p`.
    closed spec fn slot(&self, p: Point) -> Option<usize> {
        self.slots@[p.x as int]@[p.y as int]
    }

    /// The table has a row for each row of the map and a slot for each of its
    /// cells; the slot of the k-th cell of the frontier holds k, and the slot
    /// of a cell that is not in the frontier is empty.
    pub closed spec fn indexed(&self) -> bool {
        &&& self.slots@.len() == self.height
        &&& forall|i: int|
            0 <= i < self.slots@.len() ==> (#[trigger] self.slots@[i])@.len() == self.width
        &&& forall|k: int|
            0 <= k < self.cells@.len() ==> is_interior(
                #[trigger] self.cells@[k],
                self.height(),
                self.width(),
            ) && self.slot(self.cells@[k]) == Some(k as usize) && k <= usize::MAX
        &&& forall|i: int, j: int|
            0 <= i < self.height() && 0 <= j < self.width() ==> match #[trigger] self.slots@[i]@[j] {
                Some(k) => k < self.cells@.len() && self.cells@[k as int] == (Point {
                    x: i as usize,
                    y: j as usize,
                }),
                None => true,
            }
    }

    /// The frontier holds no cell twice, none of its cells is on the boundary,
    /// and its table is in order.
    pub open spec fn wf(&self) -> bool {
        &&& self.indexed()
        &&& self@.no_duplicates()
        &&& forall|k: int|
            0 <= k < self@.len() ==> is_interior(#[trigger] self@[k], self.height(), self.width())
    }

    proof fn lemma_indexed_wf(&self)
        requires
            self.indexed(),
        ensures
            self.wf(),
    {
        assert forall|a: int, b: int|
            0 <= a < self@.len() && 0 <= b < self@.len() && a != b implies self@[a] != self@[b] by {
            let p = self.cells@[a];
            let q = self.cells@[b];
            assert(self.slot(p) == Some(a as usize));
            assert(self.slot(q) == Some(b as usize));
        }
    }

    /// Puts the cell `p`, which is not in the frontier yet, at its end.
    fn append(&mut self, p: Point)
        requires
            old(self).indexed(),
            is_interior(p, old(self).height(), old(self).width()),
            !old(self)@.contains(p),
        ensures
            final(self).indexed(),
            final(self)@ == old(self)@.push(p),
            final(self).height() == old(self).height(),
            final(self).width() == old(self).width(),
    {
        let k = self.cells.len();
        assert(self.slots@[p.x as int]@.len() == self.width);
        assert(self.slot(p) is None) by {
            if let Some(at) = self.slot(p) {
                assert(self.cells@[at as int] == p);
            }
        }
        self.slots[p.x][p.y] = Some(k);
        self.cells.push(p);
        proof {
            assert forall|i: int| 0 <= i < self.cells@.len() implies is_interior(
                #[trigger] self.cells@[i],
                self.height(),
                self.width(),
            ) && self.slot(self.cells@[i]) == Some(i as usize) && i <= usize::MAX by {
                if i < k {
                    let c = old(self).cells@[i];
                    assert(old(self).slot(c) == Some(i as usize));
                    assert(c != p);
                }
            }
            assert forall|i: int, j: int|
                0 <= i < self.height() && 0 <= j < self.width() implies match #[trigger] self.slots@[i]@[j] {
                Some(k) => k < self.cells@.len() && self.cells@[k as int] == (Point {
                    x: i as usize,
                    y: j as usize,
                }),
                None => true,
            } by {
                if i != p.x || j != p.y {
                    assert(self.slots@[i]@[j] == old(self).slots@[i]@[j]);
                }
            }
        }
    }

    /// The frontier of a map of `height` rows and `width` columns on which no
    /// cell has been given up yet: it holds every cell that is not on the
    /// boundary. A map with fewer than 3 rows or columns has no such cell.
    pub fn new(height: usize, width: usize) -> (f: Frontier)
        ensures
            f.wf(),
            f.height() == height,
            f.width() == width,
            f@ == interior_cells(height, width),
    {
        let mut f = Frontier {
            height,
            width,
            cells: Vec::new(),
            slots: vec![vec![None; width]; height],
        };
        assert(f.indexed());
        if height >= 3 && width >= 3 {
            let mut i: usize = 1;
            while i < height - 1
                invariant
                    height >= 3,
                    width >= 3,
                    1 <= i <= height - 1,
                    f.indexed(),
                    f.height() == height,
                    f.width() == width,
                    f@ == interior_rows((i - 1) as usize, width),
                decreases height - i,
            {
                let mut j: usize = 1;
                while j < width - 1
                    invariant
                        height >= 3,
                        width >= 3,
                        1 <= i < height - 1,
                        1 <= j <= width - 1,
                        f.indexed(),
                        f.height() == height,
                        f.width() == width,
                        f@ == interior_rows((i - 1) as usize, width) + interior_row(i, width).take(
                            j - 1,
                        ),
                    decreases width - j,
                {
                    let p = Point::new(i, j);
                    proof {
                        lemma_interior_rows((i - 1) as usize, width);
                        assert forall|k: int| 0 <= k < f@.len() implies f@[k] != p by {
                            if k >= interior_rows((i - 1) as usize, width).len() {
                                let at = k - interior_rows((i - 1) as usize, width).len();
                                assert(f@[k] == interior_row(i, width)[at]);
                            }
                        }
                    }
                    f.append(p);
                    assert(f@ == interior_rows((i - 1) as usize, width) + interior_row(
                        i,
                        width,
                    ).take(j as int));
                    j += 1;
                }
                assert(interior_row(i, width).take(width - 2) == interior_row(i, width));
                i += 1;
            }
        }
        proof {
            f.lemma_indexed_wf();
        }
        f
    }

    /// Takes the cell `p` out of the frontier, if it is there: the last cell
    /// moves to the place of `p`. A frontier without `p` is left as it is.
    pub fn remove(&mut self, p: &Point)
        requires
            old(self).wf(),
        ensures
            final(self).wf(),
            final(self)@ == without(old(self)@, *p),
            final(self).height() == old(self).height(),
            final(self).width() == old(self).width(),
    {
        if !self.contains(p) {
            return ;
        }
        assert(self.slots@[p.x as int]@.len() == self.width) by {
            let at = self@.index_of(*p);
            assert(is_interior(self.cells@[at], self.height(), self.width()));
        }
        match self.slots[p.x][p.y] {
            None => {
                proof {
                    let at = self@.index_of(*p);
                    assert(self.slot(self.cells@[at]) == Some(at as usize));
                }
            },
            Some(k) => {
                let last = self.cells[self.cells.len() - 1];
                proof {
                    let at = self@.index_of(*p);
                    assert(self.slot(self.cells@[at]) == Some(at as usize));
                    assert(at == k);
                    assert(is_interior(last, self.height(), self.width()));
                    assert(self.slots@[last.x as int]@.len() == self.width);
                }
                self.cells.swap_remove(k);
                self.slots[last.x][last.y] = Some(k);
                self.slots[p.x][p.y] = None;
                proof {
                    let n = old(self).cells@.len() - 1;
                    assert forall|i: int| 0 <= i < self.cells@.len() implies is_interior(
                        #[trigger] self.cells@[i],
                        self.height(),
                        self.width(),
                    ) && self.slot(self.cells@[i]) == Some(i as usize) && i <= usize::MAX by {
                        let c = self.cells@[i];
                        if i == k {
                            assert(c == last);
                            assert(old(self).slot(last) == Some(n as usize));
                        } else {
                            assert(c == old(self).cells@[i]);
                            assert(old(self).slot(c) == Some(i as usize));
                            assert(old(self).slot(last) == Some(n as usize));
                        }
                    }
                    assert forall|i: int, j: int|
                        0 <= i < self.height() && 0 <= j < self.width() implies match #[trigger] self.slots@[i]@[j] {
                        Some(k) => k < self.cells@.len() && self.cells@[k as int] == (Point {
                            x: i as usize,
                            y: j as usize,
                        }),
                        None => true,
                    } by {
                        if (i == p.x && j == p.y) {
                        } else if (i == last.x && j == last.y) {
                        } else {
                            assert(self.slots@[i]@[j] == old(self).slots@[i]@[j]);
                            if let Some(v) = old(self).slots@[i]@[j] {
                                assert(old(self).cells@[v as int] == (Point {
                                    x: i as usize,
                                    y: j as usize,
                                }));
                                assert(v != k);
                                assert(v != n);
                            }
                        }
                    }
                    self.lemma_indexed_wf();
                }
            },
        }
    }

    /// How many cells the frontier holds.
    pub fn len(&self) -> (n: usize)
        ensures
            n == self@.len(),
    {
        self.cells.len()
    }

    /// Whether the frontier holds no cell.
    pub fn is_empty(&self) -> (b: bool)
        ensures
            b == (self@.len() == 0),
    {
        self.cells.len() == 0
    }

    /// Whether the frontier holds the cell `p`.
    pub fn contains(&self, p: &Point) -> (b: bool)
        requires
            self.wf(),
        ensures
            b == self@.contains(*p),
    {
        if p.x < self.height && p.y < self.width {
            assert(self.slots@[p.x as int]@.len() == self.width());
            match self.slots[p.x][p.y] {
                Some(k) => {
                    assert(self.cells@[k as int] == *p);
                    true
                },
                None => {
                    assert forall|k: int| 0 <= k < self.cells@.len() implies self.cells@[k] != *p by {
                        let c = self.cells@[k];
                        assert(self.slot(c) == Some(k as usize));
                    }
                    false
                },
            }
        } else {
            assert forall|k: int| 0 <= k < self.cells@.len() implies self.cells@[k] != *p by {
                let c = self.cells@[k];
                assert(is_interior(c, self.height(), self.width()));
                assert(self.slots@[c.x as int]@.len() == self.width());
            }
            false
        }
    }

    /// The cell that stands at `index`.
    pub fn pick(&self, index: usize) -> (p: Point)
        requires
            index < self@.len(),
        ensures
            p == self@[index as int],
    {
        self.cells[index]
    }

    /// A cell of the frontier, which must not be empty: the one that stands
    /// at an index drawn from `rng`, so that each cell is as likely as any
    /// other.
    pub fn pick_random(&self, rng: &mut StdRng) -> (p: Point)
        requires
            self@.len() > 0,
        ensures
            self@.contains(p),
    {
        let index = draw_below(rng, self.len());
        self.pick(index)
    }
}

} // verus!
