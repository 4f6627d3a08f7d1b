use vstd::prelude::*;

use rand::seq::SliceRandom;
use rand::Rng;

use crate::geometry::{in_extent, Point, WORLD_EXTENT};

verus! {

/// Rings searched together after the first: each later band of the search
/// covers this many more Chebyshev distances.
pub const DISTANCE_STEP: i64 = 3;

/// No two cells of the world lie further apart than this (Chebyshev distance).
pub const MAX_RING: i64 = 2251799813685250;

/// The cell, on one axis, of coordinate `v` for cells of size `c`:
/// `floor((v - c / 2) / c)`.
pub open spec fn cell_of(v: int, c: int) -> int {
    (2 * v - c) / (2 * c)
}

/// The centre, on one axis, of cell `k` of size `c`: the cell spans
/// `[k * c + c / 2, k * c + 3 * c / 2)`.
pub open spec fn cell_center(k: int, c: int) -> int {
    k * c + c
}

pub open spec fn abs(v: int) -> int {
    if v < 0 {
        -v
    } else {
        v
    }
}

/// Chebyshev distance between two cells.
pub open spec fn chebyshev(a: (int, int), b: (int, int)) -> int {
    let dx = abs(a.0 - b.0);
    let dy = abs(a.1 - b.1);
    if dx >= dy {
        dx
    } else {
        dy
    }
}

/// How many cells of size `c` the search radius `radius` spans, rounded up;
/// zero for a radius that is not positive.
pub open spec fn reference_distance(radius: int, c: int) -> int {
    if radius <= 0 {
        0
    } else {
        (radius + c - 1) / c
    }
}

/// The band of the search that Chebyshev distance `d` falls in: band 0
/// holds distances up to `reference`, and each later band the next
/// `DISTANCE_STEP` distances.
pub open spec fn band_of(d: int, reference: int) -> int {
    if d <= reference {
        0
    } else {
        (d - reference - 1) / (DISTANCE_STEP as int) + 1
    }
}

proof fn lemma_floor_div(n: int, d: int, q: int)
    requires
        d > 0,
        q * d <= n < q * d + d,
    ensures
        n / d == q,
{
    vstd::arithmetic::div_mod::lemma_fundamental_div_mod_converse(n, d, q, n - q * d);
}

/// `floor(n / d)`, for `d > 0`.
fn floor_div(n: i128, d: i128) -> (r: i128)
    requires
        d > 0,
        -0x1000000000000000000000000000 <= n <= 0x1000000000000000000000000000,
        d <= 0x1000000000000000000000000000,
    ensures
        r == n / d,
{
    if n >= 0 {
        proof {
            vstd::arithmetic::div_mod::lemma_fundamental_div_mod(n as int, d as int);
            vstd::arithmetic::div_mod::lemma_mod_bound(n as int, d as int);
        }
        let q = n / d;
        q
    } else {
        let m = -n;
        let a = (m + d - 1) / d;
        proof {
            vstd::arithmetic::div_mod::lemma_fundamental_div_mod((m + d - 1) as int, d as int);
            vstd::arithmetic::div_mod::lemma_mod_bound((m + d - 1) as int, d as int);
            let b = (m + d - 1) as int % (d as int);
            assert(m + d - 1 == d * a + b);
            assert(n == (-a) * d + (d - 1 - b)) by (nonlinear_arith)
                requires
                    m + d - 1 == d * a + b,
                    n == -m,
            ;
            lemma_floor_div(n as int, d as int, -a);
        }
        -a
    }
}

/// Cell `k`'s own point lies in cell `k`.
pub proof fn lemma_cell_of_center(k: int, c: int)
    requires
        c > 0,
    ensures
        cell_of(cell_center(k, c), c) == k,
{
    assert(2 * cell_center(k, c) - c == k * (2 * c) + c) by (nonlinear_arith)
        requires
            cell_center(k, c) == k * c + c,
    ;
    lemma_floor_div(2 * cell_center(k, c) - c, 2 * c, k);
}

/// The occupancy grid: divides the world into square-ish cells and records
/// which of them are reserved.
pub struct FreeSpaceManager {
    cell_x_size: u64,
    cell_y_size: u64,
    occupied_positions: Vec<(i64, i64)>,
}

impl FreeSpaceManager {
    /// Size of a cell along x.
    pub closed spec fn cell_x(&self) -> int {
        self.cell_x_size as int
    }

    /// Size of a cell along y.
    pub closed spec fn cell_y(&self) -> int {
        self.cell_y_size as int
    }

    /// The reserved cells.
    pub closed spec fn view(&self) -> Set<(int, int)> {
        self.occupied_positions@.map_values(|c: (i64, i64)| (c.0 as int, c.1 as int)).to_set()
    }

    pub closed spec fn wf(&self) -> bool {
        &&& 1 <= self.cell_x_size <= WORLD_EXTENT
        &&& 1 <= self.cell_y_size <= WORLD_EXTENT
        &&& self.occupied_positions@.no_duplicates()
    }

    /// The cell that holds point `p`.
    pub open spec fn cell_id_of(&self, p: Point) -> (int, int) {
        (cell_of(p.x as int, self.cell_x()), cell_of(p.y as int, self.cell_y()))
    }

    /// The centre of cell `k`.
    pub open spec fn position_of(&self, k: (int, int)) -> (int, int) {
        (cell_center(k.0, self.cell_x()), cell_center(k.1, self.cell_y()))
    }

    /// Whether the centre of cell `k` lies within the world.
    pub open spec fn cell_in_world(&self, k: (int, int)) -> bool {
        in_extent(self.position_of(k).0) && in_extent(self.position_of(k).1)
    }

    /// An empty grid with cells of the given sizes.
    pub fn new(cell_x_size: u64, cell_y_size: u64) -> (r: FreeSpaceManager)
        requires
            1 <= cell_x_size <= WORLD_EXTENT,
            1 <= cell_y_size <= WORLD_EXTENT,
        ensures
            r.wf(),
            r@ == Set::<(int, int)>::empty(),
            r.cell_x() == cell_x_size,
            r.cell_y() == cell_y_size,
    {
        let r = FreeSpaceManager { cell_x_size, cell_y_size, occupied_positions: Vec::new() };
        assert(r@ =~= Set::<(int, int)>::empty());
        r
    }

    pub fn cell_x_size(&self) -> (r: u64)
        ensures
            r == self.cell_x(),
    {
        self.cell_x_size
    }

    pub fn cell_y_size(&self) -> (r: u64)
        ensures
            r == self.cell_y(),
    {
        self.cell_y_size
    }

    /// The cell that holds `position`.
    pub fn cell_id_from_position(&self, position: Point) -> (r: (i64, i64))
        requires
            self.wf(),
            position.in_world(),
        ensures
            (r.0 as int, r.1 as int) == self.cell_id_of(position),
    {
        let cx = self.cell_x_size as i128;
        let cy = self.cell_y_size as i128;
        let kx = floor_div(2 * position.x as i128 - cx, 2 * cx);
        let ky = floor_div(2 * position.y as i128 - cy, 2 * cy);
        proof {
            lemma_cell_bound(position.x as int, cx as int);
            lemma_cell_bound(position.y as int, cy as int);
        }
        (kx as i64, ky as i64)
    }

    /// Whether the cell that holds `position` is reserved.
    pub fn is_occupied(&self, position: Point) -> (r: bool)
        requires
            self.wf(),
            position.in_world(),
        ensures
            r == self@.contains(self.cell_id_of(position)),
    {
        let k = self.cell_id_from_position(position);
        self.contains_cell(k.0, k.1)
    }

    fn index_of_cell(&self, kx: i64, ky: i64) -> (r: Option<usize>)
        ensures
            match r {
                Some(i) => i < self.occupied_positions@.len() && self.occupied_positions@[i as int]
                    == (kx, ky),
                None => !self.occupied_positions@.contains((kx, ky)),
            },
    {
        let mut i: usize = 0;
        while i < self.occupied_positions.len()
            invariant
                i <= self.occupied_positions@.len(),
                forall|j: int| 0 <= j < i ==> self.occupied_positions@[j] != (kx, ky),
            decreases self.occupied_positions@.len() - i,
        {
            let c = self.occupied_positions[i];
            if c.0 == kx && c.1 == ky {
                return Some(i);
            }
            i = i + 1;
        }
        None
    }

    proof fn lemma_view_contains(&self, kx: i64, ky: i64)
        ensures
            self@.contains((kx as int, ky as int)) == self.occupied_positions@.contains((kx, ky)),
    {
        let s = self.occupied_positions@;
        let f = |c: (i64, i64)| (c.0 as int, c.1 as int);
        if self@.contains((kx as int, ky as int)) {
            let i = choose|i: int| 0 <= i < s.len() && #[trigger] s.map_values(f)[i] == (kx as int, ky as int);
            assert(s[i] == (kx, ky));
        }
        if s.contains((kx, ky)) {
            let i = choose|i: int| 0 <= i < s.len() && s[i] == (kx, ky);
            assert(s.map_values(f)[i] == (kx as int, ky as int));
        }
    }

    /// Whether cell `(kx, ky)` is reserved.
    pub fn contains_cell(&self, kx: i64, ky: i64) -> (r: bool)
        ensures
            r == self@.contains((kx as int, ky as int)),
    {
        proof {
            self.lemma_view_contains(kx, ky);
        }
        self.index_of_cell(kx, ky).is_some()
    }

    /// Reserves the cell that holds `position`.
    pub fn add_occupied_position(&mut self, position: Point)
        requires
            old(self).wf(),
            position.in_world(),
        ensures
            final(self).wf(),
            final(self).cell_x() == old(self).cell_x(),
            final(self).cell_y() == old(self).cell_y(),
            final(self)@ == old(self)@.insert(old(self).cell_id_of(position)),
    {
        let k = self.cell_id_from_position(position);
        proof {
            self.lemma_view_contains(k.0, k.1);
        }
        if self.index_of_cell(k.0, k.1).is_none() {
            let ghost before = self.occupied_positions@;
            self.occupied_positions.push(k);
            proof {
                let f = |c: (i64, i64)| (c.0 as int, c.1 as int);
                assert(self.occupied_positions@.map_values(f) =~= before.map_values(f).push(
                    (k.0 as int, k.1 as int),
                ));
                before.map_values(f).lemma_push_to_set_commute((k.0 as int, k.1 as int));
                assert(self.occupied_positions@.no_duplicates()) by {
                    assert forall|a: int, b: int|
                        0 <= a < b < self.occupied_positions@.len() implies self.occupied_positions@[a]
                        != self.occupied_positions@[b] by {
                        if b == before.len() {
                            assert(before.contains(before[a]));
                        }
                    }
                }
            }
        } else {
            assert(self@ =~= old(self)@.insert(old(self).cell_id_of(position)));
        }
    }

    /// Releases the cell that holds `position`; a cell that was not
    /// reserved stays free.
    pub fn remove_occupied_position(&mut self, position: Point)
        requires
            old(self).wf(),
            position.in_world(),
        ensures
            final(self).wf(),
            final(self).cell_x() == old(self).cell_x(),
            final(self).cell_y() == old(self).cell_y(),
            final(self)@ == old(self)@.remove(old(self).cell_id_of(position)),
    {
        let k = self.cell_id_from_position(position);
        proof {
            self.lemma_view_contains(k.0, k.1);
        }
        match self.index_of_cell(k.0, k.1) {
            None => {
                assert(self@ =~= old(self)@.remove(old(self).cell_id_of(position)));
            },
            Some(i) => {
                let ghost before = self.occupied_positions@;
                self.occupied_positions.remove(i);
                proof {
                    let f = |c: (i64, i64)| (c.0 as int, c.1 as int);
                    let after = self.occupied_positions@;
                    assert(after =~= before.remove(i as int));
                    assert(after.no_duplicates()) by {
                        assert forall|a: int, b: int| 0 <= a < b < after.len() implies after[a]
                            != after[b] by {
                            let a2 = if a < i {
                                a
                            } else {
                                a + 1
                            };
                            let b2 = if b < i {
                                b
                            } else {
                                b + 1
                            };
                            assert(after[a] == before[a2]);
                            assert(after[b] == before[b2]);
                        }
                    }
                    let key = (k.0 as int, k.1 as int);
                    assert forall|c: (int, int)| #[trigger]
                        self@.contains(c) == old(self)@.remove(key).contains(c) by {
                        if self@.contains(c) {
                            let j = choose|j: int|
                                0 <= j < after.len() && #[trigger] after.map_values(f)[j] == c;
                            let j2 = if j < i {
                                j
                            } else {
                                j + 1
                            };
                            assert(before.map_values(f)[j2] == c);
                            assert(j2 != i);
                            assert(old(self)@.contains(c));
                        }
                        if old(self)@.remove(key).contains(c) {
                            let j = choose|j: int|
                                0 <= j < before.len() && #[trigger] before.map_values(f)[j] == c;
                            assert(j != i);
                            let j2 = if j < i {
                                j
                            } else {
                                j - 1
                            };
                            assert(after.map_values(f)[j2] == c);
                        }
                    }
                    assert(self@ =~= old(self)@.remove(key));
                }
            },
        }
    }

    /// `cands` lists, each once, exactly the free cells whose Chebyshev
    /// distance from cell `t` falls in search band `band`, with their
    /// offsets from `t`.
    pub open spec fn band_cells(&self, t: (int, int), reference: int, band: int, cands: Seq<FreeCell>) -> bool {
        &&& forall|m: int|
            0 <= m < cands.len() ==> {
                let c = #[trigger] cands[m];
                &&& c.cell() == (t.0 + c.dx, t.1 + c.dy)
                &&& self.is_free(c.cell())
                &&& band_of(chebyshev(c.cell(), t), reference) == band
            }
        &&& forall|q: (int, int)|
            #[trigger] self.is_free(q) && band_of(chebyshev(q, t), reference) == band ==> lists_cell(cands, q)
        &&& forall|m: int, n: int| 0 <= m < n < cands.len() ==> cands[m].cell() != cands[n].cell()
    }

    /// Whether `k` is a cell of the world that is not reserved.
    pub open spec fn is_free(&self, k: (int, int)) -> bool {
        self.cell_in_world(k) && !self@.contains(k)
    }

    /// Whether the centre of cell `(kx, ky)` lies within the world.
    fn cell_in_world_exec(&self, kx: i64, ky: i64) -> (r: bool)
        requires
            self.wf(),
            -0x10000000000000 <= kx <= 0x10000000000000,
            -0x10000000000000 <= ky <= 0x10000000000000,
        ensures
            r == self.cell_in_world((kx as int, ky as int)),
    {
        let cx = self.cell_x_size as i128;
        let cy = self.cell_y_size as i128;
        assert(-0x10000000000000 * WORLD_EXTENT <= kx * cx <= 0x10000000000000 * WORLD_EXTENT)
            by (nonlinear_arith)
            requires
                -0x10000000000000 <= kx <= 0x10000000000000,
                1 <= cx <= WORLD_EXTENT,
        ;
        assert(-0x10000000000000 * WORLD_EXTENT <= ky * cy <= 0x10000000000000 * WORLD_EXTENT)
            by (nonlinear_arith)
            requires
                -0x10000000000000 <= ky <= 0x10000000000000,
                1 <= cy <= WORLD_EXTENT,
        ;
        let px = kx as i128 * cx + cx;
        let py = ky as i128 * cy + cy;
        let e = WORLD_EXTENT as i128;
        -e <= px && px <= e && -e <= py && py <= e
    }

    /// The centre of cell `(kx, ky)`.
    pub fn position_from_cell_id(&self, kx: i64, ky: i64) -> (r: Point)
        requires
            self.wf(),
            self.cell_in_world((kx as int, ky as int)),
        ensures
            r.in_world(),
            (r.x as int, r.y as int) == self.position_of((kx as int, ky as int)),
            self.cell_id_of(r) == (kx as int, ky as int),
    {
        proof {
            lemma_world_cell_bound(kx as int, self.cell_x());
            lemma_world_cell_bound(ky as int, self.cell_y());
            lemma_cell_of_center(kx as int, self.cell_x());
            lemma_cell_of_center(ky as int, self.cell_y());
        }
        let cx = self.cell_x_size as i128;
        let cy = self.cell_y_size as i128;
        assert(-0x10000000000000 * WORLD_EXTENT <= kx * cx <= 0x10000000000000 * WORLD_EXTENT)
            by (nonlinear_arith)
            requires
                -0x10000000000000 <= kx <= 0x10000000000000,
                1 <= cx <= WORLD_EXTENT,
        ;
        assert(-0x10000000000000 * WORLD_EXTENT <= ky * cy <= 0x10000000000000 * WORLD_EXTENT)
            by (nonlinear_arith)
            requires
                -0x10000000000000 <= ky <= 0x10000000000000,
                1 <= cy <= WORLD_EXTENT,
        ;
        let px = kx as i128 * cx + cx;
        let py = ky as i128 * cy + cy;
        Point { x: px as i64, y: py as i64 }
    }

    /// Appends cell `(tx + x, ty + y)` to `out` where it is free.
    fn consider_cell(&self, out: &mut Vec<FreeCell>, tx: i64, ty: i64, x: i64, y: i64)
        requires
            self.wf(),
            -(WORLD_EXTENT + 1) <= tx <= WORLD_EXTENT + 1,
            -(WORLD_EXTENT + 1) <= ty <= WORLD_EXTENT + 1,
            -MAX_RING <= x <= MAX_RING,
            -MAX_RING <= y <= MAX_RING,
        ensures
            ({
                let c = FreeCell { cell_x: (tx + x) as i64, cell_y: (ty + y) as i64, dx: x, dy: y };
                if self.is_free(c.cell()) {
                    final(out)@ == old(out)@.push(c)
                } else {
                    final(out)@ == old(out)@
                }
            }),
    {
        let kx = tx + x;
        let ky = ty + y;
        if self.cell_in_world_exec(kx, ky) && !self.contains_cell(kx, ky) {
            out.push(FreeCell { cell_x: kx, cell_y: ky, dx: x, dy: y });
        }
    }

    /// The free cells of the world whose Chebyshev distance from cell
    /// `(tx, ty)` lies in `[dmin, dmax]`, each once.
    pub fn expand_available_cells(&self, tx: i64, ty: i64, dmin: i64, dmax: i64) -> (r: Vec<
        FreeCell,
    >)
        requires
            self.wf(),
            -(WORLD_EXTENT + 1) <= tx <= WORLD_EXTENT + 1,
            -(WORLD_EXTENT + 1) <= ty <= WORLD_EXTENT + 1,
            0 <= dmin,
            0 <= dmax <= MAX_RING,
        ensures
            forall|i: int|
                0 <= i < r@.len() ==> {
                    let c = #[trigger] r@[i];
                    &&& c.cell() == (tx + c.dx, ty + c.dy)
                    &&& self.is_free(c.cell())
                    &&& dmin <= chebyshev(c.cell(), (tx as int, ty as int)) <= dmax
                },
            forall|k: (int, int)|
                #[trigger] self.is_free(k) && dmin <= chebyshev(k, (tx as int, ty as int)) <= dmax
                    ==> lists_cell(r@, k),
            forall|i: int, j: int| 0 <= i < j < r@.len() ==> r@[i].cell() != r@[j].cell(),
    {
        let ghost t = (tx as int, ty as int);
        let mut out: Vec<FreeCell> = Vec::new();
        let mut y: i64 = -dmax;
        while y <= dmax
            invariant
                self.wf(),
                -(WORLD_EXTENT + 1) <= tx <= WORLD_EXTENT + 1,
                -(WORLD_EXTENT + 1) <= ty <= WORLD_EXTENT + 1,
                0 <= dmin,
                0 <= dmax <= MAX_RING,
                -dmax <= y <= dmax + 1,
                t == (tx as int, ty as int),
                forall|i: int|
                    0 <= i < out@.len() ==> {
                        let c = #[trigger] out@[i];
                        &&& c.cell() == (tx + c.dx, ty + c.dy)
                        &&& self.is_free(c.cell())
                        &&& dmin <= chebyshev(c.cell(), t) <= dmax
                    },
                forall|k: (int, int)|
                    #[trigger] self.is_free(k) && dmin <= chebyshev(k, t) <= dmax && k.1 - ty < y
                        ==> lists_cell(out@, k),
                forall|i: int| 0 <= i < out@.len() ==> (#[trigger] out@[i]).dy < y,
                forall|i: int, j: int| 0 <= i < j < out@.len() ==> before_in_scan(out@[i], out@[j]),
            decreases dmax + 1 - y,
        {
            let full = y >= dmin || y <= -dmin;
            let mut x: i64 = -dmax;
            while x <= dmax
                invariant
                    self.wf(),
                    -(WORLD_EXTENT + 1) <= tx <= WORLD_EXTENT + 1,
                    -(WORLD_EXTENT + 1) <= ty <= WORLD_EXTENT + 1,
                    0 <= dmin,
                    0 <= dmax <= MAX_RING,
                    -dmax <= y <= dmax,
                    -dmax <= x <= dmax + 1,
                    t == (tx as int, ty as int),
                    full == (y >= dmin || y <= -dmin),
                    forall|i: int|
                        0 <= i < out@.len() ==> {
                            let c = #[trigger] out@[i];
                            &&& c.cell() == (tx + c.dx, ty + c.dy)
                            &&& self.is_free(c.cell())
                            &&& dmin <= chebyshev(c.cell(), t) <= dmax
                        },
                    forall|k: (int, int)|
                        #[trigger] self.is_free(k) && dmin <= chebyshev(k, t) <= dmax && (k.1 - ty
                            < y || (k.1 - ty == y && k.0 - tx < x)) ==> lists_cell(out@, k),
                forall|i: int|
                    0 <= i < out@.len() ==> (#[trigger] out@[i]).dy < y || (out@[i].dy == y
                        && out@[i].dx < x),
                forall|i: int, j: int| 0 <= i < j < out@.len() ==> before_in_scan(out@[i], out@[j]),
                decreases dmax + 1 - x,
            {
                let ghost before = out@;
                if full || x <= -dmin || x >= dmin {
                    self.consider_cell(&mut out, tx, ty, x, y);
                }
                let next = if !full && x == -dmin {
                    dmin
                } else {
                    x + 1
                };
                proof {
                    let c = FreeCell { cell_x: (tx + x) as i64, cell_y: (ty + y) as i64, dx: x, dy: y };
                    assert forall|k: (int, int)|
                        #[trigger] self.is_free(k) && dmin <= chebyshev(k, t) <= dmax && (k.1 - ty
                            < y || (k.1 - ty == y && k.0 - tx < next)) implies lists_cell(out@, k) by {
                        if k.1 - ty < y || (k.1 - ty == y && k.0 - tx < x) {
                            assert(lists_cell(before, k));
                            if out@ != before {
                                lemma_lists_cell_push(before, c, k);
                            }
                        } else if k.0 - tx == x {
                            assert(c.cell() == k);
                            lemma_lists_cell_push(before, c, k);
                        } else {
                            assert(false);
                        }
                    }
                }
                x = next;
            }
            y = y + 1;
        }
        assert forall|i: int, j: int| 0 <= i < j < out@.len() implies out@[i].cell() != out@[j].cell() by {
            assert(before_in_scan(out@[i], out@[j]));
        }
        out
    }

    /// Finds a free cell near `target` and returns its centre. The search looks at the cells within `reference_distance` of the
    /// target's cell (Chebyshev distance) first, then at bands of
    /// `DISTANCE_STEP` more distances at a time, and draws among the free
    /// cells of the first band that holds any, with likelihood
    /// `weight(dx, dy, reference)` for a cell at offset `(dx, dy)`. Nothing is
    /// reserved. Returns `None` only where no cell of the world is free.
    pub fn find_random_free_position_near<W: Fn(i64, i64, u64) -> u64>(
        &self,
        target: Point,
        radius: i64,
        weight: &W,
    ) -> (r: Option<Point>)
        requires
            self.wf(),
            target.in_world(),
            forall|dx: i64, dy: i64, d: u64| weight.requires((dx, dy, d)),
        ensures
            ({
                let t = self.cell_id_of(target);
                let reference = reference_distance(radius as int, self.cell_x());
                match r {
                    Some(p) => {
                        &&& p.in_world()
                        &&& self.is_free(self.cell_id_of(p))
                        &&& (p.x as int, p.y as int) == self.position_of(self.cell_id_of(p))
                        &&& forall|q: (int, int)| #[trigger]
                            self.is_free(q) ==> band_of(chebyshev(q, t), reference) >= band_of(
                                chebyshev(self.cell_id_of(p), t),
                                reference,
                            )
                        &&& exists|cands: Seq<FreeCell>, items: Seq<(usize, u64)>, i: int|
                            #[trigger] self.band_cells(t, reference, band_of(chebyshev(self.cell_id_of(p), t), reference), cands)
                                && 0 <= i < cands.len() && cands[i].cell() == self.cell_id_of(p)
                                && #[trigger] drawn_by_weight(*weight, cands, reference as u64, items, i)
                    },
                    None => forall|q: (int, int)| #[trigger]
                        self.cell_in_world(q) ==> self@.contains(q),
                }
            }),
    {
        let target_cell = self.cell_id_from_position(target);
        let tx = target_cell.0;
        let ty = target_cell.1;
        let ghost t = (tx as int, ty as int);
        proof {
            lemma_cell_bound(target.x as int, self.cell_x());
            lemma_cell_bound(target.y as int, self.cell_y());
        }
        let reference: u64 = if radius <= 0 {
            0
        } else {
            let c = self.cell_x_size as u128;
            let q = (radius as u128 + c - 1) / c;
            proof {
                vstd::arithmetic::div_mod::lemma_div_is_ordered_by_denominator(
                    (radius as u128 + c - 1) as int,
                    1,
                    c as int,
                );
            }
            assert(q <= radius + c - 1);
            if q > u64::MAX as u128 {
                assert(false);
            }
            q as u64
        };
        assert(reference == reference_distance(radius as int, self.cell_x()));
        let ghost rf = reference as int;
        let mut dmin: i128 = 0;
        let mut dmax: i128 = reference as i128;
        let ghost mut j: int = 0;
        while dmin <= MAX_RING as i128
            invariant
                self.wf(),
                t == (tx as int, ty as int),
                t == self.cell_id_of(target),
                -(WORLD_EXTENT + 1) <= tx <= WORLD_EXTENT + 1,
                -(WORLD_EXTENT + 1) <= ty <= WORLD_EXTENT + 1,
                rf == reference,
                rf == reference_distance(radius as int, self.cell_x()),
                0 <= rf <= u64::MAX,
                0 <= j,
                dmin == band_lo(j, rf),
                dmax == rf + j * DISTANCE_STEP,
                dmin <= dmax,
                j > 0 ==> dmax == dmin + DISTANCE_STEP - 1,
                dmax <= rf + MAX_RING + 2 * DISTANCE_STEP,
                forall|weight_arg_x: i64, weight_arg_y: i64, weight_arg_d: u64|
                    weight.requires((weight_arg_x, weight_arg_y, weight_arg_d)),
                forall|q: (int, int)| #[trigger] self.is_free(q) ==> chebyshev(q, t) >= dmin,
            decreases rf + MAX_RING + 2 * DISTANCE_STEP + 1 - dmin,
        {
            let upper: i64 = if dmax > MAX_RING as i128 {
                MAX_RING
            } else {
                dmax as i64
            };
            let cands = self.expand_available_cells(tx, ty, dmin as i64, upper);
            if cands.len() > 0 {
                let i = pick_candidate(&cands, reference, weight);
                let c = cands[i];
                let p = self.position_from_cell_id(c.cell_x, c.cell_y);
                proof {
                    let k = c.cell();
                    assert(self.cell_id_of(p) == k);
                    lemma_band_of_in(chebyshev(k, t), rf, j);
                    assert forall|m: int| 0 <= m < cands@.len() implies band_of(
                        chebyshev((#[trigger] cands@[m]).cell(), t),
                        rf,
                    ) == j by {
                        lemma_band_of_in(chebyshev(cands@[m].cell(), t), rf, j);
                    }
                    assert forall|q: (int, int)| #[trigger]
                        self.is_free(q) && band_of(chebyshev(q, t), rf) == j implies lists_cell(cands@, q) by {
                        lemma_world_cell_bound(q.0, self.cell_x());
                        lemma_world_cell_bound(q.1, self.cell_y());
                        if chebyshev(q, t) > rf + j * DISTANCE_STEP {
                            lemma_band_of_at_least(chebyshev(q, t), rf, j + 1);
                        }
                    }
                    assert(self.band_cells(t, rf, j, cands@));
                    let items = choose|items: Seq<(usize, u64)>| drawn_by_weight(*weight, cands@, reference, items, i as int);
                    assert(cands@[i as int] == c);
                    let rd = reference_distance(radius as int, self.cell_x());
                    assert(rd as u64 == reference);
                    assert(self.band_cells(t, rd, band_of(chebyshev(self.cell_id_of(p), t), rd), cands@)
                        && 0 <= i < cands@.len() && cands@[i as int].cell() == self.cell_id_of(p)
                        && drawn_by_weight(*weight, cands@, rd as u64, items, i as int));
                    assert forall|q: (int, int)| #[trigger]
                        self.is_free(q) implies band_of(chebyshev(q, t), rf) >= band_of(
                        chebyshev(k, t),
                        rf,
                    ) by {
                        lemma_band_of_at_least(chebyshev(q, t), rf, j);
                    }
                }
                return Some(p);
            }
            proof {
                assert forall|q: (int, int)| #[trigger]
                    self.is_free(q) implies chebyshev(q, t) >= dmax + 1 by {
                    lemma_world_cell_bound(q.0, self.cell_x());
                    lemma_world_cell_bound(q.1, self.cell_y());
                    if chebyshev(q, t) <= upper {
                        let ci = choose|ci: int| 0 <= ci < cands@.len() && (#[trigger] cands@[ci]).cell() == q;
                        assert(cands@[ci] == cands[ci]);
                    }
                }
                lemma_band_next(j, rf);
                j = j + 1;
            }
            dmin = dmax + 1;
            dmax = dmax + DISTANCE_STEP as i128;
        }
        proof {
            assert forall|q: (int, int)| #[trigger] self.cell_in_world(q) implies self@.contains(q) by {
                if !self@.contains(q) {
                    assert(self.is_free(q));
                    lemma_world_cell_bound(q.0, self.cell_x());
                    lemma_world_cell_bound(q.1, self.cell_y());
                }
            }
        }
        None
    }
}

/// A free cell found by the search, with its offset from the target cell.
#[derive(Clone, Copy, Debug, PartialEq, Eq, Structural)]
pub struct FreeCell {
    pub cell_x: i64,
    pub cell_y: i64,
    pub dx: i64,
    pub dy: i64,
}

impl FreeCell {
    pub open spec fn cell(self) -> (int, int) {
        (self.cell_x as int, self.cell_y as int)
    }
}

/// First Chebyshev distance of band `j` of the search.
pub open spec fn band_lo(j: int, reference: int) -> int {
    if j == 0 {
        0
    } else {
        reference + (j - 1) * DISTANCE_STEP + 1
    }
}

proof fn lemma_band_of_in(d: int, reference: int, j: int)
    requires
        0 <= reference,
        0 <= j,
        band_lo(j, reference) <= d <= reference + j * DISTANCE_STEP,
    ensures
        band_of(d, reference) == j,
{
    if j > 0 {
        assert((j - 1) * DISTANCE_STEP <= d - reference - 1 < (j - 1) * DISTANCE_STEP + DISTANCE_STEP);
        lemma_floor_div(d - reference - 1, DISTANCE_STEP as int, j - 1);
    }
}

proof fn lemma_band_of_at_least(d: int, reference: int, j: int)
    requires
        0 <= reference,
        0 <= j,
        band_lo(j, reference) <= d,
    ensures
        band_of(d, reference) >= j,
{
    if j > 0 {
        vstd::arithmetic::div_mod::lemma_div_is_ordered(
            (j - 1) * DISTANCE_STEP,
            d - reference - 1,
            DISTANCE_STEP as int,
        );
        vstd::arithmetic::div_mod::lemma_div_by_multiple(j - 1, DISTANCE_STEP as int);
    }
}

proof fn lemma_band_next(j: int, reference: int)
    requires
        0 <= j,
        0 <= reference,
    ensures
        band_lo(j + 1, reference) == reference + j * DISTANCE_STEP + 1,
{
}

/// Sum of the weights of `s`.
pub open spec fn weight_total(s: Seq<(usize, u64)>) -> int
    decreases s.len(),
{
    if s.len() == 0 {
        0
    } else {
        weight_total(s.drop_last()) + s.last().1
    }
}

/// Relies on rand's `SliceRandom::choose_weighted` with `thread_rng`: it
/// returns one of the items, drawn with likelihood proportional to its
/// weight (so never one of weight zero), and fails only where there is no
/// item or every weight is zero. The weights must not overflow their sum.
#[verifier::external_body]
fn choose_weighted_index(items: &Vec<(usize, u64)>) -> (r: Option<usize>)
    requires
        weight_total(items@) <= u64::MAX,
    ensures
        match r {
            Some(i) => exists|m: int|
                0 <= m < items@.len() && (#[trigger] items@[m]).0 == i && items@[m].1 > 0,
            None => weight_total(items@) == 0,
        },
{
    items.choose_weighted(&mut rand::thread_rng(), |p| p.1).ok().map(|p| p.0)
}

/// Relies on rand's `Rng::gen_range` with `thread_rng`: a number below `len`.
#[verifier::external_body]
fn random_index(len: usize) -> (r: usize)
    requires
        len > 0,
    ensures
        r < len,
{
    rand::thread_rng().gen_range(0..len)
}

/// Draws one of `cands`, each with likelihood `weight(dx, dy, reference)`;
/// where the weights are all zero or their sum does not fit, evenly.
fn pick_candidate<W: Fn(i64, i64, u64) -> u64>(
    cands: &Vec<FreeCell>,
    reference: u64,
    weight: &W,
) -> (r: usize)
    requires
        cands@.len() > 0,
        forall|dx: i64, dy: i64, d: u64| weight.requires((dx, dy, d)),
    ensures
        r < cands@.len(),
        exists|items: Seq<(usize, u64)>| drawn_by_weight(*weight, cands@, reference, items, r as int),
{
    let mut items: Vec<(usize, u64)> = Vec::new();
    let mut total: u64 = 0;
    let mut fits = true;
    let mut i: usize = 0;
    while i < cands.len()
        invariant
            i <= cands@.len(),
            items@.len() == i,
            forall|m: int| 0 <= m < i ==> (#[trigger] items@[m]).0 == m,
            forall|m: int|
                0 <= m < i ==> call_ensures(
                    *weight,
                    (cands@[m].dx, cands@[m].dy, reference),
                    (#[trigger] items@[m]).1,
                ),
            fits ==> total == weight_total(items@),
            !fits ==> weight_total(items@) > u64::MAX,
            forall|dx: i64, dy: i64, d: u64| weight.requires((dx, dy, d)),
        decreases cands@.len() - i,
    {
        let c = cands[i];
        let w = weight(c.dx, c.dy, reference);
        let ghost before = items@;
        items.push((i, w));
        assert(items@.drop_last() =~= before);
        if fits {
            if total <= u64::MAX - w {
                total = total + w;
            } else {
                fits = false;
            }
        }
        i = i + 1;
    }
    if fits && total > 0 {
        match choose_weighted_index(&items) {
            Some(k) => {
                assert(drawn_by_weight(*weight, cands@, reference, items@, k as int));
                return k;
            },
            None => {},
        }
    }
    let r = random_index(cands.len());
    assert(drawn_by_weight(*weight, cands@, reference, items@, r as int));
    r
}

/// `items` pairs each of `cands` with the weight that `weight` gave it at
/// its offset, and the draw `r` is one of `cands`: one of positive weight
/// wherever the weights sum to a positive total that fits in a `u64`.
pub open spec fn drawn_by_weight<W: Fn(i64, i64, u64) -> u64>(
    weight: W,
    cands: Seq<FreeCell>,
    reference: u64,
    items: Seq<(usize, u64)>,
    r: int,
) -> bool {
    &&& items.len() == cands.len()
    &&& 0 <= r < cands.len()
    &&& forall|m: int|
        0 <= m < items.len() ==> (#[trigger] items[m]).0 == m && call_ensures(
            weight,
            (cands[m].dx, cands[m].dy, reference),
            items[m].1,
        )
    &&& 0 < weight_total(items) <= u64::MAX ==> items[r].1 > 0
}

/// `a` comes before `b` in the row-by-row scan of offsets.
pub open spec fn before_in_scan(a: FreeCell, b: FreeCell) -> bool {
    a.dy < b.dy || (a.dy == b.dy && a.dx < b.dx)
}

/// Whether `s` lists cell `k`.
pub open spec fn lists_cell(s: Seq<FreeCell>, k: (int, int)) -> bool {
    exists|i: int| 0 <= i < s.len() && (#[trigger] s[i]).cell() == k
}

proof fn lemma_lists_cell_push(s: Seq<FreeCell>, c: FreeCell, k: (int, int))
    requires
        lists_cell(s, k) || c.cell() == k,
    ensures
        lists_cell(s.push(c), k),
{
    if c.cell() == k {
        assert(s.push(c)[s.len() as int] == c);
    } else {
        let i = choose|i: int| 0 <= i < s.len() && (#[trigger] s[i]).cell() == k;
        assert(s.push(c)[i] == s[i]);
    }
}

/// A point of the world lies within a cell at most `WORLD_EXTENT + 1` from
/// cell zero.
proof fn lemma_world_cell_bound(k: int, c: int)
    requires
        1 <= c <= WORLD_EXTENT,
        in_extent(cell_center(k, c)),
    ensures
        -(WORLD_EXTENT + 1) <= k <= WORLD_EXTENT + 1,
{
    let h = c;
    assert(-(WORLD_EXTENT + 1) <= k <= WORLD_EXTENT + 1) by (nonlinear_arith)
        requires
            -WORLD_EXTENT <= k * c + h <= WORLD_EXTENT,
            1 <= h <= c,
            1 <= c,
    ;
}

proof fn lemma_cell_bound(v: int, c: int)
    requires
        in_extent(v),
        1 <= c <= WORLD_EXTENT,
    ensures
        -(WORLD_EXTENT + 1) <= cell_of(v, c) <= WORLD_EXTENT + 1,
{
    let k = cell_of(v, c);
    vstd::arithmetic::div_mod::lemma_fundamental_div_mod(2 * v - c, 2 * c);
    vstd::arithmetic::div_mod::lemma_mod_bound(2 * v - c, 2 * c);
    let r = (2 * v - c) % (2 * c);
    assert(2 * v - c == 2 * c * k + r);
    assert(-(WORLD_EXTENT + 1) <= k <= WORLD_EXTENT + 1) by (nonlinear_arith)
        requires
            2 * v - c == 2 * c * k + r,
            0 <= r < 2 * c,
            1 <= c,
            -WORLD_EXTENT <= v <= WORLD_EXTENT,
    ;
}

/// Reserving the cell of a point and then releasing the cell of the same
/// point leaves the reserved cells as they were before the reservation,
/// where that cell was free before.
pub proof fn lemma_release_undoes_reserve(
    before: &FreeSpaceManager,
    reserved: &FreeSpaceManager,
    released: &FreeSpaceManager,
    p: Point,
)
    requires
        !before@.contains(before.cell_id_of(p)),
        reserved@ == before@.insert(before.cell_id_of(p)),
        reserved.cell_x() == before.cell_x(),
        reserved.cell_y() == before.cell_y(),
        released@ == reserved@.remove(reserved.cell_id_of(p)),
    ensures
        released@ == before@,
{
    assert(released@ =~= before@);
}

} // verus!
