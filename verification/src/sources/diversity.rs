//! Geographic diversity of the cached locations.
//!
//! The Earth is divided into grid cells of two degrees. The tracker counts how many accepted
//! locations fall into each cell, so that under-sampled regions can be
//! preferred and a collapse into a small cluster is noticed.

use vstd::prelude::*;

use crate::binary64;
use crate::bits::F64Bits;

verus! {

/// How many accepted locations fall into each grid cell. No cell occurs twice.
pub struct DiversityTracker {
    cells: Vec<((i32, i32), u32)>,
}

/// The count of a cell.
pub open spec fn count_in(cells: Seq<((i32, i32), u32)>, cell: (i32, i32)) -> nat
    decreases cells.len(),
{
    if cells.len() == 0 {
        0
    } else if cells.last().0 == cell {
        cells.last().1 as nat
    } else {
        count_in(cells.drop_last(), cell)
    }
}

/// The sum of all counts.
pub open spec fn total_count(cells: Seq<((i32, i32), u32)>) -> nat
    decreases cells.len(),
{
    if cells.len() == 0 {
        0
    } else {
        total_count(cells.drop_last()) + cells.last().1 as nat
    }
}

/// Whether some three cells hold more than half of all locations.
pub open spec fn three_hold_most(cells: Seq<((i32, i32), u32)>) -> bool {
    exists|a: (i32, i32), b: (i32, i32), c: (i32, i32)|
        #![trigger count_in(cells, a), count_in(cells, b), count_in(cells, c)]
        a != b && a != c && b != c && 2 * (count_in(cells, a) + count_in(cells, b) + count_in(
            cells,
            c,
        )) > total_count(cells)
}

/// The count at a position, 0 past the end.
spec fn count_at(cells: Seq<((i32, i32), u32)>, i: int) -> nat {
    if i < cells.len() {
        cells[i].1 as nat
    } else {
        0
    }
}

/// No cell occurs twice.
spec fn cells_differ(cells: Seq<((i32, i32), u32)>) -> bool {
    forall|i: int, j: int|
        #![trigger cells[i], cells[j]]
        0 <= i < j < cells.len() ==> cells[i].0 != cells[j].0
}

proof fn lemma_count_in(cells: Seq<((i32, i32), u32)>, i: int)
    requires
        cells_differ(cells),
        0 <= i < cells.len(),
    ensures
        count_in(cells, cells[i].0) == cells[i].1,
    decreases cells.len(),
{
    if i < cells.len() - 1 {
        assert(cells.drop_last()[i] == cells[i]);
        lemma_count_in(cells.drop_last(), i);
    }
}

proof fn lemma_count_in_absent(cells: Seq<((i32, i32), u32)>, cell: (i32, i32))
    requires
        forall|i: int| 0 <= i < cells.len() ==> (#[trigger] cells[i]).0 != cell,
    ensures
        count_in(cells, cell) == 0,
    decreases cells.len(),
{
    if cells.len() > 0 {
        assert forall|i: int| 0 <= i < cells.drop_last().len() implies (
        #[trigger] cells.drop_last()[i]).0 != cell by {
            assert(cells.drop_last()[i] == cells[i]);
        }
        assert(cells.last() == cells[cells.len() - 1]);
        lemma_count_in_absent(cells.drop_last(), cell);
    }
}

proof fn lemma_update(cells: Seq<((i32, i32), u32)>, at: int, n: u32)
    requires
        cells_differ(cells),
        0 <= at < cells.len(),
    ensures
        total_count(cells.update(at, (cells[at].0, n))) == total_count(cells) - cells[at].1 + n,
        forall|c: (i32, i32)|
            #[trigger] count_in(cells.update(at, (cells[at].0, n)), c) == if c == cells[at].0 {
                n as nat
            } else {
                count_in(cells, c)
            },
    decreases cells.len(),
{
    let after = cells.update(at, (cells[at].0, n));
    if at == cells.len() - 1 {
        assert(after.drop_last() =~= cells.drop_last());
    } else {
        assert(cells.drop_last()[at] == cells[at]);
        assert(after.drop_last() =~= cells.drop_last().update(at, (cells[at].0, n)));
        lemma_update(cells.drop_last(), at, n);
        assert(cells[at].0 != cells[cells.len() - 1].0);
    }
    assert forall|c: (i32, i32)|
        #[trigger] count_in(after, c) == if c == cells[at].0 {
            n as nat
        } else {
            count_in(cells, c)
        } by {
        if at < cells.len() - 1 {
            assert(count_in(cells.drop_last().update(at, (cells[at].0, n)), c) == if c
                == cells[at].0 {
                n as nat
            } else {
                count_in(cells.drop_last(), c)
            });
        }
    }
}

/// The cell of a place: half its latitude and half its longitude in degrees, each
/// rounded down.
pub open spec fn cell_of(lat: F64Bits, lon: F64Bits) -> (i32, i32) {
    (binary64::half_floor(lat) as i32, binary64::half_floor(lon) as i32)
}

/// The cells of places.
pub open spec fn cells_of(coords: Seq<(F64Bits, F64Bits)>) -> Seq<(i32, i32)> {
    coords.map_values(|c: (F64Bits, F64Bits)| cell_of(c.0, c.1))
}

/// The cell of a place.
pub fn cell_key(lat: F64Bits, lon: F64Bits) -> (r: (i32, i32))
    ensures
        r == cell_of(lat, lon),
        r.0 == binary64::half_floor(lat),
        r.1 == binary64::half_floor(lon),
{
    (binary64::floor_of_half(lat), binary64::floor_of_half(lon))
}

impl DiversityTracker {
    #[verifier::type_invariant]
    spec fn distinct(self) -> bool {
        cells_differ(self.cells@)
    }

    /// The occupied cells with their counts.
    pub closed spec fn occupied(&self) -> Seq<((i32, i32), u32)> {
        self.cells@
    }

    /// The count of a cell.
    pub open spec fn count(&self, cell: (i32, i32)) -> nat {
        count_in(self.occupied(), cell)
    }

    /// Whether there are at least six locations and some three cells hold more
    /// than half of them.
    pub open spec fn homogeneous(&self) -> bool {
        total_count(self.occupied()) >= 6 && three_hold_most(self.occupied())
    }

    /// A tracker without locations.
    pub fn new() -> (t: Self)
        ensures
            t.occupied() == Seq::<((i32, i32), u32)>::empty(),
            forall|c: (i32, i32)| #[trigger] t.count(c) == 0,
    {
        DiversityTracker { cells: Vec::new() }
    }

    fn find(&self, cell: (i32, i32)) -> (r: Option<usize>)
        ensures
            cells_differ(self.cells@),
            r matches Some(i) ==> i < self.cells@.len() && self.cells@[i as int].0 == cell,
            r is None ==> forall|i: int|
                0 <= i < self.cells@.len() ==> (#[trigger] self.cells@[i]).0 != cell,
    {
        proof {
            use_type_invariant(self);
        }
        let mut i: usize = 0;
        while i < self.cells.len()
            invariant
                i <= self.cells@.len(),
                cells_differ(self.cells@),
                forall|k: int| 0 <= k < i ==> (#[trigger] self.cells@[k]).0 != cell,
            decreases self.cells@.len() - i,
        {
            let c = self.cells[i].0;
            if c.0 == cell.0 && c.1 == cell.1 {
                return Some(i);
            }
            i = i + 1;
        }
        None
    }

    /// How many accepted locations fall into the cell of a place.
    pub fn occupancy(&self, lat: F64Bits, lon: F64Bits) -> (n: u32)
        ensures
            n == self.count(cell_of(lat, lon)),
    {
        let cell = cell_key(lat, lon);
        match self.find(cell) {
            Some(i) => {
                proof {
                    lemma_count_in(self.cells@, i as int);
                }
                self.cells[i].1
            },
            None => {
                proof {
                    lemma_count_in_absent(self.cells@, cell);
                }
                0
            },
        }
    }

    /// Registers a newly accepted location.
    pub fn accept(&mut self, lat: F64Bits, lon: F64Bits)
        requires
            old(self).count(cell_of(lat, lon)) < u32::MAX,
        ensures
            forall|c: (i32, i32)|
                #[trigger] final(self).count(c) == old(self).count(c) + (if c == cell_of(lat, lon) {
                    1nat
                } else {
                    0nat
                }),
            total_count(final(self).occupied()) == total_count(old(self).occupied()) + 1,
    {
        let cell = cell_key(lat, lon);
        let at = self.find(cell);
        let ghost before = self.cells@;
        match at {
            Some(i) => {
                proof {
                    lemma_count_in(before, i as int);
                    lemma_update(before, i as int, (before[i as int].1 + 1) as u32);
                    assert(before[i as int].1 < u32::MAX);
                }
                let mut cells: Vec<((i32, i32), u32)> = Vec::new();
                std::mem::swap(&mut cells, &mut self.cells);
                let n: u32 = cells[i].1 + 1;
                cells[i] = (cell, n);
                proof {
                    let after = cells@;
                    assert(after =~= before.update(i as int, (before[i as int].0, n)));
                    assert(cells_differ(after)) by {
                        assert forall|a: int, b: int|
                            #![trigger after[a], after[b]]
                            0 <= a < b < after.len() implies after[a].0 != after[b].0 by {
                            assert(after[a].0 == before[a].0 && after[b].0 == before[b].0);
                            assert(before[a].0 != before[b].0);
                        }
                    }
                    assert forall|c: (i32, i32)|
                        #[trigger] count_in(after, c) == count_in(before, c) + (if c == cell {
                            1nat
                        } else {
                            0nat
                        }) by {}
                }
                self.cells = cells;
            },
            None => {
                let mut cells: Vec<((i32, i32), u32)> = Vec::new();
                std::mem::swap(&mut cells, &mut self.cells);
                cells.push((cell, 1));
                proof {
                    let after = cells@;
                    assert(after.drop_last() =~= before);
                    lemma_count_in_absent(before, cell);
                    assert(cells_differ(after)) by {
                        assert forall|a: int, b: int|
                            #![trigger after[a], after[b]]
                            0 <= a < b < after.len() implies after[a].0 != after[b].0 by {
                            assert(after[a] == before[a]);
                            if b < before.len() {
                                assert(after[b] == before[b]);
                            }
                        }
                    }
                }
                self.cells = cells;
            },
        }
    }

    /// Builds a tracker from existing locations.
    pub fn from_coords(coords: &Vec<(F64Bits, F64Bits)>) -> (t: Self)
        requires
            coords@.len() <= u32::MAX,
        ensures
            forall|c: (i32, i32)| #[trigger] t.count(c) == cells_of(coords@).to_multiset().count(c),
            total_count(t.occupied()) == coords@.len(),
    {
        let mut t = DiversityTracker::new();
        let mut i: usize = 0;
        let ghost cells = cells_of(coords@);
        proof {
            broadcast use vstd::seq_lib::group_to_multiset_ensures;

            assert(cells.take(0).to_multiset().len() == 0);
            assert(cells.take(0) =~= Seq::empty());
        }
        while i < coords.len()
            invariant
                i <= coords@.len(),
                coords@.len() <= u32::MAX,
                cells == cells_of(coords@),
                forall|c: (i32, i32)|
                    #[trigger] t.count(c) == cells.take(i as int).to_multiset().count(c),
                total_count(t.occupied()) == i,
            decreases coords@.len() - i,
        {
            broadcast use vstd::seq_lib::group_to_multiset_ensures;

            let ghost part = cells.take(i as int);
            let ghost cell = cells[i as int];
            assert(cells.take(i as int + 1) =~= part.push(cell));
            assert(part.to_multiset().count(cell) <= part.to_multiset().len());
            assert(part.to_multiset().len() == i);
            let (lat, lon) = coords[i];
            assert(t.count(cell_of(lat, lon)) == part.to_multiset().count(cell));
            t.accept(lat, lon);
            i = i + 1;
        }
        assert(cells.take(cells.len() as int) =~= cells);
        t
    }

    /// Whether there are at least six locations and the three most-sampled cells
    /// hold more than half of them.
    pub fn is_homogeneous(&self) -> (r: bool)
        ensures
            r == self.homogeneous(),
    {
        proof {
            use_type_invariant(self);
        }
        let n: usize = self.cells.len();
        let ghost cells = self.cells@;
        let mut total: u128 = 0;
        let mut a: u64 = 0;
        let mut b: u64 = 0;
        let mut c: u64 = 0;
        let ghost mut ia: int = n as int;
        let ghost mut ib: int = n + 1;
        let ghost mut ic: int = n + 2;
        let mut i: usize = 0;
        assert(cells.take(0) =~= Seq::empty());
        while i < n
            invariant
                i <= n,
                n == cells.len(),
                cells == self.cells@,
                total == total_count(cells.take(i as int)),
                total <= i * u32::MAX,
                u32::MAX >= a >= b >= c,
                0 <= ia < n + 3,
                0 <= ib < n + 3,
                0 <= ic < n + 3,
                ia != ib && ia != ic && ib != ic,
                ia < i || ia == n,
                ib < i || ib == n + 1 || ib == n,
                ic < i || ic == n + 2 || ic == n + 1 || ic == n,
                a == count_at(cells, ia),
                b == count_at(cells, ib),
                c == count_at(cells, ic),
                forall|k: int|
                    0 <= k < i && k != ia && k != ib && k != ic ==> #[trigger] count_at(cells, k)
                        <= c,
            decreases n - i,
        {
            let v: u32 = self.cells[i].1;
            assert(cells.take(i as int + 1).drop_last() =~= cells.take(i as int));
            assert((i + 1) * u32::MAX == i * u32::MAX + u32::MAX) by (nonlinear_arith);
            assert(i * u32::MAX <= u64::MAX * u32::MAX) by (nonlinear_arith)
                requires
                    i <= u64::MAX,
            ;
            total = total + v as u128;
            assert(count_at(cells, i as int) == v);
            let w: u64 = v as u64;
            if w > a {
                c = b;
                b = a;
                a = w;
                proof {
                    ic = ib;
                    ib = ia;
                    ia = i as int;
                }
            } else if w > b {
                c = b;
                b = w;
                proof {
                    ic = ib;
                    ib = i as int;
                }
            } else if w > c {
                c = w;
                proof {
                    ic = i as int;
                }
            }
            i = i + 1;
        }
        assert(cells.take(n as int) =~= cells);
        let most: bool = 2 * (a as u128 + b as u128 + c as u128) > total;
        proof {
            if most {
                lemma_positions_hold_most(cells, ia, ib, ic);
            }
            if three_hold_most(cells) {
                let (x, y, z) = choose|x: (i32, i32), y: (i32, i32), z: (i32, i32)|
                    #![trigger count_in(cells, x), count_in(cells, y), count_in(cells, z)]
                    x != y && x != z && y != z && 2 * (count_in(cells, x) + count_in(cells, y)
                        + count_in(cells, z)) > total_count(cells);
                let px = position(cells, x, n as int);
                let py = position(cells, y, n + 1);
                let pz = position(cells, z, n + 2);
                lemma_position(cells, x, n as int);
                lemma_position(cells, y, n + 1);
                lemma_position(cells, z, n + 2);
                assert(count_at(cells, px) + count_at(cells, py) + count_at(cells, pz) <= a + b + c);
            }
        }
        total >= 6 && most
    }
}

/// Where a cell stands, `spare` where it is not occupied.
spec fn position(cells: Seq<((i32, i32), u32)>, cell: (i32, i32), spare: int) -> int {
    if exists|i: int| 0 <= i < cells.len() && (#[trigger] cells[i]).0 == cell {
        choose|i: int| 0 <= i < cells.len() && (#[trigger] cells[i]).0 == cell
    } else {
        spare
    }
}

proof fn lemma_position(cells: Seq<((i32, i32), u32)>, cell: (i32, i32), spare: int)
    requires
        cells_differ(cells),
        spare >= cells.len(),
    ensures
        ({
            let i = position(cells, cell, spare);
            &&& count_at(cells, i) == count_in(cells, cell)
            &&& i == spare || (0 <= i < cells.len() && cells[i].0 == cell)
        }),
{
    if exists|i: int| 0 <= i < cells.len() && (#[trigger] cells[i]).0 == cell {
        lemma_count_in(cells, position(cells, cell, spare));
    } else {
        lemma_count_in_absent(cells, cell);
    }
}

/// A cell other than two given ones.
spec fn another(a: (i32, i32), b: (i32, i32)) -> (i32, i32) {
    if a != (0i32, 0i32) && b != (0i32, 0i32) {
        (0i32, 0i32)
    } else if a != (0i32, 1i32) && b != (0i32, 1i32) {
        (0i32, 1i32)
    } else {
        (0i32, 2i32)
    }
}

proof fn lemma_positions_hold_most(cells: Seq<((i32, i32), u32)>, x: int, y: int, z: int)
    requires
        cells_differ(cells),
        0 <= x && 0 <= y && 0 <= z,
        x != y && y != z && x != z,
        2 * (count_at(cells, x) + count_at(cells, y) + count_at(cells, z)) > total_count(cells),
    ensures
        three_hold_most(cells),
    decreases
            (if x < cells.len() {
                0int
            } else {
                4
            }) + (if y < cells.len() {
                0int
            } else {
                2
            }) + (if z < cells.len() {
                0int
            } else {
                1
            }),
{
    let n = cells.len() as int;
    if x >= n && (y < n || z < n) {
        if y < n {
            lemma_positions_hold_most(cells, y, x, z);
        } else {
            lemma_positions_hold_most(cells, z, y, x);
        }
    } else if y >= n && z < n {
        lemma_positions_hold_most(cells, x, z, y);
    } else {
        let a = if x < n {
            cells[x].0
        } else {
            (0i32, 0i32)
        };
        let b = if y < n {
            cells[y].0
        } else {
            another(a, a)
        };
        let c = if z < n {
            cells[z].0
        } else {
            another(a, b)
        };
        if x < n {
            lemma_count_in(cells, x);
        }
        if y < n {
            lemma_count_in(cells, y);
            assert(cells[x].0 != cells[y].0);
        }
        if z < n {
            lemma_count_in(cells, z);
            assert(cells[x].0 != cells[z].0);
            assert(cells[y].0 != cells[z].0);
        }
        assert(count_in(cells, a) + count_in(cells, b) + count_in(cells, c) >= count_at(cells, x)
            + count_at(cells, y) + count_at(cells, z));
    }
}

/// Whether no cell holds more of these locations than `a`, none but `a` more than
/// `b`, and none but these two more than `c`.
pub open spec fn are_fullest(
    coords: Seq<(F64Bits, F64Bits)>,
    a: (i32, i32),
    b: (i32, i32),
    c: (i32, i32),
) -> bool {
    let held = cells_of(coords).to_multiset();
    &&& a != b && a != c && b != c
    &&& held.count(a) >= held.count(b) >= held.count(c)
    &&& forall|d: (i32, i32)|
        d != a && d != b && d != c ==> #[trigger] held.count(d) <= held.count(c)
}

/// The locations are all in one area exactly where there are at least six and the
/// three fullest cells hold more than half of them, whatever their order.
pub proof fn law_three_fullest_cells_decide(
    t: DiversityTracker,
    coords: Seq<(F64Bits, F64Bits)>,
    a: (i32, i32),
    b: (i32, i32),
    c: (i32, i32),
)
    requires
        forall|d: (i32, i32)| #[trigger] t.count(d) == cells_of(coords).to_multiset().count(d),
        total_count(t.occupied()) == coords.len(),
        are_fullest(coords, a, b, c),
    ensures
        ({
            let held = cells_of(coords).to_multiset();
            t.homogeneous() == (coords.len() >= 6 && 2 * (held.count(a) + held.count(b)
                + held.count(c)) > coords.len())
        }),
{
    let cells = t.occupied();
    let held = cells_of(coords).to_multiset();
    assert forall|d: (i32, i32)| #[trigger] count_in(cells, d) == held.count(d) by {
        assert(t.count(d) == held.count(d));
    }
    let most = 2 * (held.count(a) + held.count(b) + held.count(c)) > coords.len();
    if most {
        assert(2 * (count_in(cells, a) + count_in(cells, b) + count_in(cells, c)) > total_count(
            cells,
        ));
    }
    if three_hold_most(cells) {
        let (x, y, z) = choose|x: (i32, i32), y: (i32, i32), z: (i32, i32)|
            #![trigger count_in(cells, x), count_in(cells, y), count_in(cells, z)]
            x != y && x != z && y != z && 2 * (count_in(cells, x) + count_in(cells, y) + count_in(
                cells,
                z,
            )) > total_count(cells);
        assert(held.count(x) + held.count(y) + held.count(z) <= held.count(a) + held.count(b)
            + held.count(c));
    }
}

} // verus!
