use vstd::prelude::*;

verus! {

/// Largest magnitude of a slope's numerator or denominator that the scan
/// produces (both are odd numbers bounded by `2 * radius + 1`).
pub const SLOPE_BOUND: i64 = 8589934592;

/// A slope `num / den` with a positive denominator, compared exactly.
#[derive(Clone, Copy, Debug)]
pub struct Slope {
    pub num: i64,
    pub den: i64,
}

impl Slope {
    pub open spec fn view(&self) -> (int, int) {
        (self.num as int, self.den as int)
    }

    pub open spec fn wf(&self) -> bool {
        -SLOPE_BOUND <= self.num <= SLOPE_BOUND && 1 <= self.den <= SLOPE_BOUND
    }

    /// `self < other` as rational numbers.
    pub fn less_than(&self, other: &Slope) -> (r: bool)
        requires
            self.wf(),
            other.wf(),
        ensures
            r == frac_lt(self@, other@),
    {
        let a = self.num as i128;
        let b = self.den as i128;
        let c = other.num as i128;
        let d = other.den as i128;
        assert(-SLOPE_BOUND * SLOPE_BOUND <= a * d <= SLOPE_BOUND * SLOPE_BOUND) by (nonlinear_arith)
            requires
                -SLOPE_BOUND <= a <= SLOPE_BOUND,
                1 <= d <= SLOPE_BOUND,
        ;
        assert(-SLOPE_BOUND * SLOPE_BOUND <= c * b <= SLOPE_BOUND * SLOPE_BOUND) by (nonlinear_arith)
            requires
                -SLOPE_BOUND <= c <= SLOPE_BOUND,
                1 <= b <= SLOPE_BOUND,
        ;
        a * d < c * b
    }
}

/// `a < b` for fractions with positive denominators.
pub open spec fn frac_lt(a: (int, int), b: (int, int)) -> bool {
    a.0 * b.1 < b.0 * a.1
}

/// One of the eight octant transforms `(xx, xy, yx, yy)`: a local offset
/// `(dx, dy)` lands at `(dx * xx + dy * xy, dx * yx + dy * yy)` from the observer.
pub open spec fn octant(k: int) -> (int, int, int, int) {
    if k == 0 {
        (1, 0, 0, 1)
    } else if k == 1 {
        (0, 1, 1, 0)
    } else if k == 2 {
        (0, -1, 1, 0)
    } else if k == 3 {
        (-1, 0, 0, 1)
    } else if k == 4 {
        (-1, 0, 0, -1)
    } else if k == 5 {
        (0, -1, -1, 0)
    } else if k == 6 {
        (0, 1, -1, 0)
    } else {
        (1, 0, 0, -1)
    }
}

/// What one octant scan reads: the obstacle layer `obs[x][y]` of a `w` by
/// `h` grid, the observer `(cx, cy)`, the radius and the octant transform.
pub struct Scan {
    pub obs: Seq<Seq<bool>>,
    pub w: int,
    pub h: int,
    pub cx: int,
    pub cy: int,
    pub r: int,
    pub oct: (int, int, int, int),
}

/// Slope through the near corner of local cell `(dx, -i)`: `(dx - 1/2) / (-i + 1/2)`.
pub open spec fn left_slope(i: int, dx: int) -> (int, int) {
    (1 - 2 * dx, 2 * i - 1)
}

/// Slope through the far corner of local cell `(dx, -i)`: `(dx + 1/2) / (-i - 1/2)`.
pub open spec fn right_slope(i: int, dx: int) -> (int, int) {
    (-2 * dx - 1, 2 * i + 1)
}

/// The cells seen by the recursive shadowcast of one octant from local row
/// `row` on, within the slope interval `[end, start]`, added to `seen`.
pub open spec fn cast_spec(s: Scan, row: int, start: (int, int), end: (int, int), seen: Set<(int, int)>) -> Set<(int, int)>
    decreases s.r + 1 - row, 2int, 0int,
{
    if frac_lt(start, end) || row > s.r {
        seen
    } else {
        scan_rows(s, row, start, start, end, seen)
    }
}

/// Rows `i..=r` of a scan; a row that ends inside a run of obstacles ends the scan.
pub open spec fn scan_rows(
    s: Scan,
    i: int,
    start: (int, int),
    next: (int, int),
    end: (int, int),
    seen: Set<(int, int)>,
) -> Set<(int, int)>
    decreases s.r + 1 - i, 1int, 0int,
{
    if i > s.r {
        seen
    } else {
        let st = scan_cols(s, i, -i, false, start, next, end, seen);
        if st.1 {
            st.0
        } else {
            scan_rows(s, i + 1, st.2, st.3, end, st.0)
        }
    }
}

/// Columns `dx..=0` of row `i`: returns the cells seen, whether the row ended
/// inside a run of obstacles, and the current and next start slopes.
pub open spec fn scan_cols(
    s: Scan,
    i: int,
    dx: int,
    blocked: bool,
    start: (int, int),
    next: (int, int),
    end: (int, int),
    seen: Set<(int, int)>,
) -> (Set<(int, int)>, bool, (int, int), (int, int))
    decreases s.r + 1 - i, 0int, 1 - dx,
{
    if i > s.r || dx > 0 {
        (seen, blocked, start, next)
    } else {
        let l = left_slope(i, dx);
        let rs = right_slope(i, dx);
        if frac_lt(start, rs) {
            scan_cols(s, i, dx + 1, blocked, start, next, end, seen)
        } else if frac_lt(l, end) {
            (seen, blocked, start, next)
        } else {
            let mx = s.cx + dx * s.oct.0 + (-i) * s.oct.1;
            let my = s.cy + dx * s.oct.2 + (-i) * s.oct.3;
            if mx < 0 || my < 0 || mx >= s.w || my >= s.h {
                scan_cols(s, i, dx + 1, blocked, start, next, end, seen)
            } else {
                let seen2 = if dx * dx + i * i < s.r * s.r {
                    seen.insert((mx, my))
                } else {
                    seen
                };
                if blocked {
                    if s.obs[mx][my] {
                        scan_cols(s, i, dx + 1, true, start, rs, end, seen2)
                    } else {
                        scan_cols(s, i, dx + 1, false, next, next, end, seen2)
                    }
                } else if s.obs[mx][my] {
                    scan_cols(s, i, dx + 1, true, start, rs, end, cast_spec(s, i + 1, start, l, seen2))
                } else {
                    scan_cols(s, i, dx + 1, false, start, next, end, seen2)
                }
            }
        }
    }
}

/// Octants `k..8` scanned in turn, from local row 1 over the slopes `[0, 1]`.
pub open spec fn scan_octants(
    obs: Seq<Seq<bool>>,
    w: int,
    h: int,
    cx: int,
    cy: int,
    r: int,
    k: int,
    seen: Set<(int, int)>,
) -> Set<(int, int)>
    decreases 8 - k,
{
    if k >= 8 {
        seen
    } else {
        let s = Scan { obs, w, h, cx, cy, r, oct: octant(k) };
        scan_octants(obs, w, h, cx, cy, r, k + 1, cast_spec(s, 1, (1, 1), (0, 1), seen))
    }
}

/// The cells visible from `(cx, cy)` within radius `r` over the obstacle
/// layer `obs` of a `w` by `h` grid: what the eight octant scans see, and
/// the observer's own cell.
pub open spec fn visible_cells(obs: Seq<Seq<bool>>, w: int, h: int, cx: int, cy: int, r: int) -> Set<(int, int)> {
    scan_octants(obs, w, h, cx, cy, r, 0, Set::empty()).insert((cx, cy))
}

/// With a radius of zero or less, exactly the observer's own cell is visible:
/// no row of any octant is scanned.
pub proof fn lemma_radius_zero_sees_only_observer(obs: Seq<Seq<bool>>, w: int, h: int, cx: int, cy: int, r: int)
    requires
        r <= 0,
    ensures
        visible_cells(obs, w, h, cx, cy, r) == Set::<(int, int)>::empty().insert((cx, cy)),
{
    reveal_with_fuel(scan_octants, 9);
    let e = Set::<(int, int)>::empty();
    assert forall|k: int| 0 <= k < 8 implies cast_spec(
        Scan { obs, w, h, cx, cy, r, oct: octant(k) },
        1,
        (1, 1),
        (0, 1),
        e,
    ) == e by {}
    assert(scan_octants(obs, w, h, cx, cy, r, 0, e) == e);
}

/// Recomputing the sight layer from the same observer and radius, over the
/// obstacle layer that the first computation left in place, gives the same
/// cells in sight.
pub proof fn lemma_recompute_same_sight(m0: FovMap, m1: FovMap, m2: FovMap, cx: int, cy: int, r: int)
    requires
        m1.same_obstacles(&m0),
        m1.sight() == visible_cells(m0.obstacles(), m0.width(), m0.height(), cx, cy, r),
        m2.same_obstacles(&m1),
        m2.sight() == visible_cells(m1.obstacles(), m1.width(), m1.height(), cx, cy, r),
    ensures
        m2.sight() == m1.sight(),
        forall|x: int, y: int| #[trigger] m2.in_bounds(x, y) ==> m2.in_sight(x, y) == m1.in_sight(x, y),
{
    assert(m1.obstacles() =~~= m0.obstacles());
    assert forall|x: int, y: int| #[trigger] m2.in_bounds(x, y) implies m2.in_sight(x, y) == m1.in_sight(x, y) by {
        assert(m2.sight().contains((x, y)) == m1.sight().contains((x, y)));
    }
}

/// Cell `c` lies in the scan's grid, strictly within its radius of the observer.
pub open spec fn near(s: Scan, c: (int, int)) -> bool {
    &&& 0 <= c.0 < s.w
    &&& 0 <= c.1 < s.h
    &&& (c.0 - s.cx) * (c.0 - s.cx) + (c.1 - s.cy) * (c.1 - s.cy) < s.r * s.r
}

pub open spec fn all_near(s: Scan, cells: Set<(int, int)>) -> bool {
    forall|c: (int, int)| #[trigger] cells.contains(c) ==> near(s, c)
}

/// The octant transforms keep distances.
proof fn lemma_octant_keeps_distance(k: int, dx: int, i: int)
    requires
        0 <= k < 8,
    ensures
        ({
            let o = octant(k);
            let fx = dx * o.0 + (-i) * o.1;
            let fy = dx * o.2 + (-i) * o.3;
            fx * fx + fy * fy == dx * dx + i * i
        }),
{
    let o = octant(k);
    let fx = dx * o.0 + (-i) * o.1;
    let fy = dx * o.2 + (-i) * o.3;
    if o.0 == 0 {
        assert(fy == dx || fy == -dx) by (nonlinear_arith)
            requires
                fy == dx * o.2 + (-i) * o.3,
                o.3 == 0,
                o.2 == 1 || o.2 == -1,
        ;
        assert(fx == i || fx == -i) by (nonlinear_arith)
            requires
                fx == dx * o.0 + (-i) * o.1,
                o.0 == 0,
                o.1 == 1 || o.1 == -1,
        ;
    } else {
        assert(fx == dx || fx == -dx) by (nonlinear_arith)
            requires
                fx == dx * o.0 + (-i) * o.1,
                o.1 == 0,
                o.0 == 1 || o.0 == -1,
        ;
        assert(fy == i || fy == -i) by (nonlinear_arith)
            requires
                fy == dx * o.2 + (-i) * o.3,
                o.2 == 0,
                o.3 == 1 || o.3 == -1,
        ;
    }
    assert(fx * fx + fy * fy == dx * dx + i * i) by (nonlinear_arith)
        requires
            fx == dx || fx == -dx || fx == i || fx == -i,
            fy == dx || fy == -dx || fy == i || fy == -i,
            (fx == dx || fx == -dx) ==> (fy == i || fy == -i),
            (fx == i || fx == -i) ==> (fy == dx || fy == -dx),
    ;
}

proof fn lemma_cast_near(s: Scan, k: int, row: int, start: (int, int), end: (int, int), seen: Set<(int, int)>)
    requires
        0 <= k < 8,
        s.oct == octant(k),
        all_near(s, seen),
    ensures
        all_near(s, cast_spec(s, row, start, end, seen)),
    decreases s.r + 1 - row, 2int, 0int,
{
    if !(frac_lt(start, end) || row > s.r) {
        lemma_rows_near(s, k, row, start, start, end, seen);
    }
}

proof fn lemma_rows_near(
    s: Scan,
    k: int,
    i: int,
    start: (int, int),
    next: (int, int),
    end: (int, int),
    seen: Set<(int, int)>,
)
    requires
        0 <= k < 8,
        s.oct == octant(k),
        all_near(s, seen),
    ensures
        all_near(s, scan_rows(s, i, start, next, end, seen)),
    decreases s.r + 1 - i, 1int, 0int,
{
    if i <= s.r {
        lemma_cols_near(s, k, i, -i, false, start, next, end, seen);
        let st = scan_cols(s, i, -i, false, start, next, end, seen);
        if !st.1 {
            lemma_rows_near(s, k, i + 1, st.2, st.3, end, st.0);
        }
    }
}

proof fn lemma_cols_near(
    s: Scan,
    k: int,
    i: int,
    dx: int,
    blocked: bool,
    start: (int, int),
    next: (int, int),
    end: (int, int),
    seen: Set<(int, int)>,
)
    requires
        0 <= k < 8,
        s.oct == octant(k),
        all_near(s, seen),
    ensures
        all_near(s, scan_cols(s, i, dx, blocked, start, next, end, seen).0),
    decreases s.r + 1 - i, 0int, 1 - dx,
{
    if !(i > s.r || dx > 0) {
        let l = left_slope(i, dx);
        let rs = right_slope(i, dx);
        if frac_lt(start, rs) {
            lemma_cols_near(s, k, i, dx + 1, blocked, start, next, end, seen);
        } else if frac_lt(l, end) {
        } else {
            let mx = s.cx + dx * s.oct.0 + (-i) * s.oct.1;
            let my = s.cy + dx * s.oct.2 + (-i) * s.oct.3;
            if mx < 0 || my < 0 || mx >= s.w || my >= s.h {
                lemma_cols_near(s, k, i, dx + 1, blocked, start, next, end, seen);
            } else {
                let seen2 = if dx * dx + i * i < s.r * s.r {
                    seen.insert((mx, my))
                } else {
                    seen
                };
                lemma_octant_keeps_distance(k, dx, i);
                assert(all_near(s, seen2)) by {
                    assert((mx - s.cx) == dx * s.oct.0 + (-i) * s.oct.1);
                    assert((my - s.cy) == dx * s.oct.2 + (-i) * s.oct.3);
                }
                if blocked {
                    if s.obs[mx][my] {
                        lemma_cols_near(s, k, i, dx + 1, true, start, rs, end, seen2);
                    } else {
                        lemma_cols_near(s, k, i, dx + 1, false, next, next, end, seen2);
                    }
                } else if s.obs[mx][my] {
                    lemma_cast_near(s, k, i + 1, start, l, seen2);
                    lemma_cols_near(s, k, i, dx + 1, true, start, rs, end, cast_spec(s, i + 1, start, l, seen2));
                } else {
                    lemma_cols_near(s, k, i, dx + 1, false, start, next, end, seen2);
                }
            }
        }
    }
}

proof fn lemma_octants_near(obs: Seq<Seq<bool>>, w: int, h: int, cx: int, cy: int, r: int, k: int, seen: Set<(int, int)>)
    requires
        0 <= k <= 8,
        all_near(Scan { obs, w, h, cx, cy, r, oct: octant(0) }, seen),
    ensures
        all_near(Scan { obs, w, h, cx, cy, r, oct: octant(0) }, scan_octants(obs, w, h, cx, cy, r, k, seen)),
    decreases 8 - k,
{
    if k < 8 {
        let s = Scan { obs, w, h, cx, cy, r, oct: octant(k) };
        lemma_cast_near(s, k, 1, (1, 1), (0, 1), seen);
        lemma_octants_near(obs, w, h, cx, cy, r, k + 1, cast_spec(s, 1, (1, 1), (0, 1), seen));
    }
}

/// Every visible cell but the observer's own lies in the grid, strictly
/// within the radius.
pub proof fn lemma_visible_within_radius(obs: Seq<Seq<bool>>, w: int, h: int, cx: int, cy: int, r: int, c: (int, int))
    requires
        visible_cells(obs, w, h, cx, cy, r).contains(c),
        c != (cx, cy),
    ensures
        0 <= c.0 < w && 0 <= c.1 < h,
        (c.0 - cx) * (c.0 - cx) + (c.1 - cy) * (c.1 - cy) < r * r,
{
    lemma_octants_near(obs, w, h, cx, cy, r, 0, Set::empty());
    assert(scan_octants(obs, w, h, cx, cy, r, 0, Set::empty()).contains(c));
}

/// An octant transform with coefficients in `{-1, 0, 1}`.
#[derive(Clone, Copy, Debug)]
pub struct Octant {
    pub xx: i64,
    pub xy: i64,
    pub yx: i64,
    pub yy: i64,
}

impl Octant {
    pub open spec fn view(&self) -> (int, int, int, int) {
        (self.xx as int, self.xy as int, self.yx as int, self.yy as int)
    }

    /// The `k`-th transform of the fixed table.
    pub fn nth(k: usize) -> (r: Octant)
        requires
            k < 8,
        ensures
            r@ == octant(k as int),
    {
        if k == 0 {
            Octant { xx: 1, xy: 0, yx: 0, yy: 1 }
        } else if k == 1 {
            Octant { xx: 0, xy: 1, yx: 1, yy: 0 }
        } else if k == 2 {
            Octant { xx: 0, xy: -1, yx: 1, yy: 0 }
        } else if k == 3 {
            Octant { xx: -1, xy: 0, yx: 0, yy: 1 }
        } else if k == 4 {
            Octant { xx: -1, xy: 0, yx: 0, yy: -1 }
        } else if k == 5 {
            Octant { xx: 0, xy: -1, yx: -1, yy: 0 }
        } else if k == 6 {
            Octant { xx: 0, xy: 1, yx: -1, yy: 0 }
        } else {
            Octant { xx: 1, xy: 0, yx: 0, yy: -1 }
        }
    }
}

/// `a * m` for a coefficient `m` in `{-1, 0, 1}`.
fn times_unit(a: i64, m: i64) -> (r: i64)
    requires
        -1 <= m <= 1,
        -SLOPE_BOUND <= a <= SLOPE_BOUND,
    ensures
        r == a * m,
        -SLOPE_BOUND <= r <= SLOPE_BOUND,
{
    if m == 1 {
        a
    } else if m == -1 {
        assert(a * m == -a) by (nonlinear_arith)
            requires
                m == -1,
        ;
        -a
    } else {
        assert(a * m == 0) by (nonlinear_arith)
            requires
                m == 0,
        ;
        0
    }
}

/// The visibility map: per cell, whether it blocks sight (written by the
/// owner) and whether it is currently in sight (written by `compute_fov`).
/// Indexed `[x][y]`.
#[derive(Debug)]
pub struct FovMap {
    map: Vec<Vec<(bool, bool)>>,
}

impl FovMap {
    pub closed spec fn cells(&self) -> Seq<Seq<(bool, bool)>> {
        Seq::new(self.map@.len(), |x: int| self.map@[x]@)
    }

    pub open spec fn width(&self) -> int {
        self.cells().len() as int
    }

    pub open spec fn height(&self) -> int {
        if self.cells().len() == 0 {
            0
        } else {
            self.cells()[0].len() as int
        }
    }

    pub open spec fn in_bounds(&self, x: int, y: int) -> bool {
        0 <= x < self.width() && 0 <= y < self.height()
    }

    /// Every column has the same height, and both dimensions fit an `i32`.
    pub open spec fn wf(&self) -> bool {
        &&& self.width() <= i32::MAX
        &&& self.height() <= i32::MAX
        &&& forall|x: int| 0 <= x < self.width() ==> #[trigger] self.cells()[x].len() == self.height()
    }

    pub open spec fn obstacle(&self, x: int, y: int) -> bool {
        self.cells()[x][y].0
    }

    pub open spec fn in_sight(&self, x: int, y: int) -> bool {
        self.cells()[x][y].1
    }

    /// The obstacle layer, indexed `[x][y]`.
    pub open spec fn obstacles(&self) -> Seq<Seq<bool>> {
        Seq::new(self.width() as nat, |x: int| Seq::new(self.height() as nat, |y: int| self.obstacle(x, y)))
    }

    /// The cells currently in sight.
    pub open spec fn sight(&self) -> Set<(int, int)> {
        Set::new(|c: (int, int)| self.in_bounds(c.0, c.1) && self.in_sight(c.0, c.1))
    }

    /// Same dimensions and the same obstacle layer as `other`.
    pub open spec fn same_obstacles(&self, other: &FovMap) -> bool {
        &&& self.width() == other.width()
        &&& self.height() == other.height()
        &&& forall|x: int, y: int| self.in_bounds(x, y) ==> #[trigger] self.obstacle(x, y) == other.obstacle(x, y)
    }

    /// A map of `width` columns and `height` rows, nothing blocking and
    /// nothing in sight.
    pub fn new(width: i32, height: i32) -> (r: FovMap)
        requires
            width >= 0,
            height >= 0,
        ensures
            r.wf(),
            r.width() == width,
            r.height() == if width == 0 { 0 } else { height as int },
            forall|x: int, y: int| #[trigger] r.in_bounds(x, y) ==> !r.obstacle(x, y) && !r.in_sight(x, y),
    {
        let mut map: Vec<Vec<(bool, bool)>> = Vec::new();
        let mut i: i32 = 0;
        while i < width
            invariant
                0 <= i <= width,
                height >= 0,
                map@.len() == i,
                forall|x: int| 0 <= x < i ==> (#[trigger] map@[x])@ == Seq::new(height as nat, |y: int| (false, false)),
            decreases width - i,
        {
            let mut column: Vec<(bool, bool)> = Vec::new();
            let mut j: i32 = 0;
            assert(column@ =~= Seq::new(0, |y: int| (false, false)));
            while j < height
                invariant
                    0 <= j <= height,
                    column@ == Seq::new(j as nat, |y: int| (false, false)),
                decreases height - j,
            {
                column.push((false, false));
                j = j + 1;
                assert(column@ =~= Seq::new(j as nat, |y: int| (false, false)));
            }
            map.push(column);
            i = i + 1;
        }
        let r = FovMap { map };
        assert(forall|x: int| 0 <= x < r.width() ==> #[trigger] r.cells()[x] == r.map@[x]@);
        r
    }

    pub fn get_width(&self) -> (r: usize)
        ensures
            r == self.width(),
    {
        self.map.len()
    }

    pub fn get_height(&self) -> (r: usize)
        ensures
            r == self.height(),
    {
        if self.map.len() == 0 {
            0
        } else {
            self.map[0].len()
        }
    }

    /// Records whether cell `(x, y)` blocks sight.
    pub fn set(&mut self, x: i32, y: i32, val: bool)
        requires
            old(self).wf(),
            old(self).in_bounds(x as int, y as int),
        ensures
            final(self).wf(),
            final(self).width() == old(self).width(),
            final(self).height() == old(self).height(),
            final(self).sight() == old(self).sight(),
            final(self).obstacle(x as int, y as int) == val,
            forall|a: int, b: int| final(self).in_bounds(a, b) && (a, b) != (x as int, y as int)
                ==> #[trigger] final(self).obstacle(a, b) == old(self).obstacle(a, b),
            forall|a: int, b: int| final(self).in_bounds(a, b) ==> #[trigger] final(self).in_sight(a, b) == old(self).in_sight(a, b),
    {
        proof { self.lemma_cells(); }
        self.map[x as usize][y as usize].0 = val;
        proof { self.lemma_cells(); }
        assert(self.sight() =~= old(self).sight());
    }

    pub fn is_obstacle(&self, x: i32, y: i32) -> (r: bool)
        requires
            self.wf(),
            self.in_bounds(x as int, y as int),
        ensures
            r == self.obstacle(x as int, y as int),
    {
        proof { self.lemma_cells(); }
        self.map[x as usize][y as usize].0
    }

    pub fn is_in_sight(&self, x: i32, y: i32) -> (r: bool)
        requires
            self.wf(),
            self.in_bounds(x as int, y as int),
        ensures
            r == self.in_sight(x as int, y as int),
    {
        proof { self.lemma_cells(); }
        self.map[x as usize][y as usize].1
    }


    /// The map's dimensions and obstacle layer are those of the scan `s`.
    pub open spec fn matches_scan(&self, s: Scan) -> bool {
        &&& self.wf()
        &&& self.width() == s.w
        &&& self.height() == s.h
        &&& forall|x: int, y: int| self.in_bounds(x, y) ==> #[trigger] self.obstacle(x, y) == s.obs[x][y]
    }

    fn obstacle_at(&self, x: usize, y: usize) -> (r: bool)
        requires
            self.wf(),
            self.in_bounds(x as int, y as int),
        ensures
            r == self.obstacle(x as int, y as int),
    {
        proof { self.lemma_cells(); }
        self.map[x][y].0
    }

    /// Marks cell `(x, y)` as in sight.
    fn mark(&mut self, x: usize, y: usize)
        requires
            old(self).wf(),
            old(self).in_bounds(x as int, y as int),
        ensures
            final(self).wf(),
            final(self).same_obstacles(old(self)),
            final(self).sight() == old(self).sight().insert((x as int, y as int)),
    {
        proof { self.lemma_cells(); }
        self.map[x][y].1 = true;
        proof { self.lemma_cells(); }
        assert(self.sight() =~= old(self).sight().insert((x as int, y as int)));
    }

    /// Clears the sight layer.
    fn reset(&mut self)
        requires
            old(self).wf(),
        ensures
            final(self).wf(),
            final(self).same_obstacles(old(self)),
            final(self).sight() == Set::<(int, int)>::empty(),
    {
        proof { self.lemma_cells(); }
        let ghost orig = *self;
        let mut i: usize = 0;
        while i < self.map.len()
            invariant
                0 <= i <= self.map@.len(),
                self.map@.len() == orig.map@.len(),
                forall|x: int| 0 <= x < self.map@.len() ==> (#[trigger] self.map@[x])@.len() == orig.map@[x]@.len(),
                forall|x: int, y: int| 0 <= x < self.map@.len() && 0 <= y < self.map@[x]@.len()
                    ==> (#[trigger] self.map@[x]@[y]).0 == orig.map@[x]@[y].0,
                forall|x: int, y: int| 0 <= x < i && 0 <= y < self.map@[x]@.len() ==> !(#[trigger] self.map@[x]@[y]).1,
            decreases self.map@.len() - i,
        {
            let mut j: usize = 0;
            while j < self.map[i].len()
                invariant
                    0 <= i < self.map@.len(),
                    0 <= j <= self.map@[i as int]@.len(),
                    self.map@.len() == orig.map@.len(),
                    forall|x: int| 0 <= x < self.map@.len() ==> (#[trigger] self.map@[x])@.len() == orig.map@[x]@.len(),
                    forall|x: int, y: int| 0 <= x < self.map@.len() && 0 <= y < self.map@[x]@.len()
                        ==> (#[trigger] self.map@[x]@[y]).0 == orig.map@[x]@[y].0,
                    forall|x: int, y: int| 0 <= x < i && 0 <= y < self.map@[x]@.len() ==> !(#[trigger] self.map@[x]@[y]).1,
                    forall|y: int| 0 <= y < j ==> !(#[trigger] self.map@[i as int]@[y]).1,
                decreases self.map@[i as int]@.len() - j,
            {
                self.map[i][j].1 = false;
                j = j + 1;
            }
            i = i + 1;
        }
        proof { self.lemma_cells(); orig.lemma_cells(); }
        assert(self.sight() =~= Set::<(int, int)>::empty());
    }

    /// One octant of the recursive shadowcast, from local row `row` on,
    /// within the slopes `[end, start_in]`; marks what it sees.
    fn cast_light(
        &mut self,
        cx: i64,
        cy: i64,
        radius: i64,
        row: i64,
        start_in: Slope,
        end: Slope,
        oct: Octant,
        Ghost(s): Ghost<Scan>,
    )
        requires
            old(self).matches_scan(s),
            s.cx == cx && s.cy == cy && s.r == radius && s.oct == oct@,
            0 <= cx < s.w && 0 <= cy < s.h,
            i32::MIN <= radius <= i32::MAX,
            1 <= row,
            start_in.wf(),
            end.wf(),
            -1 <= oct.xx <= 1 && -1 <= oct.xy <= 1 && -1 <= oct.yx <= 1 && -1 <= oct.yy <= 1,
        ensures
            final(self).matches_scan(s),
            final(self).same_obstacles(old(self)),
            final(self).sight() == cast_spec(s, row as int, start_in@, end@, old(self).sight()),
        decreases radius + 1 - row,
    {
        if start_in.less_than(&end) {
            return;
        }
        let ghost orig = *self;
        let ghost target = cast_spec(s, row as int, start_in@, end@, self.sight());
        let width = self.get_width() as i64;
        let height = self.get_height() as i64;
        let mut start = start_in;
        let mut next = start_in;
        let mut i: i64 = row;
        let mut stop = false;
        assert(0 <= radius * radius <= 4611686018427387904) by (nonlinear_arith)
            requires
                i32::MIN <= radius <= i32::MAX,
        ;
        let radius2 = radius * radius;
        while i <= radius && !stop
            invariant
                self.matches_scan(s),
                self.same_obstacles(&orig),
                s.cx == cx && s.cy == cy && s.r == radius && s.oct == oct@,
                0 <= cx < s.w && 0 <= cy < s.h,
                width == s.w && height == s.h,
                radius <= i32::MAX,
                radius2 == radius * radius,
                1 <= row <= i,
                start.wf(),
                next.wf(),
                end.wf(),
                -1 <= oct.xx <= 1 && -1 <= oct.xy <= 1 && -1 <= oct.yx <= 1 && -1 <= oct.yy <= 1,
                stop ==> self.sight() == target,
                !stop ==> scan_rows(s, i as int, start@, next@, end@, self.sight()) == target,
            decreases radius + 1 - i,
        {
            let ghost seen_row = self.sight();
            let ghost start_row = start@;
            let ghost next_row = next@;
            let mut blocked = false;
            let mut dx: i64 = -i;
            let mut done = false;
            while dx <= 0 && !done
                invariant
                    self.matches_scan(s),
                    self.same_obstacles(&orig),
                    s.cx == cx && s.cy == cy && s.r == radius && s.oct == oct@,
                    0 <= cx < s.w && 0 <= cy < s.h,
                    width == s.w && height == s.h,
                    radius <= i32::MAX,
                    radius2 == radius * radius,
                    row <= i <= radius,
                    1 <= i,
                    -i <= dx <= 1,
                    start.wf(),
                    next.wf(),
                    end.wf(),
                    -1 <= oct.xx <= 1 && -1 <= oct.xy <= 1 && -1 <= oct.yx <= 1 && -1 <= oct.yy <= 1,
                    scan_cols(s, i as int, -i, false, start_row, next_row, end@, seen_row) == (if done {
                        (self.sight(), blocked, start@, next@)
                    } else {
                        scan_cols(s, i as int, dx as int, blocked, start@, next@, end@, self.sight())
                    }),
                decreases 1 - dx,
            {
                let l = Slope { num: 1 - 2 * dx, den: 2 * i - 1 };
                let rs = Slope { num: -2 * dx - 1, den: 2 * i + 1 };
                if start.less_than(&rs) {
                } else if l.less_than(&end) {
                    done = true;
                } else {
                    let mx = cx + times_unit(dx, oct.xx) + times_unit(-i, oct.xy);
                    let my = cy + times_unit(dx, oct.yx) + times_unit(-i, oct.yy);
                    if mx < 0 || my < 0 || mx >= width || my >= height {
                    } else {
                        assert(0 <= dx * dx <= i * i) by (nonlinear_arith)
                            requires
                                -i <= dx <= 0,
                        ;
                        assert(i * i <= 4611686014132420609) by (nonlinear_arith)
                            requires
                                0 <= i <= i32::MAX,
                        ;
                        if dx * dx + i * i < radius2 {
                            self.mark(mx as usize, my as usize);
                        }
                        let ob = self.obstacle_at(mx as usize, my as usize);
                        if blocked {
                            if ob {
                                next = rs;
                            } else {
                                blocked = false;
                                start = next;
                            }
                        } else if ob {
                            blocked = true;
                            next = rs;
                            self.cast_light(cx, cy, radius, i + 1, start, l, oct, Ghost(s));
                        }
                    }
                }
                dx = dx + 1;
            }
            if blocked {
                stop = true;
            }
            i = i + 1;
        }
    }

    /// Recomputes the sight layer for an observer at `(x, y)` seeing up to
    /// `radius`: every cell is cleared, then the eight octants are scanned
    /// and the observer's own cell is marked.
    pub fn compute_fov(&mut self, x: i32, y: i32, radius: i32)
        requires
            old(self).wf(),
            old(self).in_bounds(x as int, y as int),
        ensures
            final(self).wf(),
            final(self).same_obstacles(old(self)),
            final(self).sight() == visible_cells(
                old(self).obstacles(),
                old(self).width(),
                old(self).height(),
                x as int,
                y as int,
                radius as int,
            ),
            forall|a: int, b: int| #[trigger] final(self).in_sight(a, b) && final(self).in_bounds(a, b) && (a, b) != (x as int, y as int)
                ==> (a - x) * (a - x) + (b - y) * (b - y) < radius * radius,
    {
        let ghost orig = *self;
        let ghost obs = self.obstacles();
        let ghost w = self.width();
        let ghost h = self.height();
        self.reset();
        let r: i64 = radius as i64;
        let mut k: usize = 0;
        while k < 8
            invariant
                0 <= k <= 8,
                self.wf(),
                self.same_obstacles(&orig),
                orig.wf(),
                orig.in_bounds(x as int, y as int),
                obs == orig.obstacles(),
                w == orig.width() && h == orig.height(),
                r == radius,
                scan_octants(obs, w, h, x as int, y as int, r as int, k as int, self.sight())
                    == scan_octants(obs, w, h, x as int, y as int, r as int, 0, Set::empty()),
            decreases 8 - k,
        {
            let oct = Octant::nth(k);
            let ghost sc = Scan { obs, w, h, cx: x as int, cy: y as int, r: r as int, oct: octant(k as int) };
            self.cast_light(x as i64, y as i64, r, 1, Slope { num: 1, den: 1 }, Slope { num: 0, den: 1 }, oct, Ghost(sc));
            k = k + 1;
        }
        self.mark(x as usize, y as usize);
        assert forall|a: int, b: int| #[trigger] self.in_sight(a, b) && self.in_bounds(a, b) && (a, b) != (x as int, y as int)
            implies (a - x) * (a - x) + (b - y) * (b - y) < radius * radius by {
            assert(self.sight().contains((a, b)));
            lemma_visible_within_radius(obs, w, h, x as int, y as int, radius as int, (a, b));
        }
    }

    proof fn lemma_cells(&self)
        ensures
            forall|x: int| 0 <= x < self.map@.len() ==> #[trigger] self.cells()[x] == self.map@[x]@,
            self.cells().len() == self.map@.len(),
            self.wf() ==> forall|x: int| 0 <= x < self.map@.len() ==> #[trigger] self.map@[x]@.len() == self.height(),
    {
        if self.wf() {
            assert forall|x: int| 0 <= x < self.map@.len() implies #[trigger] self.map@[x]@.len() == self.height() by {
                assert(self.cells()[x] == self.map@[x]@);
            }
        }
    }
}

} // verus!
