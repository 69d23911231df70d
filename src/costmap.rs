//! Terrain costmap: batches of grid points rasterized into quadtrees of height
//! cells, and a sliding window of the most recent frames.
use vstd::prelude::*;
use vstd::arithmetic::power2::{lemma2_to64, lemma_pow2_strictly_increases, lemma_pow2_unfold, pow2};

use quadtree_rs::area::AreaBuilder;
use quadtree_rs::point::Point;
use quadtree_rs::Quadtree;
use std::sync::Arc;

use crate::queue::{lemma_queue_holds_recent, slot_of, slot_source, UnorderedQueue};

verus! {

/// The observed heights that fell into one grid cell: their sum and how many.
#[derive(Clone, Copy, PartialEq, Eq, Debug, Structural)]
pub struct HeightCell {
    pub total_height: i64,
    pub count: usize,
}

/// `c` after one more height `h` has fallen into it.
pub open spec fn with_height(c: HeightCell, h: int) -> HeightCell {
    HeightCell { total_height: (c.total_height + h) as i64, count: (c.count + 1) as usize }
}

impl HeightCell {
    /// Adds one observed height to the cell.
    pub fn add_height(&mut self, h: i32)
        requires
            i64::MIN <= old(self).total_height + h <= i64::MAX,
            old(self).count < usize::MAX,
        ensures
            *final(self) == with_height(*old(self), h as int),
    {
        self.total_height = self.total_height + h as i64;
        self.count = self.count + 1;
    }
}

/// The cell map with no cells.
pub open spec fn no_cells() -> Map<(int, int), HeightCell> {
    Map::empty()
}

/// A quadtree of height cells, each anchored at one grid point.
#[verifier::external_body]
pub struct CellTree {
    tree: Quadtree<u64, HeightCell>,
}

/// The cells a quadtree holds, by the anchor of each.
pub uninterp spec fn tree_cells(t: CellTree) -> Map<(int, int), HeightCell>;

/// The depth a quadtree was made with: it accepts anchors below `2^depth`.
pub uninterp spec fn tree_depth(t: CellTree) -> nat;

/// Relies on `Quadtree::new`: an empty tree of the given depth, whose side is
/// `2^depth` (computed as a power of `u64`, hence the bound).
#[verifier::external_body]
fn tree_new(depth: usize) -> (r: CellTree)
    requires
        depth < 64,
    ensures
        tree_cells(r) == no_cells(),
        tree_depth(r) == depth,
{
    CellTree { tree: Quadtree::new(depth) }
}

/// Relies on `Quadtree::query` with a unit area: it yields the entries whose
/// region meets the cell at `(x, y)`, which here is the one cell anchored there.
#[verifier::external_body]
fn tree_get(t: &CellTree, x: u64, y: u64) -> (r: Option<HeightCell>)
    requires
        x < pow2(tree_depth(*t)),
        y < pow2(tree_depth(*t)),
    ensures
        r == (if tree_cells(*t).contains_key((x as int, y as int)) {
            Some(tree_cells(*t)[(x as int, y as int)])
        } else {
            None
        }),
{
    let area = AreaBuilder::default().anchor(Point { x, y }).build().unwrap();
    t.tree.query(area).next().map(|e| *e.value_ref())
}

/// Relies on `Quadtree::insert_pt`: a point inside the tree's region is stored
/// as a new entry.
#[verifier::external_body]
fn tree_insert(t: &mut CellTree, x: u64, y: u64, cell: HeightCell)
    requires
        x < pow2(tree_depth(*old(t))),
        y < pow2(tree_depth(*old(t))),
        !tree_cells(*old(t)).contains_key((x as int, y as int)),
    ensures
        tree_cells(*final(t)) == tree_cells(*old(t)).insert((x as int, y as int), cell),
        tree_depth(*final(t)) == tree_depth(*old(t)),
{
    t.tree.insert_pt(Point { x, y }, cell);
}

/// Relies on `Quadtree::modify` with a unit area: the closure is applied to the
/// entries whose region meets the cell at `(x, y)`, which here is the one cell
/// anchored there.
#[verifier::external_body]
fn tree_add_height(t: &mut CellTree, x: u64, y: u64, h: i32)
    requires
        tree_cells(*old(t)).contains_key((x as int, y as int)),
        i64::MIN <= tree_cells(*old(t))[(x as int, y as int)].total_height + h <= i64::MAX,
        tree_cells(*old(t))[(x as int, y as int)].count < usize::MAX,
    ensures
        tree_cells(*final(t)) == tree_cells(*old(t)).insert(
            (x as int, y as int),
            with_height(tree_cells(*old(t))[(x as int, y as int)], h as int),
        ),
        tree_depth(*final(t)) == tree_depth(*old(t)),
{
    let area = AreaBuilder::default().anchor(Point { x, y }).build().unwrap();
    t.tree.modify(area, move |c: &mut HeightCell| c.add_height(h));
}

/// Relies on `Quadtree::len`: the number of entries stored.
#[verifier::external_body]
fn tree_len(t: &CellTree) -> (r: usize)
    ensures
        r == tree_cells(*t).len(),
{
    t.tree.len()
}

/// Relies on `Quadtree::iter`: every entry once, in an order the tree picks.
#[verifier::external_body]
fn tree_entries(t: &CellTree) -> (r: Vec<(u64, u64, HeightCell)>)
    ensures
        forall|j: int|
            0 <= j < r.len() ==> #[trigger] tree_cells(*t).contains_key((r[j].0 as int, r[j].1 as int))
                && tree_cells(*t)[(r[j].0 as int, r[j].1 as int)] == r[j].2,
        forall|k: (int, int)|
            #[trigger] tree_cells(*t).contains_key(k) ==> exists|j: int|
                0 <= j < r.len() && k == (r[j].0 as int, r[j].1 as int),
{
    t.tree.iter().map(|e| (e.anchor().x, e.anchor().y, *e.value_ref())).collect()
}

/// Input points are turned by the robot element's orientation before they are
/// projected onto the grid.
pub struct AddRotation(());

/// Input points are projected onto the grid as they are.
pub struct NoTransform(());

/// A point of a batch projected onto the grid: its cell indices along the two
/// ground axes and its height, in the caller's fixed height unit.
#[derive(Clone, Copy, PartialEq, Eq, Debug, Structural)]
pub struct GridPoint {
    pub x: i64,
    pub z: i64,
    pub height: i32,
}

/// The smallest of a non-empty sequence of integers.
pub open spec fn seq_min(s: Seq<int>) -> int
    decreases s.len(),
{
    if s.len() <= 1 {
        s[0]
    } else if s.last() < seq_min(s.drop_last()) {
        s.last()
    } else {
        seq_min(s.drop_last())
    }
}

/// The largest of a non-empty sequence of integers.
pub open spec fn seq_max(s: Seq<int>) -> int
    decreases s.len(),
{
    if s.len() <= 1 {
        s[0]
    } else if s.last() > seq_max(s.drop_last()) {
        s.last()
    } else {
        seq_max(s.drop_last())
    }
}

/// The x indices of a batch.
pub open spec fn xs(pts: Seq<GridPoint>) -> Seq<int> {
    pts.map_values(|p: GridPoint| p.x as int)
}

/// The z indices of a batch.
pub open spec fn zs(pts: Seq<GridPoint>) -> Seq<int> {
    pts.map_values(|p: GridPoint| p.z as int)
}

/// The heights of a batch.
pub open spec fn heights(pts: Seq<GridPoint>) -> Seq<int> {
    pts.map_values(|p: GridPoint| p.height as int)
}

/// The anchor of a point's cell in a tree whose origin is grid cell `(ox, oz)`.
pub open spec fn anchor_of(p: GridPoint, ox: int, oz: int) -> (int, int) {
    (p.x - ox, p.z - oz)
}

/// How many points of `pts` fall into the cell anchored at `k`.
pub open spec fn count_at(pts: Seq<GridPoint>, ox: int, oz: int, k: (int, int)) -> nat
    decreases pts.len(),
{
    if pts.len() == 0 {
        0
    } else {
        count_at(pts.drop_last(), ox, oz, k) + if anchor_of(pts.last(), ox, oz) == k {
            1nat
        } else {
            0nat
        }
    }
}

/// The sum of the heights of the points of `pts` that fall into the cell anchored at `k`.
pub open spec fn height_at(pts: Seq<GridPoint>, ox: int, oz: int, k: (int, int)) -> int
    decreases pts.len(),
{
    if pts.len() == 0 {
        0
    } else {
        height_at(pts.drop_last(), ox, oz, k) + if anchor_of(pts.last(), ox, oz) == k {
            pts.last().height as int
        } else {
            0
        }
    }
}

/// The cell that the points of `pts` anchored at `k` make up.
pub open spec fn cell_of(pts: Seq<GridPoint>, ox: int, oz: int, k: (int, int)) -> HeightCell {
    HeightCell {
        total_height: height_at(pts, ox, oz, k) as i64,
        count: count_at(pts, ox, oz, k) as usize,
    }
}

/// The cells that the batch `pts` fills in a tree whose origin is grid cell `(ox, oz)`.
pub open spec fn raster_cells(pts: Seq<GridPoint>, ox: int, oz: int) -> Map<(int, int), HeightCell> {
    Map::new(
        |k: (int, int)| count_at(pts, ox, oz, k) > 0,
        |k: (int, int)| cell_of(pts, ox, oz, k),
    )
}

/// The larger of the spreads of a non-empty batch along the two ground axes.
pub open spec fn spread(pts: Seq<GridPoint>) -> int {
    let dx = seq_max(xs(pts)) - seq_min(xs(pts));
    let dz = seq_max(zs(pts)) - seq_min(zs(pts));
    if dx > dz {
        dx
    } else {
        dz
    }
}

proof fn lemma_seq_bounds(s: Seq<int>)
    requires
        s.len() > 0,
    ensures
        forall|j: int| 0 <= j < s.len() ==> seq_min(s) <= #[trigger] s[j] <= seq_max(s),
        exists|j: int| 0 <= j < s.len() && s[j] == seq_min(s),
        exists|j: int| 0 <= j < s.len() && s[j] == seq_max(s),
    decreases s.len(),
{
    if s.len() > 1 {
        lemma_seq_bounds(s.drop_last());
        let jmin = choose|j: int| 0 <= j < s.len() - 1 && s.drop_last()[j] == seq_min(s.drop_last());
        let jmax = choose|j: int| 0 <= j < s.len() - 1 && s.drop_last()[j] == seq_max(s.drop_last());
        assert(forall|j: int| 0 <= j < s.len() - 1 ==> s.drop_last()[j] == s[j]);
        if s.last() < seq_min(s.drop_last()) {
            assert(s[s.len() - 1] == seq_min(s));
        } else {
            assert(s[jmin] == seq_min(s));
        }
        if s.last() > seq_max(s.drop_last()) {
            assert(s[s.len() - 1] == seq_max(s));
        } else {
            assert(s[jmax] == seq_max(s));
        }
    } else {
        assert(s[0] == seq_min(s));
        assert(s[0] == seq_max(s));
    }
}

proof fn lemma_prefix_step(s: Seq<int>, i: int)
    requires
        0 < i < s.len(),
    ensures
        s.take(i + 1).drop_last() == s.take(i),
        s.take(i + 1).last() == s[i],
        seq_min(s.take(i + 1)) == if s[i] < seq_min(s.take(i)) {
            s[i]
        } else {
            seq_min(s.take(i))
        },
        seq_max(s.take(i + 1)) == if s[i] > seq_max(s.take(i)) {
            s[i]
        } else {
            seq_max(s.take(i))
        },
{
    assert(s.take(i + 1).drop_last() =~= s.take(i));
}

proof fn lemma_points_step(pts: Seq<GridPoint>, i: int, ox: int, oz: int, k: (int, int))
    requires
        0 <= i < pts.len(),
    ensures
        count_at(pts.take(i + 1), ox, oz, k) == count_at(pts.take(i), ox, oz, k) + if anchor_of(
            pts[i],
            ox,
            oz,
        ) == k {
            1nat
        } else {
            0nat
        },
        height_at(pts.take(i + 1), ox, oz, k) == height_at(pts.take(i), ox, oz, k) + if anchor_of(
            pts[i],
            ox,
            oz,
        ) == k {
            pts[i].height as int
        } else {
            0
        },
{
    assert(pts.take(i + 1).drop_last() =~= pts.take(i));
}

/// The points that fall into a cell number at most the batch.
proof fn lemma_count_at_le(pts: Seq<GridPoint>, ox: int, oz: int, k: (int, int))
    ensures
        count_at(pts, ox, oz, k) <= pts.len(),
    decreases pts.len(),
{
    if pts.len() > 0 {
        lemma_count_at_le(pts.drop_last(), ox, oz, k);
    }
}

/// When every height of a batch lies in `[lo, hi]`, the sum of the heights in a
/// cell lies between `count * lo` and `count * hi`.
pub proof fn lemma_height_between(pts: Seq<GridPoint>, ox: int, oz: int, k: (int, int), lo: int, hi: int)
    requires
        forall|j: int| 0 <= j < pts.len() ==> lo <= #[trigger] pts[j].height <= hi,
    ensures
        count_at(pts, ox, oz, k) * lo <= height_at(pts, ox, oz, k) <= count_at(pts, ox, oz, k) * hi,
    decreases pts.len(),
{
    if pts.len() > 0 {
        let q = pts.drop_last();
        assert forall|j: int| 0 <= j < q.len() implies lo <= #[trigger] q[j].height <= hi by {
            assert(q[j] == pts[j]);
        }
        lemma_height_between(q, ox, oz, k, lo, hi);
        let c = count_at(q, ox, oz, k);
        let t = height_at(q, ox, oz, k);
        let h = pts.last().height as int;
        assert(lo <= pts[pts.len() - 1].height <= hi);
        if anchor_of(pts.last(), ox, oz) == k {
            let cp = count_at(pts, ox, oz, k);
            assert(cp == c + 1);
            assert(height_at(pts, ox, oz, k) == t + h);
            assert(cp * lo == c * lo + lo) by (nonlinear_arith)
                requires
                    cp == c + 1,
            ;
            assert(cp * hi == c * hi + hi) by (nonlinear_arith)
                requires
                    cp == c + 1,
            ;
            assert(c * lo <= t);
            assert(lo <= h);
            assert(cp * lo <= t + h);
        } else {
            assert(count_at(pts, ox, oz, k) == c);
            assert(height_at(pts, ox, oz, k) == t);
        }
    } else {
        assert(count_at(pts, ox, oz, k) == 0);
        assert(0 * lo == 0 && 0 * hi == 0);
    }
}

/// One rasterized batch: a quadtree of height cells whose origin is grid cell
/// `(min_x, min_z)` and whose side is `side`, with the batch's height range
/// and its densest cell.
pub struct CostmapFrame {
    pub cells: CellTree,
    pub side: u64,
    pub max_density: usize,
    pub max_height: i32,
    pub min_height: i32,
    pub min_x: i64,
    pub min_z: i64,
}

impl CostmapFrame {
    /// The cells of the frame, by their anchor relative to `(min_x, min_z)`.
    pub open spec fn cells(&self) -> Map<(int, int), HeightCell> {
        tree_cells(self.cells)
    }

    /// The tree's side covers every anchor it holds.
    pub open spec fn wf(&self) -> bool {
        &&& self.side == pow2(tree_depth(self.cells))
        &&& tree_depth(self.cells) < 64
        &&& forall|k: (int, int)| #[trigger]
            self.cells().contains_key(k) ==> 0 <= k.0 < self.side && 0 <= k.1 < self.side
    }

    /// A frame that holds no cell, with every bound at zero.
    pub fn empty() -> (r: Self)
        ensures
            r.wf(),
            r.cells() == no_cells(),
            r.max_density == 0,
            r.max_height == 0,
            r.min_height == 0,
            r.min_x == 0,
            r.min_z == 0,
    {
        let cells = tree_new(0);
        proof {
            lemma2_to64();
        }
        CostmapFrame {
            cells,
            side: 1,
            max_density: 0,
            max_height: 0,
            min_height: 0,
            min_x: 0,
            min_z: 0,
        }
    }

    /// The cell at grid indices `(x, z)`, if the frame has one there.
    pub fn cell(&self, x: i64, z: i64) -> (r: Option<HeightCell>)
        requires
            self.wf(),
        ensures
            r == (if self.cells().contains_key((x - self.min_x, z - self.min_z)) {
                Some(self.cells()[(x - self.min_x, z - self.min_z)])
            } else {
                None
            }),
    {
        let ax: i128 = x as i128 - self.min_x as i128;
        let az: i128 = z as i128 - self.min_z as i128;
        if ax < 0 || az < 0 || ax >= self.side as i128 || az >= self.side as i128 {
            return None;
        }
        tree_get(&self.cells, ax as u64, az as u64)
    }

    /// The number of cells in the frame.
    pub fn cell_count(&self) -> (r: usize)
        ensures
            r == self.cells().len(),
    {
        tree_len(&self.cells)
    }
}

/// `f` is the frame that the non-empty batch `pts` rasterizes to.
pub open spec fn frame_of(pts: Seq<GridPoint>, f: CostmapFrame) -> bool {
    &&& pts.len() > 0
    &&& f.wf()
    &&& f.min_x == seq_min(xs(pts))
    &&& f.min_z == seq_min(zs(pts))
    &&& f.min_height == seq_min(heights(pts))
    &&& f.max_height == seq_max(heights(pts))
    &&& f.cells() == raster_cells(pts, f.min_x as int, f.min_z as int)
    &&& forall|k: (int, int)| #[trigger]
        f.cells().contains_key(k) ==> f.cells()[k].count <= f.max_density
    &&& exists|k: (int, int)| #[trigger]
        f.cells().contains_key(k) && f.cells()[k].count == f.max_density
}

/// Rasterizes a batch of grid points into a frame: each point is added to the
/// cell at its indices, relative to the smallest indices of the batch. An
/// empty batch gives no frame.
pub fn rasterize(points: &Vec<GridPoint>) -> (r: Option<CostmapFrame>)
    requires
        points.len() < 0x1_0000_0000,
        points.len() > 0 ==> spread(points@) < 0x1_0000_0000,
    ensures
        r is None <==> points.len() == 0,
        r matches Some(f) ==> frame_of(points@, f),
{
    let n = points.len();
    if n == 0 {
        return None;
    }
    let ghost pts = points@;
    let first = points[0];
    let mut min_x = first.x;
    let mut max_x = first.x;
    let mut min_z = first.z;
    let mut max_z = first.z;
    let mut min_h = first.height;
    let mut max_h = first.height;
    let mut i: usize = 1;
    proof {
        assert(xs(pts).take(1)[0] == first.x);
        assert(zs(pts).take(1)[0] == first.z);
        assert(heights(pts).take(1)[0] == first.height);
    }
    while i < n
        invariant
            1 <= i <= n,
            n == points.len(),
            pts == points@,
            min_x == seq_min(xs(pts).take(i as int)),
            max_x == seq_max(xs(pts).take(i as int)),
            min_z == seq_min(zs(pts).take(i as int)),
            max_z == seq_max(zs(pts).take(i as int)),
            min_h == seq_min(heights(pts).take(i as int)),
            max_h == seq_max(heights(pts).take(i as int)),
        decreases n - i,
    {
        let p = points[i];
        proof {
            lemma_prefix_step(xs(pts), i as int);
            lemma_prefix_step(zs(pts), i as int);
            lemma_prefix_step(heights(pts), i as int);
        }
        if p.x < min_x {
            min_x = p.x;
        }
        if p.x > max_x {
            max_x = p.x;
        }
        if p.z < min_z {
            min_z = p.z;
        }
        if p.z > max_z {
            max_z = p.z;
        }
        if p.height < min_h {
            min_h = p.height;
        }
        if p.height > max_h {
            max_h = p.height;
        }
        i = i + 1;
    }
    proof {
        assert(xs(pts).take(n as int) =~= xs(pts));
        assert(zs(pts).take(n as int) =~= zs(pts));
        assert(heights(pts).take(n as int) =~= heights(pts));
        lemma_seq_bounds(xs(pts));
        lemma_seq_bounds(zs(pts));
        lemma_seq_bounds(heights(pts));
    }
    let dx = (max_x as i128 - min_x as i128) as u64;
    let dz = (max_z as i128 - min_z as i128) as u64;
    let range: u64 = if dx > dz {
        dx
    } else {
        dz
    };
    // The number of binary digits of `range`.
    let mut bits: usize = 0;
    let mut pw: u64 = 1;
    proof {
        lemma2_to64();
    }
    while bits < 32 && pw <= range
        invariant
            bits <= 32,
            pw == pow2(bits as nat),
            range < 0x1_0000_0000,
            pow2(32) == 0x1_0000_0000,
        decreases 32 - bits,
    {
        proof {
            lemma_pow2_unfold((bits + 1) as nat);
        }
        pw = pw * 2;
        bits = bits + 1;
    }
    assert(pow2(bits as nat) > range);
    // The tree's depth: the next power of two from the number of digits.
    let mut depth: usize = 1;
    while depth < bits
        invariant
            1 <= depth < 64,
            bits <= 32,
            depth <= 2 * bits || depth == 1,
        decreases 64 - depth,
    {
        depth = depth * 2;
    }
    // The side of the tree, `2^depth`.
    let mut side: u64 = 1;
    let mut j: usize = 0;
    while j < depth
        invariant
            j <= depth < 64,
            side == pow2(j as nat),
            pow2(64) == 0x1_0000_0000_0000_0000,
        decreases depth - j,
    {
        proof {
            lemma_pow2_unfold((j + 1) as nat);
            lemma_pow2_strictly_increases((j + 1) as nat, 64);
        }
        side = side * 2;
        j = j + 1;
    }
    proof {
        if bits < depth {
            lemma_pow2_strictly_increases(bits as nat, depth as nat);
        }
        assert(pow2(depth as nat) > range);
    }
    let mut cells = tree_new(depth);
    let mut max_density: usize = 0;
    let mut i: usize = 0;
    while i < n
        invariant
            0 <= i <= n,
            n == points.len(),
            n < 0x1_0000_0000,
            pts == points@,
            min_x == seq_min(xs(pts)),
            min_z == seq_min(zs(pts)),
            min_h == seq_min(heights(pts)),
            max_h == seq_max(heights(pts)),
            forall|j: int| 0 <= j < n ==> min_x <= #[trigger] xs(pts)[j] <= max_x,
            forall|j: int| 0 <= j < n ==> min_z <= #[trigger] zs(pts)[j] <= max_z,
            forall|j: int| 0 <= j < n ==> min_h <= #[trigger] heights(pts)[j] <= max_h,
            max_x - min_x <= range,
            max_z - min_z <= range,
            range < side,
            side == pow2(tree_depth(cells)),
            tree_depth(cells) == depth,
            depth < 64,
            forall|k: (int, int)| #[trigger]
                tree_cells(cells).contains_key(k) ==> 0 <= k.0 < side && 0 <= k.1 < side,
            forall|k: (int, int)| #[trigger]
                tree_cells(cells).contains_key(k) <==> count_at(pts.take(i as int), min_x as int, min_z as int, k) > 0,
            forall|k: (int, int)| #[trigger]
                tree_cells(cells).contains_key(k) ==> tree_cells(cells)[k] == cell_of(
                    pts.take(i as int),
                    min_x as int,
                    min_z as int,
                    k,
                ),
            forall|k: (int, int)| #[trigger]
                tree_cells(cells).contains_key(k) ==> tree_cells(cells)[k].count <= max_density,
            i > 0 ==> exists|k: (int, int)| #[trigger]
                tree_cells(cells).contains_key(k) && tree_cells(cells)[k].count == max_density,
            max_density <= i,
        decreases n - i,
    {
        let p = points[i];
        assert(xs(pts)[i as int] == p.x);
        assert(zs(pts)[i as int] == p.z);
        assert(heights(pts)[i as int] == p.height);
        let ax = (p.x as i128 - min_x as i128) as u64;
        let az = (p.z as i128 - min_z as i128) as u64;
        let ghost k: (int, int) = (ax as int, az as int);
        let ghost q = pts.take(i as int);
        proof {
            assert(anchor_of(pts[i as int], min_x as int, min_z as int) == k);
            assert forall|k2: (int, int)| true implies {
                &&& count_at(pts.take(i + 1), min_x as int, min_z as int, k2) == count_at(q, min_x as int, min_z as int, k2) + if k == k2 { 1nat } else { 0nat }
                &&& height_at(pts.take(i + 1), min_x as int, min_z as int, k2) == height_at(q, min_x as int, min_z as int, k2) + if k == k2 { p.height as int } else { 0 }
            } by {
                lemma_points_step(pts, i as int, min_x as int, min_z as int, k2);
            }
            lemma_count_at_le(q, min_x as int, min_z as int, k);
            assert forall|j: int| 0 <= j < q.len() implies -0x8000_0000 <= #[trigger] q[j].height <= 0x7fff_ffff by {
                assert(q[j] == pts[j]);
            }
            lemma_height_between(q, min_x as int, min_z as int, k, -0x8000_0000, 0x7fff_ffff);
            let c = count_at(q, min_x as int, min_z as int, k);
            assert(c * 0x7fff_ffff <= 0xffff_ffff * 0x7fff_ffff) by (nonlinear_arith)
                requires
                    c <= 0xffff_ffff,
            ;
            assert(c * -0x8000_0000 >= 0xffff_ffff * -0x8000_0000) by (nonlinear_arith)
                requires
                    c <= 0xffff_ffff,
            ;
        }
        let ghost old_cells = tree_cells(cells);
        let ghost old_md = max_density;
        match tree_get(&cells, ax, az) {
            Some(c) => {
                tree_add_height(&mut cells, ax, az, p.height);
                if c.count + 1 > max_density {
                    max_density = c.count + 1;
                }
            },
            None => {
                tree_insert(
                    &mut cells,
                    ax,
                    az,
                    HeightCell { total_height: p.height as i64, count: 1 },
                );
                if max_density < 1 {
                    max_density = 1;
                }
            },
        }
        proof {
            let q1 = pts.take(i + 1);
            assert forall|k2: (int, int)| #[trigger]
                tree_cells(cells).contains_key(k2) implies tree_cells(cells)[k2] == cell_of(
                    q1,
                    min_x as int,
                    min_z as int,
                    k2,
                ) by {
                if k2 != k {
                    assert(count_at(q, min_x as int, min_z as int, k2) > 0);
                }
            }
            assert(tree_cells(cells).contains_key(k));
            if tree_cells(cells)[k].count != max_density {
                assert(i > 0);
                let kk = choose|kk: (int, int)| #[trigger]
                    old_cells.contains_key(kk) && old_cells[kk].count == old_md;
                assert(kk != k);
                assert(tree_cells(cells)[kk] == old_cells[kk]);
                assert(tree_cells(cells).contains_key(kk) && tree_cells(cells)[kk].count
                    == max_density);
            }
        }
        i = i + 1;
    }
    let frame = CostmapFrame {
        cells,
        side,
        max_density,
        max_height: max_h,
        min_height: min_h,
        min_x,
        min_z,
    };
    proof {
        assert(pts.take(n as int) =~= pts);
        assert(frame.cells() =~= raster_cells(pts, min_x as int, min_z as int));
    }
    Some(frame)
}

/// The sum of the counts of the cells listed in `keys`.
pub open spec fn sum_counts(cells: Map<(int, int), HeightCell>, keys: Seq<(int, int)>) -> int
    decreases keys.len(),
{
    if keys.len() == 0 {
        0
    } else {
        sum_counts(cells, keys.drop_last()) + cells[keys.last()].count
    }
}

/// The number of points of `pts` that fall into the cells listed in `keys`.
spec fn sum_count_at(pts: Seq<GridPoint>, ox: int, oz: int, keys: Seq<(int, int)>) -> int
    decreases keys.len(),
{
    if keys.len() == 0 {
        0
    } else {
        sum_count_at(pts, ox, oz, keys.drop_last()) + count_at(pts, ox, oz, keys.last())
    }
}

/// How many times `k` is listed in `keys`.
spec fn occurrences(keys: Seq<(int, int)>, k: (int, int)) -> int
    decreases keys.len(),
{
    if keys.len() == 0 {
        0
    } else {
        occurrences(keys.drop_last(), k) + if keys.last() == k {
            1int
        } else {
            0int
        }
    }
}

proof fn lemma_occurrences_once(keys: Seq<(int, int)>, k: (int, int))
    requires
        keys.no_duplicates(),
    ensures
        occurrences(keys, k) == if keys.contains(k) {
            1int
        } else {
            0int
        },
    decreases keys.len(),
{
    if keys.len() > 0 {
        let rest = keys.drop_last();
        assert(rest.no_duplicates());
        lemma_occurrences_once(rest, k);
        if keys.last() == k {
            assert(!rest.contains(k)) by {
                if rest.contains(k) {
                    let j = choose|j: int| 0 <= j < rest.len() && rest[j] == k;
                    assert(keys[j] == keys[keys.len() - 1]);
                }
            }
        } else {
            assert(keys.contains(k) == rest.contains(k)) by {
                if keys.contains(k) {
                    let j = choose|j: int| 0 <= j < keys.len() && keys[j] == k;
                    assert(rest[j] == k);
                }
                if rest.contains(k) {
                    let j = choose|j: int| 0 <= j < rest.len() && rest[j] == k;
                    assert(keys[j] == k);
                }
            }
        }
    }
}

proof fn lemma_sum_count_step(pts: Seq<GridPoint>, ox: int, oz: int, keys: Seq<(int, int)>)
    requires
        pts.len() > 0,
    ensures
        sum_count_at(pts, ox, oz, keys) == sum_count_at(pts.drop_last(), ox, oz, keys)
            + occurrences(keys, anchor_of(pts.last(), ox, oz)),
    decreases keys.len(),
{
    if keys.len() > 0 {
        lemma_sum_count_step(pts, ox, oz, keys.drop_last());
    }
}

proof fn lemma_sum_count_all(pts: Seq<GridPoint>, ox: int, oz: int, keys: Seq<(int, int)>)
    requires
        keys.no_duplicates(),
        forall|j: int| 0 <= j < pts.len() ==> keys.contains(#[trigger] anchor_of(pts[j], ox, oz)),
    ensures
        sum_count_at(pts, ox, oz, keys) == pts.len(),
    decreases pts.len(),
{
    if pts.len() == 0 {
        lemma_sum_count_zero(pts, ox, oz, keys);
    } else {
        let q = pts.drop_last();
        assert forall|j: int| 0 <= j < q.len() implies keys.contains(
            #[trigger] anchor_of(q[j], ox, oz),
        ) by {
            assert(q[j] == pts[j]);
        }
        lemma_sum_count_all(q, ox, oz, keys);
        lemma_sum_count_step(pts, ox, oz, keys);
        assert(keys.contains(anchor_of(pts[pts.len() - 1], ox, oz)));
        lemma_occurrences_once(keys, anchor_of(pts.last(), ox, oz));
    }
}

proof fn lemma_sum_count_zero(pts: Seq<GridPoint>, ox: int, oz: int, keys: Seq<(int, int)>)
    requires
        pts.len() == 0,
    ensures
        sum_count_at(pts, ox, oz, keys) == 0,
    decreases keys.len(),
{
    if keys.len() > 0 {
        lemma_sum_count_zero(pts, ox, oz, keys.drop_last());
    }
}

/// A point's own cell holds at least that point.
proof fn lemma_own_cell(pts: Seq<GridPoint>, ox: int, oz: int, j: int)
    requires
        0 <= j < pts.len(),
    ensures
        count_at(pts, ox, oz, anchor_of(pts[j], ox, oz)) > 0,
    decreases pts.len(),
{
    if j < pts.len() - 1 {
        let q = pts.drop_last();
        lemma_own_cell(q, ox, oz, j);
        assert(q[j] == pts[j]);
    }
}

proof fn lemma_sum_counts_eq(pts: Seq<GridPoint>, ox: int, oz: int, keys: Seq<(int, int)>)
    requires
        pts.len() <= usize::MAX,
        forall|j: int|
            0 <= j < keys.len() ==> raster_cells(pts, ox, oz).contains_key(#[trigger] keys[j]),
    ensures
        sum_counts(raster_cells(pts, ox, oz), keys) == sum_count_at(pts, ox, oz, keys),
    decreases keys.len(),
{
    if keys.len() > 0 {
        let rest = keys.drop_last();
        assert forall|j: int| 0 <= j < rest.len() implies raster_cells(pts, ox, oz).contains_key(
            #[trigger] rest[j],
        ) by {
            assert(rest[j] == keys[j]);
        }
        lemma_sum_counts_eq(pts, ox, oz, rest);
        lemma_count_at_le(pts, ox, oz, keys.last());
        assert(raster_cells(pts, ox, oz).contains_key(keys[keys.len() - 1]));
    }
}

/// Every point of a batch falls into exactly one cell of its frame: over the
/// frame's cells, each listed once, the counts add up to the number of points.
pub proof fn lemma_counts_add_up(pts: Seq<GridPoint>, f: CostmapFrame, keys: Seq<(int, int)>)
    requires
        pts.len() <= usize::MAX,
        frame_of(pts, f),
        keys.no_duplicates(),
        forall|k: (int, int)| #[trigger] keys.contains(k) <==> f.cells().contains_key(k),
    ensures
        sum_counts(f.cells(), keys) == pts.len(),
{
    let ox = f.min_x as int;
    let oz = f.min_z as int;
    assert forall|j: int| 0 <= j < pts.len() implies keys.contains(
        #[trigger] anchor_of(pts[j], ox, oz),
    ) by {
        lemma_own_cell(pts, ox, oz, j);
        assert(f.cells().contains_key(anchor_of(pts[j], ox, oz)));
    }
    lemma_sum_count_all(pts, ox, oz, keys);
    assert forall|j: int| 0 <= j < keys.len() implies raster_cells(pts, ox, oz).contains_key(
        #[trigger] keys[j],
    ) by {
        assert(keys.contains(keys[j]));
    }
    lemma_sum_counts_eq(pts, ox, oz, keys);
}

/// The mean height of every cell of a frame lies between the lowest and the
/// highest height of the batch: `count * min_height <= total_height <= count * max_height`.
pub proof fn lemma_cell_mean_in_range(pts: Seq<GridPoint>, f: CostmapFrame, k: (int, int))
    requires
        pts.len() < 0x1_0000_0000,
        frame_of(pts, f),
        f.cells().contains_key(k),
    ensures
        f.cells()[k].count * f.min_height <= f.cells()[k].total_height <= f.cells()[k].count
            * f.max_height,
{
    let ox = f.min_x as int;
    let oz = f.min_z as int;
    lemma_seq_bounds(heights(pts));
    assert forall|j: int| 0 <= j < pts.len() implies f.min_height <= #[trigger] pts[j].height
        <= f.max_height by {
        assert(heights(pts)[j] == pts[j].height);
    }
    lemma_height_between(pts, ox, oz, k, f.min_height as int, f.max_height as int);
    lemma_height_between(pts, ox, oz, k, -0x8000_0000, 0x7fff_ffff);
    lemma_count_at_le(pts, ox, oz, k);
    let c = count_at(pts, ox, oz, k);
    assert(c * 0x7fff_ffff <= 0xffff_ffff * 0x7fff_ffff) by (nonlinear_arith)
        requires
            c <= 0xffff_ffff,
    ;
    assert(c * -0x8000_0000 >= 0xffff_ffff * -0x8000_0000) by (nonlinear_arith)
        requires
            c <= 0xffff_ffff,
    ;
}

/// Relies on `Arc::clone`: a new handle to the same frame.
#[verifier::external_body]
fn share(a: &Arc<CostmapFrame>) -> (r: Arc<CostmapFrame>)
    ensures
        r == *a,
{
    Arc::clone(a)
}

/// Whether `f` holds no cell.
pub open spec fn is_blank(f: CostmapFrame) -> bool {
    f.cells() == no_cells()
}

/// The number of cells of the frames in `frames`.
pub open spec fn total_cells(frames: Seq<Arc<CostmapFrame>>) -> int
    decreases frames.len(),
{
    if frames.len() == 0 {
        0
    } else {
        total_cells(frames.drop_last()) + frames.last().cells().len()
    }
}

/// Whether the cell anchored at `k` in `f` lies within `radius` cells of grid
/// cell `(x, z)` and its mean height is above `threshold`.
pub open spec fn cell_unsafe(f: CostmapFrame, k: (int, int), x: int, z: int, radius: int, threshold: int) -> bool {
    let dx = f.min_x + k.0 - x;
    let dz = f.min_z + k.1 - z;
    &&& f.cells().contains_key(k)
    &&& dx * dx + dz * dz <= radius * radius
    &&& f.cells()[k].total_height > threshold * f.cells()[k].count
}

/// A published view of the most recent frames, with the height above which a
/// cell's mean counts as an obstacle.
pub struct Costmap {
    pub frames: Vec<Arc<CostmapFrame>>,
    /// The number of cells over all frames.
    pub point_count: u128,
    pub threshold: i64,
}

impl Costmap {
    /// Every frame is well formed.
    pub open spec fn wf(&self) -> bool {
        forall|j: int| 0 <= j < self.frames.len() ==> (#[trigger] self.frames[j]).wf()
    }

    /// Whether no cell of any frame within `radius` cells of grid cell `(x, z)`
    /// has a mean height above the threshold.
    pub fn is_global_point_safe(&self, x: i64, z: i64, radius: u32) -> (r: bool)
        requires
            self.wf(),
        ensures
            r == !exists|j: int, k: (int, int)|
                0 <= j < self.frames.len() && #[trigger] cell_unsafe(
                    *self.frames[j],
                    k,
                    x as int,
                    z as int,
                    radius as int,
                    self.threshold as int,
                ),
    {
        let mut j: usize = 0;
        while j < self.frames.len()
            invariant
                0 <= j <= self.frames.len(),
                self.wf(),
                forall|jj: int, k: (int, int)|
                    0 <= jj < j ==> !#[trigger] cell_unsafe(
                        *self.frames[jj],
                        k,
                        x as int,
                        z as int,
                        radius as int,
                        self.threshold as int,
                    ),
            decreases self.frames.len() - j,
        {
            let frame: &CostmapFrame = &self.frames[j];
            assert(frame.wf());
            let entries = tree_entries(&frame.cells);
            let mut e: usize = 0;
            while e < entries.len()
                invariant
                    0 <= e <= entries.len(),
                    0 <= j < self.frames.len(),
                    frame == *self.frames[j as int],
                    frame.wf(),
                    forall|ee: int|
                        0 <= ee < entries.len() ==> #[trigger] tree_cells(frame.cells).contains_key(
                            (entries[ee].0 as int, entries[ee].1 as int),
                        ) && tree_cells(frame.cells)[(entries[ee].0 as int, entries[ee].1 as int)]
                            == entries[ee].2,
                    forall|ee: int|
                        0 <= ee < e ==> !cell_unsafe(
                            *frame,
                            (#[trigger] entries[ee].0 as int, entries[ee].1 as int),
                            x as int,
                            z as int,
                            radius as int,
                            self.threshold as int,
                        ),
                decreases entries.len() - e,
            {
                let (ax, az, cell) = entries[e];
                assert(tree_cells(frame.cells).contains_key((entries[e as int].0 as int, entries[e as int].1 as int)));
                let dx: i128 = frame.min_x as i128 + ax as i128 - x as i128;
                let dz: i128 = frame.min_z as i128 + az as i128 - z as i128;
                let r: i128 = radius as i128;
                if -r <= dx && dx <= r && -r <= dz && dz <= r {
                    proof {
                        assert(0 <= dx * dx <= r * r) by (nonlinear_arith)
                            requires
                                -r <= dx <= r,
                        ;
                        assert(0 <= dz * dz <= r * r) by (nonlinear_arith)
                            requires
                                -r <= dz <= r,
                        ;
                        assert(r * r <= 0x1_0000_0000 * 0x1_0000_0000) by (nonlinear_arith)
                            requires
                                0 <= r <= 0x1_0000_0000,
                        ;
                    }
                    if dx * dx + dz * dz <= r * r {
                        proof {
                            assert(-0x8000_0000_0000_0000 <= cell.total_height);
                            assert(cell.count <= 0xffff_ffff_ffff_ffff);
                            let t = self.threshold as int;
                            let c = cell.count as int;
                            assert(-0x8000_0000_0000_0000 * 0xffff_ffff_ffff_ffff <= t * c <= 0x7fff_ffff_ffff_ffff * 0xffff_ffff_ffff_ffff) by (nonlinear_arith)
                                requires
                                    -0x8000_0000_0000_0000 <= t <= 0x7fff_ffff_ffff_ffff,
                                    0 <= c <= 0xffff_ffff_ffff_ffff,
                            ;
                        }
                        if cell.total_height as i128 > self.threshold as i128 * cell.count as i128 {
                            assert(cell_unsafe(
                                *self.frames[j as int],
                                (ax as int, az as int),
                                x as int,
                                z as int,
                                radius as int,
                                self.threshold as int,
                            ));
                            return false;
                        }
                    }
                } else {
                    proof {
                        let ddx = dx as int;
                        let ddz = dz as int;
                        let rr = r as int;
                        assert(ddx * ddx + ddz * ddz > rr * rr) by (nonlinear_arith)
                            requires
                                rr >= 0,
                                ddx < -rr || ddx > rr || ddz < -rr || ddz > rr,
                        ;
                    }
                }
                e = e + 1;
            }
            assert forall|k: (int, int)| true implies !#[trigger] cell_unsafe(
                *self.frames[j as int],
                k,
                x as int,
                z as int,
                radius as int,
                self.threshold as int,
            ) by {
                if frame.cells().contains_key(k) {
                    assert(tree_cells(frame.cells).contains_key(k));
                    let ee = choose|ee: int| 0 <= ee < entries.len() && k == (entries[ee].0 as int, entries[ee].1 as int);
                    assert(!cell_unsafe(
                        *frame,
                        (entries[ee].0 as int, entries[ee].1 as int),
                        x as int,
                        z as int,
                        radius as int,
                        self.threshold as int,
                    ));
                }
            }
            j = j + 1;
        }
        true
    }
}

/// Keeps the most recent frames in a window of slots and publishes a fresh
/// costmap each time a frame arrives.
pub struct CostmapGenerator {
    /// The slots; they start out holding blank frames.
    pub window: UnorderedQueue<Arc<CostmapFrame>>,
    pub threshold: i64,
}

impl CostmapGenerator {
    /// The number of slots.
    pub open spec fn window_length(&self) -> int {
        self.window.items.len() as int
    }

    /// The frames received so far, oldest first.
    pub open spec fn received(&self) -> Seq<Arc<CostmapFrame>> {
        self.window.history@.subrange(self.window_length(), self.window.history@.len() as int)
    }

    /// The window is well formed, every frame it has held is well formed, and
    /// the frames it started with are blank.
    pub open spec fn wf(&self) -> bool {
        &&& self.window.wf()
        &&& forall|i: int|
            0 <= i < self.window.history@.len() ==> (#[trigger] self.window.history@[i]).wf()
        &&& forall|i: int| 0 <= i < self.window_length() ==> is_blank(*#[trigger] self.window.history@[i])
    }

    /// A generator with `window_length` blank slots that has received nothing.
    pub fn new(window_length: usize, threshold: i64) -> (r: Self)
        requires
            window_length >= 1,
        ensures
            r.wf(),
            r.window_length() == window_length,
            r.threshold == threshold,
            r.received() == Seq::<Arc<CostmapFrame>>::empty(),
    {
        let mut frames: Vec<Arc<CostmapFrame>> = Vec::new();
        while frames.len() < window_length
            invariant
                frames.len() <= window_length,
                forall|j: int| 0 <= j < frames.len() ==> (#[trigger] frames[j]).wf() && is_blank(*frames[j]),
            decreases window_length - frames.len(),
        {
            frames.push(Arc::new(CostmapFrame::empty()));
        }
        let window = UnorderedQueue::new(frames);
        let r = CostmapGenerator { window, threshold };
        assert(r.received() =~= Seq::<Arc<CostmapFrame>>::empty());
        r
    }

    /// The costmap over the frames in the slots.
    pub fn costmap(&self) -> (r: Costmap)
        requires
            self.wf(),
        ensures
            r.wf(),
            r.frames@ == self.window.items@,
            r.threshold == self.threshold,
            r.point_count == total_cells(self.window.items@),
    {
        proof {
            lemma_queue_holds_recent(self.window);
        }
        let mut frames: Vec<Arc<CostmapFrame>> = Vec::new();
        let mut point_count: u128 = 0;
        let mut j: usize = 0;
        while j < self.window.items.len()
            invariant
                0 <= j <= self.window.items.len(),
                self.wf(),
                forall|jj: int| 0 <= jj < self.window.items.len() ==> (#[trigger] self.window.items[jj]).wf(),
                frames@ == self.window.items@.take(j as int),
                point_count == total_cells(self.window.items@.take(j as int)),
                point_count <= j * 0xffff_ffff_ffff_ffff,
            decreases self.window.items.len() - j,
        {
            let n = self.window.items[j].cell_count();
            proof {
                assert(self.window.items@.take(j + 1).drop_last() =~= self.window.items@.take(j as int));
                assert(j * 0xffff_ffff_ffff_ffff + 0xffff_ffff_ffff_ffff <= 0x1_0000_0000_0000_0000 * 0xffff_ffff_ffff_ffff) by (nonlinear_arith)
                    requires
                        j < 0x1_0000_0000_0000_0000,
                ;
            }
            point_count = point_count + n as u128;
            frames.push(share(&self.window.items[j]));
            assert(frames@ =~= self.window.items@.take(j + 1));
            j = j + 1;
        }
        assert(self.window.items@.take(self.window.items.len() as int) =~= self.window.items@);
        Costmap { frames, point_count, threshold: self.threshold }
    }

    /// Writes `frame` over the oldest slot and publishes the costmap over the slots.
    pub fn push_frame(&mut self, frame: CostmapFrame) -> (r: Costmap)
        requires
            old(self).wf(),
            frame.wf(),
        ensures
            final(self).wf(),
            final(self).received() == old(self).received().push(Arc::new(frame)),
            final(self).window.items@ == old(self).window.items@.update(
                old(self).window.next as int,
                Arc::new(frame),
            ),
            final(self).threshold == old(self).threshold,
            r.wf(),
            r.frames@ == final(self).window.items@,
            r.threshold == old(self).threshold,
            r.point_count == total_cells(final(self).window.items@),
    {
        self.window.push(Arc::new(frame));
        proof {
            assert(self.received() =~= old(self).received().push(Arc::new(frame)));
            let h = old(self).window.history@.len() as int;
            assert(forall|i: int| 0 <= i < h ==> self.window.history@[i] == old(self).window.history@[i]);
            assert(self.window.history@[h] == frame);
        }
        self.costmap()
    }

    /// Rasterizes a batch and, unless it is empty, writes its frame into the
    /// window and returns the costmap published for it.
    pub fn process(&mut self, points: &Vec<GridPoint>) -> (r: Option<Costmap>)
        requires
            old(self).wf(),
            points.len() < 0x1_0000_0000,
            points.len() > 0 ==> spread(points@) < 0x1_0000_0000,
        ensures
            final(self).wf(),
            final(self).window_length() == old(self).window_length(),
            points.len() == 0 ==> r is None && *final(self) == *old(self),
            points.len() > 0 ==> {
                &&& final(self).received().len() == old(self).received().len() + 1
                &&& final(self).received().drop_last() == old(self).received()
                &&& frame_of(points@, *final(self).received().last())
                &&& r matches Some(c) && c.frames@ == final(self).window.items@
            },
    {
        match rasterize(points) {
            None => None,
            Some(frame) => {
                let c = self.push_frame(frame);
                proof {
                    assert(self.received().drop_last() =~= old(self).received());
                }
                Some(c)
            },
        }
    }
}

/// The window of published frames: while fewer frames than slots have
/// arrived, the slots hold each received frame and blanks; from then on they
/// hold exactly the `window_length` most recent frames. Slot `j` holds frame
/// `slot_source(window, j) - window_length` of those received, or a blank
/// frame where that index is negative; received frame `i`, if among the
/// `window_length` most recent, is in slot `slot_of(window, window_length + i)`.
pub proof fn lemma_window_holds_recent(g: CostmapGenerator)
    requires
        g.wf(),
    ensures
        forall|j: int|
            0 <= j < g.window_length() ==> {
                let s = #[trigger] slot_source(g.window, j) - g.window_length();
                if s >= 0 {
                    g.received().len() - g.window_length() <= s < g.received().len() && g.window.items[j]
                        == g.received()[s]
                } else {
                    is_blank(*g.window.items[j])
                }
            },
        forall|i: int|
            0 <= i < g.received().len() && g.received().len() - g.window_length() <= i ==> {
                let j = #[trigger] slot_of(g.window, g.window_length() + i);
                0 <= j < g.window_length() && g.window.items[j] == g.received()[i]
            },
{
    lemma_queue_holds_recent(g.window);
    let w = g.window_length();
    assert forall|j: int| 0 <= j < w implies {
        let s = #[trigger] slot_source(g.window, j) - w;
        if s >= 0 {
            g.received().len() - w <= s < g.received().len() && g.window.items[j] == g.received()[s]
        } else {
            is_blank(*g.window.items[j])
        }
    } by {
        let src = slot_source(g.window, j);
        if src < w {
            assert(is_blank(*g.window.history@[src]));
        }
    }
    assert forall|i: int|
        0 <= i < g.received().len() && g.received().len() - w <= i implies {
        let j = #[trigger] slot_of(g.window, w + i);
        0 <= j < w && g.window.items[j] == g.received()[i]
    } by {
        assert(g.window.history@[w + i] == g.received()[i]);
    }
}

} // verus!
