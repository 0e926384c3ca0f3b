//! Cubes and cube shells of block positions.
use vstd::prelude::*;
use crate::block_position::{BlockPosition, fits_i32};
use crate::range_abs::{range_abs, range_abs_seq, abs_order};

verus! {

/// The positions `(x, y, z)` for `z` in `zs`, in that order.
pub open spec fn row(x: i32, y: i32, zs: Seq<i32>) -> Seq<BlockPosition> {
    zs.map_values(|z: i32| BlockPosition { x, y, z })
}

/// The rows `row(x, y, zs)` for `y` in `ys`, in that order.
pub open spec fn plane(x: i32, ys: Seq<i32>, zs: Seq<i32>) -> Seq<BlockPosition>
    decreases ys.len(),
{
    if ys.len() == 0 {
        Seq::empty()
    } else {
        plane(x, ys.drop_last(), zs) + row(x, ys.last(), zs)
    }
}

/// The planes `plane(x, ys, zs)` for `x` in `xs`, in that order: every
/// combination of coordinates, `x` varying slowest and `z` fastest.
pub open spec fn grid(xs: Seq<i32>, ys: Seq<i32>, zs: Seq<i32>) -> Seq<BlockPosition>
    decreases xs.len(),
{
    if xs.len() == 0 {
        Seq::empty()
    } else {
        grid(xs.drop_last(), ys, zs) + plane(xs.last(), ys, zs)
    }
}

/// The coordinates `lo, lo + 1, ..., hi` (none when `hi < lo`).
pub open spec fn range_seq(lo: int, hi: int) -> Seq<i32> {
    Seq::new(if hi >= lo { (hi - lo + 1) as nat } else { 0 }, |i: int| (lo + i) as i32)
}

/// The coordinates `c, c + 1, c - 1, ..., c + r, c - r`.
pub open spec fn abs_seq(c: int, r: int) -> Seq<i32> {
    range_abs_seq(r).map_values(|d: int| (c + d) as i32)
}

/// The coordinates `c - r, c + r`.
pub open spec fn pm_seq(c: int, r: int) -> Seq<i32> {
    seq![(c - r) as i32, (c + r) as i32]
}

/// The positions that `cube_shell(center, radius)` returns, in order: for a
/// positive radius, the two faces orthogonal to x, then the rest of the two
/// faces orthogonal to y, then the rest of the two faces orthogonal to z.
pub open spec fn cube_shell_seq(center: BlockPosition, radius: int) -> Seq<BlockPosition> {
    let (cx, cy, cz) = (center.x as int, center.y as int, center.z as int);
    if radius == 0 {
        seq![center]
    } else {
        grid(pm_seq(cx, radius), abs_seq(cy, radius), abs_seq(cz, radius)) + grid(
            abs_seq(cx, radius - 1),
            pm_seq(cy, radius),
            abs_seq(cz, radius),
        ) + grid(abs_seq(cx, radius - 1), abs_seq(cy, radius - 1), pm_seq(cz, radius))
    }
}

/// The distance between two positions in the maximum norm: the radius of
/// the smallest cube shell around `p` that holds `q`.
pub open spec fn chebyshev(p: BlockPosition, q: BlockPosition) -> int {
    let dx = if p.x >= q.x { p.x - q.x } else { q.x - p.x };
    let dy = if p.y >= q.y { p.y - q.y } else { q.y - p.y };
    let dz = if p.z >= q.z { p.z - q.z } else { q.z - p.z };
    if dx >= dy && dx >= dz {
        dx
    } else if dy >= dz {
        dy
    } else {
        dz
    }
}

/// Whether every coordinate of `p`, moved by up to `r` either way, fits in
/// an `i32`.
pub open spec fn reach_fits(p: BlockPosition, r: int) -> bool {
    &&& fits_i32(p.x - r) && fits_i32(p.x + r)
    &&& fits_i32(p.y - r) && fits_i32(p.y + r)
    &&& fits_i32(p.z - r) && fits_i32(p.z + r)
}

/// The number of positions in the shell of radius `r`.
pub open spec fn shell_area(r: int) -> int {
    if r == 0 {
        1
    } else {
        (2 * r + 1) * (2 * r + 1) * (2 * r + 1) - (2 * r - 1) * (2 * r - 1) * (2 * r - 1)
    }
}

/// Whether `p` lies in the cube of radius `r` around `c`.
pub open spec fn in_cube(c: BlockPosition, r: int, p: BlockPosition) -> bool {
    chebyshev(c, p) <= r
}

/// The positions that `cube_diff(from, to, radius)` returns, in order: one
/// slab of the cube around `from` per axis, each made of the positions that
/// are, along that axis, on the far side of the cube around `to`, or on its
/// boundary.
pub open spec fn cube_diff_seq(from: BlockPosition, to: BlockPosition, r: int) -> Seq<BlockPosition> {
    let (fx, fy, fz) = (from.x as int, from.y as int, from.z as int);
    let (tx, ty, tz) = (to.x as int, to.y as int, to.z as int);
    let xs = range_seq(fx - r, fx + r);
    let ys = range_seq(fy - r, fy + r);
    let zs = range_seq(fz - r, fz + r);
    let xs1 = if fx < tx {
        range_seq(fx - r, if fx + r <= tx - r { fx + r } else { tx - r })
    } else {
        range_seq(if fx - r >= tx + r { fx - r } else { tx + r }, fx + r)
    };
    let ys1 = if fy < ty {
        range_seq(fy - r, if fy + r <= ty - r { fy + r } else { ty - r })
    } else {
        range_seq(if fy - r >= ty + r { fy - r } else { ty + r }, fy + r)
    };
    let zs1 = if fz < tz {
        range_seq(fz - r, if fz + r <= tz - r { fz + r } else { tz - r })
    } else {
        range_seq(if fz - r >= tz + r { fz - r } else { tz + r }, fz + r)
    };
    grid(xs1, ys, zs) + grid(xs, ys1, zs) + grid(xs, ys, zs1)
}

/// The coordinates `lo, lo + 1, ..., hi`.
fn coords_range(lo: i32, hi: i32) -> (v: Vec<i32>)
    ensures
        v@ == range_seq(lo as int, hi as int),
{
    let mut v: Vec<i32> = Vec::new();
    if hi < lo {
        proof {
            assert(v@ =~= range_seq(lo as int, hi as int));
        }
        return v;
    }
    let mut c: i32 = lo;
    loop
        invariant_except_break
            v@ == range_seq(lo as int, c - 1),
        invariant
            lo <= c <= hi,
        ensures
            v@ == range_seq(lo as int, hi as int),
        decreases hi - c,
    {
        v.push(c);
        proof {
            assert(v@ =~= range_seq(lo as int, c as int));
        }
        if c == hi {
            break;
        }
        c = c + 1;
    }
    v
}

/// The coordinates `c - r, c + r`.
fn coords_pm(c: i32, r: i32) -> (v: Vec<i32>)
    requires
        fits_i32(c - r),
        fits_i32(c + r),
    ensures
        v@ == pm_seq(c as int, r as int),
{
    let mut v: Vec<i32> = Vec::new();
    v.push(c - r);
    v.push(c + r);
    proof {
        assert(v@ =~= pm_seq(c as int, r as int));
    }
    v
}

/// The coordinates `c, c + 1, c - 1, ..., c + r, c - r`.
fn coords_abs(c: i32, r: i32) -> (v: Vec<i32>)
    requires
        0 <= r < i32::MAX,
        fits_i32(c - r),
        fits_i32(c + r),
    ensures
        v@ == abs_seq(c as int, r as int),
{
    let mut v: Vec<i32> = Vec::new();
    let mut it = range_abs(r);
    let ghost all = range_abs_seq(r as int);
    loop
        invariant
            it.wf(),
            it.bound() == r,
            0 <= r < i32::MAX,
            fits_i32(c - r),
            fits_i32(c + r),
            all == range_abs_seq(r as int),
            v@.len() + it.remaining().len() == all.len(),
            it.remaining() == all.skip(v@.len() as int),
            v@ == all.take(v@.len() as int).map_values(|d: int| (c + d) as i32),
        ensures
            v@ == abs_seq(c as int, r as int),
        decreases it.remaining().len(),
    {
        let ghost k = v@.len();
        match it.next() {
            None => {
                proof {
                    assert(all.take(k as int) =~= all);
                }
                break;
            },
            Some(d) => {
                proof {
                    assert(all[k as int] == d);
                    let i = k as int;
                    assert(-r <= abs_order(i) <= r);
                }
                v.push(c + d);
                proof {
                    assert(all.take((k + 1) as int).map_values(|d: int| (c + d) as i32) =~= all.take(
                        k as int,
                    ).map_values(|d: int| (c + d) as i32).push((c + d) as i32));
                    assert(all.skip((k + 1) as int) =~= all.skip(k as int).drop_first());
                }
            },
        }
    }
    v
}

/// Appends `grid(xs, ys, zs)` to `ret`.
fn push_grid(ret: &mut Vec<BlockPosition>, xs: &Vec<i32>, ys: &Vec<i32>, zs: &Vec<i32>)
    ensures
        final(ret)@ == old(ret)@ + grid(xs@, ys@, zs@),
{
    let ghost base = ret@;
    let mut i: usize = 0;
    while i < xs.len()
        invariant
            0 <= i <= xs@.len(),
            ret@ == base + grid(xs@.take(i as int), ys@, zs@),
        decreases xs@.len() - i,
    {
        let x = xs[i];
        let ghost before_x = ret@;
        let mut j: usize = 0;
        while j < ys.len()
            invariant
                0 <= j <= ys@.len(),
                ret@ == before_x + plane(x, ys@.take(j as int), zs@),
            decreases ys@.len() - j,
        {
            let y = ys[j];
            let ghost before_y = ret@;
            let mut k: usize = 0;
            while k < zs.len()
                invariant
                    0 <= k <= zs@.len(),
                    ret@ == before_y + row(x, y, zs@.take(k as int)),
                decreases zs@.len() - k,
            {
                ret.push(BlockPosition { x, y, z: zs[k] });
                proof {
                    assert(row(x, y, zs@.take(k + 1)) =~= row(x, y, zs@.take(k as int)).push(
                        BlockPosition { x, y, z: zs@[k as int] },
                    ));
                }
                k = k + 1;
            }
            proof {
                assert(zs@.take(zs@.len() as int) =~= zs@);
                assert(ys@.take(j + 1).drop_last() =~= ys@.take(j as int));
                assert(plane(x, ys@.take(j + 1), zs@) == plane(x, ys@.take(j as int), zs@) + row(
                    x,
                    y,
                    zs@,
                ));
            }
            j = j + 1;
        }
        proof {
            assert(ys@.take(ys@.len() as int) =~= ys@);
            assert(xs@.take(i + 1).drop_last() =~= xs@.take(i as int));
            assert(grid(xs@.take(i + 1), ys@, zs@) == grid(xs@.take(i as int), ys@, zs@) + plane(
                x,
                ys@,
                zs@,
            ));
        }
        i = i + 1;
    }
    proof {
        assert(xs@.take(xs@.len() as int) =~= xs@);
    }
}

/// Generates the set of points corresponding to the surface of a cube made
/// of voxels.
pub fn cube_shell(center: &BlockPosition, radius: i32) -> (shell: Vec<BlockPosition>)
    requires
        0 <= radius < i32::MAX,
        reach_fits(*center, radius as int),
    ensures
        shell@ == cube_shell_seq(*center, radius as int),
        shell@.no_duplicates(),
        forall|p: BlockPosition| shell@.contains(p) <==> chebyshev(*center, p) == radius,
        shell@.len() == shell_area(radius as int),
{
    proof {
        cube_shell_is_the_shell(*center, radius as int);
    }
    let mut shell: Vec<BlockPosition> = Vec::new();
    if radius == 0 {
        shell.push(*center);
        proof {
            assert(shell@ =~= seq![*center]);
        }
        return shell;
    }
    let c = *center;
    push_grid(
        &mut shell,
        &coords_pm(c.x, radius),
        &coords_abs(c.y, radius),
        &coords_abs(c.z, radius),
    );
    push_grid(
        &mut shell,
        &coords_abs(c.x, radius - 1),
        &coords_pm(c.y, radius),
        &coords_abs(c.z, radius),
    );
    push_grid(
        &mut shell,
        &coords_abs(c.x, radius - 1),
        &coords_abs(c.y, radius - 1),
        &coords_pm(c.z, radius),
    );
    proof {
        assert(shell@ =~= cube_shell_seq(*center, radius as int));
    }
    shell
}

/// The positions of the cube of radius `radius` around `from` that, along
/// some axis, lie beyond or on the boundary of the cube of the same radius
/// around `to`, one slab per axis.
pub fn cube_diff(from: &BlockPosition, to: &BlockPosition, radius: i32) -> (ret: Vec<BlockPosition>)
    requires
        reach_fits(*from, radius as int),
        reach_fits(*to, radius as int),
    ensures
        ret@ == cube_diff_seq(*from, *to, radius as int),
        forall|p: BlockPosition|
            in_cube(*from, radius as int, p) && !in_cube(*to, radius as int, p) ==> ret@.contains(p),
        forall|p: BlockPosition|
            ret@.contains(p) ==> in_cube(*from, radius as int, p) && radius <= chebyshev(*to, p),
        forall|p: BlockPosition|
            ret@.contains(p) <==> in_cube(*from, radius as int, p) && (behind_along(
                from.x as int,
                to.x as int,
                radius as int,
                p.x as int,
            ) || behind_along(from.y as int, to.y as int, radius as int, p.y as int) || behind_along(
                from.z as int,
                to.z as int,
                radius as int,
                p.z as int,
            )),
{
    proof {
        if radius >= 0 {
            cube_diff_covers_what_leaves(*from, *to, radius as int);
        } else {
            lemma_cube_diff_below_zero(*from, *to, radius as int);
        }
        cube_diff_spares_the_new_inside(*from, *to, radius as int);
        cube_diff_members(*from, *to, radius as int);
    }
    let mut ret: Vec<BlockPosition> = Vec::new();
    let f = *from;
    let t = *to;
    let r = radius;
    let xs = coords_range(f.x - r, f.x + r);
    let ys = coords_range(f.y - r, f.y + r);
    let zs = coords_range(f.z - r, f.z + r);
    let xs1 = if f.x < t.x {
        coords_range(f.x - r, if f.x + r <= t.x - r { f.x + r } else { t.x - r })
    } else {
        coords_range(if f.x - r >= t.x + r { f.x - r } else { t.x + r }, f.x + r)
    };
    push_grid(&mut ret, &xs1, &ys, &zs);
    let ys1 = if f.y < t.y {
        coords_range(f.y - r, if f.y + r <= t.y - r { f.y + r } else { t.y - r })
    } else {
        coords_range(if f.y - r >= t.y + r { f.y - r } else { t.y + r }, f.y + r)
    };
    push_grid(&mut ret, &xs, &ys1, &zs);
    let zs1 = if f.z < t.z {
        coords_range(f.z - r, if f.z + r <= t.z - r { f.z + r } else { t.z - r })
    } else {
        coords_range(if f.z - r >= t.z + r { f.z - r } else { t.z + r }, f.z + r)
    };
    push_grid(&mut ret, &xs, &ys, &zs1);
    proof {
        assert(ret@ =~= cube_diff_seq(*from, *to, radius as int));
    }
    ret
}

/// The number of elements in a cube shell.
pub fn cube_shell_area(radius: i32) -> (area: u32)
    requires
        0 <= radius,
        (2 * radius + 1) * (2 * radius + 1) * (2 * radius + 1) <= i32::MAX,
    ensures
        area == shell_area(radius as int),
{
    if radius == 0 {
        return 1;
    }
    assert(2 * radius + 1 <= (2 * radius + 1) * (2 * radius + 1) * (2 * radius + 1)) by (nonlinear_arith)
        requires
            radius >= 1,
    ;
    let width: i32 = 2 * radius + 1;
    assert(width * width <= width * width * width) by (nonlinear_arith)
        requires
            width >= 1,
    ;
    assert((width - 2) * (width - 2) <= width * width && (width - 2) * (width - 2) * (width - 2)
        <= width * width * width) by (nonlinear_arith)
        requires
            width >= 3,
    ;
    assert(0 <= (width - 2) * (width - 2) * (width - 2) <= width * width * width) by (nonlinear_arith)
        requires
            width >= 3,
    ;
    // volume of the cube
    let outer = width * width * width;
    // volume of the cube of radius r - 1.
    let inner = (width - 2) * (width - 2) * (width - 2);
    (outer - inner) as u32
}


/// A concatenation holds what either part holds.
pub proof fn lemma_concat_contains<A>(a: Seq<A>, b: Seq<A>, x: A)
    ensures
        (a + b).contains(x) <==> a.contains(x) || b.contains(x),
{
    if (a + b).contains(x) {
        let i = choose|i: int| 0 <= i < (a + b).len() && (a + b)[i] == x;
        if i < a.len() {
            assert(a[i] == x);
        } else {
            assert(b[i - a.len()] == x);
        }
    }
    if a.contains(x) {
        let i = choose|i: int| 0 <= i < a.len() && a[i] == x;
        assert((a + b)[i] == x);
    }
    if b.contains(x) {
        let i = choose|i: int| 0 <= i < b.len() && b[i] == x;
        assert((a + b)[a.len() + i] == x);
    }
}

/// Concatenating two duplicate-free sequences with nothing in common gives
/// a duplicate-free sequence.
pub proof fn lemma_concat_no_duplicates<A>(a: Seq<A>, b: Seq<A>)
    requires
        a.no_duplicates(),
        b.no_duplicates(),
        forall|x: A| a.contains(x) ==> !b.contains(x),
    ensures
        (a + b).no_duplicates(),
{
    assert forall|i: int, j: int|
        0 <= i < (a + b).len() && 0 <= j < (a + b).len() && i != j implies (a + b)[i] != (a
        + b)[j] by {
        if i < a.len() && j >= a.len() {
            assert(a.contains((a + b)[i]));
            assert(b.contains(b[j - a.len()]));
        } else if i >= a.len() && j < a.len() {
            assert(a.contains((a + b)[j]));
            assert(b.contains(b[i - a.len()]));
        }
    }
}

proof fn lemma_row(x: i32, y: i32, zs: Seq<i32>)
    ensures
        row(x, y, zs).len() == zs.len(),
        forall|p: BlockPosition|
            row(x, y, zs).contains(p) <==> p.x == x && p.y == y && zs.contains(p.z),
        zs.no_duplicates() ==> row(x, y, zs).no_duplicates(),
{
    let r = row(x, y, zs);
    assert forall|p: BlockPosition| r.contains(p) <==> p.x == x && p.y == y && zs.contains(p.z) by {
        if r.contains(p) {
            let i = choose|i: int| 0 <= i < r.len() && r[i] == p;
            assert(zs[i] == p.z);
        }
        if p.x == x && p.y == y && zs.contains(p.z) {
            let i = choose|i: int| 0 <= i < zs.len() && zs[i] == p.z;
            assert(r[i] == p);
        }
    }
    if zs.no_duplicates() {
        assert forall|i: int, j: int| 0 <= i < r.len() && 0 <= j < r.len() && i != j implies r[i]
            != r[j] by {
            assert(zs[i] != zs[j]);
        }
    }
}

proof fn lemma_plane(x: i32, ys: Seq<i32>, zs: Seq<i32>)
    ensures
        plane(x, ys, zs).len() == ys.len() * zs.len(),
        forall|p: BlockPosition|
            plane(x, ys, zs).contains(p) <==> p.x == x && ys.contains(p.y) && zs.contains(p.z),
        ys.no_duplicates() && zs.no_duplicates() ==> plane(x, ys, zs).no_duplicates(),
    decreases ys.len(),
{
    if ys.len() == 0 {
        assert forall|p: BlockPosition| !plane(x, ys, zs).contains(p) by {}
    } else {
        let init = ys.drop_last();
        let y = ys.last();
        lemma_plane(x, init, zs);
        lemma_row(x, y, zs);
        assert(ys.len() * zs.len() == init.len() * zs.len() + zs.len()) by (nonlinear_arith)
            requires
                ys.len() == init.len() + 1,
        ;
        assert forall|v: i32| ys.contains(v) <==> init.contains(v) || v == y by {
            if ys.contains(v) {
                let i = choose|i: int| 0 <= i < ys.len() && ys[i] == v;
                if i < init.len() {
                    assert(init[i] == v);
                }
            }
            if init.contains(v) {
                let i = choose|i: int| 0 <= i < init.len() && init[i] == v;
                assert(ys[i] == v);
            }
            assert(ys[ys.len() - 1] == y);
        }
        assert forall|p: BlockPosition|
            plane(x, ys, zs).contains(p) <==> p.x == x && ys.contains(p.y) && zs.contains(p.z) by {
            lemma_concat_contains(plane(x, init, zs), row(x, y, zs), p);
        }
        if ys.no_duplicates() && zs.no_duplicates() {
            assert(init.no_duplicates());
            assert(!init.contains(y)) by {
                if init.contains(y) {
                    let i = choose|i: int| 0 <= i < init.len() && init[i] == y;
                    assert(ys[i] == ys[ys.len() - 1]);
                }
            }
            lemma_concat_no_duplicates(plane(x, init, zs), row(x, y, zs));
        }
    }
}

proof fn lemma_grid(xs: Seq<i32>, ys: Seq<i32>, zs: Seq<i32>)
    ensures
        grid(xs, ys, zs).len() == xs.len() * ys.len() * zs.len(),
        forall|p: BlockPosition|
            grid(xs, ys, zs).contains(p) <==> xs.contains(p.x) && ys.contains(p.y) && zs.contains(
                p.z,
            ),
        xs.no_duplicates() && ys.no_duplicates() && zs.no_duplicates() ==> grid(
            xs,
            ys,
            zs,
        ).no_duplicates(),
    decreases xs.len(),
{
    if xs.len() == 0 {
        assert forall|p: BlockPosition| !grid(xs, ys, zs).contains(p) by {}
        assert(xs.len() * ys.len() * zs.len() == 0) by (nonlinear_arith)
            requires
                xs.len() == 0,
        ;
    } else {
        let init = xs.drop_last();
        let x = xs.last();
        lemma_grid(init, ys, zs);
        lemma_plane(x, ys, zs);
        assert(xs.len() * ys.len() * zs.len() == init.len() * ys.len() * zs.len() + ys.len()
            * zs.len()) by (nonlinear_arith)
            requires
                xs.len() == init.len() + 1,
        ;
        assert forall|v: i32| xs.contains(v) <==> init.contains(v) || v == x by {
            if xs.contains(v) {
                let i = choose|i: int| 0 <= i < xs.len() && xs[i] == v;
                if i < init.len() {
                    assert(init[i] == v);
                }
            }
            if init.contains(v) {
                let i = choose|i: int| 0 <= i < init.len() && init[i] == v;
                assert(xs[i] == v);
            }
            assert(xs[xs.len() - 1] == x);
        }
        assert forall|p: BlockPosition|
            grid(xs, ys, zs).contains(p) <==> xs.contains(p.x) && ys.contains(p.y) && zs.contains(
                p.z,
            ) by {
            lemma_concat_contains(grid(init, ys, zs), plane(x, ys, zs), p);
        }
        if xs.no_duplicates() && ys.no_duplicates() && zs.no_duplicates() {
            assert(init.no_duplicates());
            assert(!init.contains(x)) by {
                if init.contains(x) {
                    let i = choose|i: int| 0 <= i < init.len() && init[i] == x;
                    assert(xs[i] == xs[xs.len() - 1]);
                }
            }
            lemma_concat_no_duplicates(grid(init, ys, zs), plane(x, ys, zs));
        }
    }
}

proof fn lemma_abs_seq(c: int, r: int)
    requires
        0 <= r,
        fits_i32(c - r),
        fits_i32(c + r),
    ensures
        abs_seq(c, r).len() == 2 * r + 1,
        abs_seq(c, r).no_duplicates(),
        forall|v: i32| abs_seq(c, r).contains(v) <==> c - r <= v <= c + r,
{
    let s = abs_seq(c, r);
    assert forall|i: int| 0 <= i < 2 * r + 1 implies -r <= #[trigger] abs_order(i) <= r && s[i] == c
        + abs_order(i) by {}
    assert forall|i: int, j: int| 0 <= i < s.len() && 0 <= j < s.len() && i != j implies s[i]
        != s[j] by {
        assert(abs_order(i) != abs_order(j));
    }
    assert forall|v: i32| s.contains(v) <==> c - r <= v <= c + r by {
        if c - r <= v <= c + r {
            let d = v - c;
            let i = if d > 0 { 2 * d - 1 } else { -2 * d };
            assert(abs_order(i) == d);
            assert(s[i] == v);
        }
    }
}

proof fn lemma_pm_seq(c: int, r: int)
    requires
        0 < r,
        fits_i32(c - r),
        fits_i32(c + r),
    ensures
        pm_seq(c, r).len() == 2,
        pm_seq(c, r).no_duplicates(),
        forall|v: i32| pm_seq(c, r).contains(v) <==> v == c - r || v == c + r,
{
    let s = pm_seq(c, r);
    assert forall|v: i32| s.contains(v) <==> v == c - r || v == c + r by {
        if v == c - r {
            assert(s[0] == v);
        }
        if v == c + r {
            assert(s[1] == v);
        }
    }
}

/// The positions of `cube_shell(center, radius)` are exactly the positions at
/// distance `radius` from `center`, each once, so that there are
/// `shell_area(radius)` of them.
pub proof fn cube_shell_is_the_shell(center: BlockPosition, radius: int)
    requires
        0 <= radius,
        reach_fits(center, radius),
    ensures
        cube_shell_seq(center, radius).no_duplicates(),
        forall|p: BlockPosition|
            cube_shell_seq(center, radius).contains(p) <==> chebyshev(center, p) == radius,
        cube_shell_seq(center, radius).len() == shell_area(radius),
{
    let s = cube_shell_seq(center, radius);
    let (cx, cy, cz) = (center.x as int, center.y as int, center.z as int);
    if radius == 0 {
        assert forall|p: BlockPosition| s.contains(p) <==> chebyshev(center, p) == radius by {
            if chebyshev(center, p) == 0 {
                assert(p == center);
                assert(s[0] == p);
            }
        }
        return;
    }
    let r = radius;
    lemma_abs_seq(cx, r);
    lemma_abs_seq(cy, r);
    lemma_abs_seq(cz, r);
    lemma_abs_seq(cx, r - 1);
    lemma_abs_seq(cy, r - 1);
    lemma_pm_seq(cx, r);
    lemma_pm_seq(cy, r);
    lemma_pm_seq(cz, r);
    let g1 = grid(pm_seq(cx, r), abs_seq(cy, r), abs_seq(cz, r));
    let g2 = grid(abs_seq(cx, r - 1), pm_seq(cy, r), abs_seq(cz, r));
    let g3 = grid(abs_seq(cx, r - 1), abs_seq(cy, r - 1), pm_seq(cz, r));
    lemma_grid(pm_seq(cx, r), abs_seq(cy, r), abs_seq(cz, r));
    lemma_grid(abs_seq(cx, r - 1), pm_seq(cy, r), abs_seq(cz, r));
    lemma_grid(abs_seq(cx, r - 1), abs_seq(cy, r - 1), pm_seq(cz, r));
    lemma_concat_no_duplicates(g1, g2);
    assert forall|p: BlockPosition| (g1 + g2).contains(p) implies !g3.contains(p) by {
        lemma_concat_contains(g1, g2, p);
    }
    lemma_concat_no_duplicates(g1 + g2, g3);
    assert forall|p: BlockPosition| s.contains(p) <==> chebyshev(center, p) == radius by {
        lemma_concat_contains(g1, g2, p);
        lemma_concat_contains(g1 + g2, g3, p);
    }
    let a = 2 * r + 1;
    let b = 2 * r - 1;
    assert(2 * a * a + b * 2 * a + b * b * 2 == a * a * a - b * b * b) by (nonlinear_arith)
        requires
            a == b + 2,
    ;
}

/// Every position of the cube around `from` that is outside the cube of the
/// same radius around `to` is among those of `cube_diff(from, to, radius)`,
/// and all of those lie in the cube around `from`.
pub proof fn cube_diff_covers_what_leaves(from: BlockPosition, to: BlockPosition, radius: int)
    requires
        0 <= radius,
        reach_fits(from, radius),
        reach_fits(to, radius),
    ensures
        forall|p: BlockPosition|
            in_cube(from, radius, p) && !in_cube(to, radius, p) ==> cube_diff_seq(
                from,
                to,
                radius,
            ).contains(p),
        forall|p: BlockPosition| cube_diff_seq(from, to, radius).contains(p) ==> in_cube(from, radius, p),
{
    let r = radius;
    let (fx, fy, fz) = (from.x as int, from.y as int, from.z as int);
    let (tx, ty, tz) = (to.x as int, to.y as int, to.z as int);
    let xs = range_seq(fx - r, fx + r);
    let ys = range_seq(fy - r, fy + r);
    let zs = range_seq(fz - r, fz + r);
    let xs1 = if fx < tx {
        range_seq(fx - r, if fx + r <= tx - r { fx + r } else { tx - r })
    } else {
        range_seq(if fx - r >= tx + r { fx - r } else { tx + r }, fx + r)
    };
    let ys1 = if fy < ty {
        range_seq(fy - r, if fy + r <= ty - r { fy + r } else { ty - r })
    } else {
        range_seq(if fy - r >= ty + r { fy - r } else { ty + r }, fy + r)
    };
    let zs1 = if fz < tz {
        range_seq(fz - r, if fz + r <= tz - r { fz + r } else { tz - r })
    } else {
        range_seq(if fz - r >= tz + r { fz - r } else { tz + r }, fz + r)
    };
    lemma_grid(xs1, ys, zs);
    lemma_grid(xs, ys1, zs);
    lemma_grid(xs, ys, zs1);
    assert forall|lo: int, hi: int, v: i32|
        fits_i32(lo) && fits_i32(hi) implies #[trigger] range_seq(lo, hi).contains(v) <==> lo <= v
        <= hi by {
        if lo <= v <= hi {
            assert(range_seq(lo, hi)[v - lo] == v);
        }
    }
    let g1 = grid(xs1, ys, zs);
    let g2 = grid(xs, ys1, zs);
    let g3 = grid(xs, ys, zs1);
    assert forall|p: BlockPosition| #[trigger] cube_diff_seq(from, to, radius).contains(p) <==> (g1
        + g2 + g3).contains(p) by {}
    assert forall|p: BlockPosition|
        in_cube(from, radius, p) && !in_cube(to, radius, p) implies #[trigger] cube_diff_seq(
        from,
        to,
        radius,
    ).contains(p) by {
        lemma_concat_contains(g1, g2, p);
        lemma_concat_contains(g1 + g2, g3, p);
        assert(range_seq(fx - r, fx + r).contains(p.x));
        assert(range_seq(fy - r, fy + r).contains(p.y));
        assert(range_seq(fz - r, fz + r).contains(p.z));
    }
    assert forall|p: BlockPosition| #[trigger] cube_diff_seq(from, to, radius).contains(p) implies in_cube(
        from,
        radius,
        p,
    ) by {
        lemma_concat_contains(g1, g2, p);
        lemma_concat_contains(g1 + g2, g3, p);
    }
}

/// There is no position in a cube of negative radius.
proof fn lemma_cube_diff_below_zero(from: BlockPosition, to: BlockPosition, radius: int)
    requires
        radius < 0,
    ensures
        cube_diff_seq(from, to, radius).len() == 0,
{
    let r = radius;
    let (fx, fy, fz) = (from.x as int, from.y as int, from.z as int);
    let (tx, ty, tz) = (to.x as int, to.y as int, to.z as int);
    let xs = range_seq(fx - r, fx + r);
    let ys = range_seq(fy - r, fy + r);
    let zs = range_seq(fz - r, fz + r);
    let xs1 = if fx < tx {
        range_seq(fx - r, if fx + r <= tx - r { fx + r } else { tx - r })
    } else {
        range_seq(if fx - r >= tx + r { fx - r } else { tx + r }, fx + r)
    };
    let ys1 = if fy < ty {
        range_seq(fy - r, if fy + r <= ty - r { fy + r } else { ty - r })
    } else {
        range_seq(if fy - r >= ty + r { fy - r } else { ty + r }, fy + r)
    };
    let zs1 = if fz < tz {
        range_seq(fz - r, if fz + r <= tz - r { fz + r } else { tz - r })
    } else {
        range_seq(if fz - r >= tz + r { fz - r } else { tz + r }, fz + r)
    };
    lemma_grid(xs1, ys, zs);
    lemma_grid(xs, ys1, zs);
    lemma_grid(xs, ys, zs1);
    assert(xs1.len() * ys.len() * zs.len() == 0) by (nonlinear_arith)
        requires
            ys.len() == 0,
    ;
    assert(xs.len() * ys1.len() * zs.len() == 0) by (nonlinear_arith)
        requires
            xs.len() == 0,
    ;
    assert(xs.len() * ys.len() * zs1.len() == 0) by (nonlinear_arith)
        requires
            xs.len() == 0,
    ;
}

/// No position of `cube_diff(from, to, radius)` lies strictly inside the
/// cube of radius `radius` around `to`: along some axis, each lies at or
/// beyond that cube's boundary.
pub proof fn cube_diff_spares_the_new_inside(from: BlockPosition, to: BlockPosition, radius: int)
    requires
        reach_fits(from, radius),
        reach_fits(to, radius),
    ensures
        forall|p: BlockPosition| cube_diff_seq(from, to, radius).contains(p) ==> radius <= chebyshev(to, p),
{
    let r = radius;
    let (fx, fy, fz) = (from.x as int, from.y as int, from.z as int);
    let (tx, ty, tz) = (to.x as int, to.y as int, to.z as int);
    let xs = range_seq(fx - r, fx + r);
    let ys = range_seq(fy - r, fy + r);
    let zs = range_seq(fz - r, fz + r);
    let xs1 = if fx < tx {
        range_seq(fx - r, if fx + r <= tx - r { fx + r } else { tx - r })
    } else {
        range_seq(if fx - r >= tx + r { fx - r } else { tx + r }, fx + r)
    };
    let ys1 = if fy < ty {
        range_seq(fy - r, if fy + r <= ty - r { fy + r } else { ty - r })
    } else {
        range_seq(if fy - r >= ty + r { fy - r } else { ty + r }, fy + r)
    };
    let zs1 = if fz < tz {
        range_seq(fz - r, if fz + r <= tz - r { fz + r } else { tz - r })
    } else {
        range_seq(if fz - r >= tz + r { fz - r } else { tz + r }, fz + r)
    };
    lemma_grid(xs1, ys, zs);
    lemma_grid(xs, ys1, zs);
    lemma_grid(xs, ys, zs1);
    assert forall|lo: int, hi: int, v: i32|
        fits_i32(lo) && fits_i32(hi) implies #[trigger] range_seq(lo, hi).contains(v) <==> lo <= v
        <= hi by {
        if lo <= v <= hi {
            assert(range_seq(lo, hi)[v - lo] == v);
        }
    }
    let g1 = grid(xs1, ys, zs);
    let g2 = grid(xs, ys1, zs);
    let g3 = grid(xs, ys, zs1);
    assert forall|p: BlockPosition| #[trigger] cube_diff_seq(from, to, radius).contains(p) <==> (g1
        + g2 + g3).contains(p) by {}
    assert forall|p: BlockPosition| #[trigger] cube_diff_seq(from, to, radius).contains(p) implies radius
        <= chebyshev(to, p) by {
        lemma_concat_contains(g1, g2, p);
        lemma_concat_contains(g1 + g2, g3, p);
        if g1.contains(p) {
            if fx < tx {
                assert(range_seq(fx - r, if fx + r <= tx - r { fx + r } else { tx - r }).contains(p.x));
            } else {
                assert(range_seq(if fx - r >= tx + r { fx - r } else { tx + r }, fx + r).contains(p.x));
            }
        } else if g2.contains(p) {
            if fy < ty {
                assert(range_seq(fy - r, if fy + r <= ty - r { fy + r } else { ty - r }).contains(p.y));
            } else {
                assert(range_seq(if fy - r >= ty + r { fy - r } else { ty + r }, fy + r).contains(p.y));
            }
        } else {
            if fz < tz {
                assert(range_seq(fz - r, if fz + r <= tz - r { fz + r } else { tz - r }).contains(p.z));
            } else {
                assert(range_seq(if fz - r >= tz + r { fz - r } else { tz + r }, fz + r).contains(p.z));
            }
        }
    }
}


/// Whether the coordinate `c` lies, along an axis on which the center moves
/// from `f` to `t`, on the side of the cube of radius `r` around `t` that
/// faces away from the move (its upper side when the center stays), at or
/// beyond that cube's boundary.
pub open spec fn behind_along(f: int, t: int, r: int, c: int) -> bool {
    if f < t {
        c <= t - r
    } else {
        c >= t + r
    }
}

/// The positions of `cube_diff(from, to, radius)` are exactly those of the
/// cube around `from` that, along some axis, lie behind the cube of the same
/// radius around `to`, at or beyond its boundary.
#[verifier::spinoff_prover]
pub proof fn cube_diff_members(from: BlockPosition, to: BlockPosition, radius: int)
    requires
        reach_fits(from, radius),
        reach_fits(to, radius),
    ensures
        forall|p: BlockPosition|
            #[trigger] cube_diff_seq(from, to, radius).contains(p) <==> in_cube(from, radius, p) && (
            behind_along(from.x as int, to.x as int, radius, p.x as int) || behind_along(
                from.y as int,
                to.y as int,
                radius,
                p.y as int,
            ) || behind_along(from.z as int, to.z as int, radius, p.z as int)),
{
    let r = radius;
    let (fx, fy, fz) = (from.x as int, from.y as int, from.z as int);
    let (tx, ty, tz) = (to.x as int, to.y as int, to.z as int);
    let xs = range_seq(fx - r, fx + r);
    let ys = range_seq(fy - r, fy + r);
    let zs = range_seq(fz - r, fz + r);
    let xs1 = if fx < tx {
        range_seq(fx - r, if fx + r <= tx - r { fx + r } else { tx - r })
    } else {
        range_seq(if fx - r >= tx + r { fx - r } else { tx + r }, fx + r)
    };
    let ys1 = if fy < ty {
        range_seq(fy - r, if fy + r <= ty - r { fy + r } else { ty - r })
    } else {
        range_seq(if fy - r >= ty + r { fy - r } else { ty + r }, fy + r)
    };
    let zs1 = if fz < tz {
        range_seq(fz - r, if fz + r <= tz - r { fz + r } else { tz - r })
    } else {
        range_seq(if fz - r >= tz + r { fz - r } else { tz + r }, fz + r)
    };
    lemma_grid(xs1, ys, zs);
    lemma_grid(xs, ys1, zs);
    lemma_grid(xs, ys, zs1);
    assert forall|lo: int, hi: int, v: i32|
        fits_i32(lo) && fits_i32(hi) implies #[trigger] range_seq(lo, hi).contains(v) <==> lo <= v
        <= hi by {
        if lo <= v <= hi {
            assert(range_seq(lo, hi)[v - lo] == v);
        }
    }
    let g1 = grid(xs1, ys, zs);
    let g2 = grid(xs, ys1, zs);
    let g3 = grid(xs, ys, zs1);
    assert forall|p: BlockPosition| #[trigger] cube_diff_seq(from, to, radius).contains(p) <==> (g1
        + g2 + g3).contains(p) by {}
    assert forall|p: BlockPosition|
        #[trigger] cube_diff_seq(from, to, radius).contains(p) <==> in_cube(from, radius, p) && (
        behind_along(from.x as int, to.x as int, radius, p.x as int) || behind_along(
            from.y as int,
            to.y as int,
            radius,
            p.y as int,
        ) || behind_along(from.z as int, to.z as int, radius, p.z as int)) by {
        lemma_concat_contains(g1, g2, p);
        lemma_concat_contains(g1 + g2, g3, p);
        let in_x = range_seq(fx - r, fx + r).contains(p.x);
        let in_y = range_seq(fy - r, fy + r).contains(p.y);
        let in_z = range_seq(fz - r, fz + r).contains(p.z);
        if fx < tx {
            assert(range_seq(fx - r, if fx + r <= tx - r { fx + r } else { tx - r }).contains(p.x)
                <==> fx - r <= p.x <= fx + r && p.x <= tx - r);
        } else {
            assert(range_seq(if fx - r >= tx + r { fx - r } else { tx + r }, fx + r).contains(p.x)
                <==> fx - r <= p.x <= fx + r && p.x >= tx + r);
        }
        if fy < ty {
            assert(range_seq(fy - r, if fy + r <= ty - r { fy + r } else { ty - r }).contains(p.y)
                <==> fy - r <= p.y <= fy + r && p.y <= ty - r);
        } else {
            assert(range_seq(if fy - r >= ty + r { fy - r } else { ty + r }, fy + r).contains(p.y)
                <==> fy - r <= p.y <= fy + r && p.y >= ty + r);
        }
        if fz < tz {
            assert(range_seq(fz - r, if fz + r <= tz - r { fz + r } else { tz - r }).contains(p.z)
                <==> fz - r <= p.z <= fz + r && p.z <= tz - r);
        } else {
            assert(range_seq(if fz - r >= tz + r { fz - r } else { tz + r }, fz + r).contains(p.z)
                <==> fz - r <= p.z <= fz + r && p.z >= tz + r);
        }
        assert(in_x <==> fx - r <= p.x <= fx + r);
        assert(in_y <==> fy - r <= p.y <= fy + r);
        assert(in_z <==> fz - r <= p.z <= fz + r);
    }
}

} // verus!
