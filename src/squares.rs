//! Grid points in growing concentric squares around a centre.
use vstd::prelude::*;

verus! {

/// The points of the square ring at distance `r` from `(xc, yc)`: the top side and the
/// bottom side with their corners, then the left side and the right side without them.
pub open spec fn ring(xc: int, yc: int, r: int) -> Seq<(int, int)> {
    let side = 2 * r + 1;
    let inner = 2 * r - 1;
    Seq::new(side as nat, |k: int| (xc - r + k, yc - r)) + Seq::new(
        side as nat,
        |k: int| (xc - r + k, yc + r),
    ) + Seq::new(inner as nat, |k: int| (xc - r, yc - r + 1 + k)) + Seq::new(
        inner as nat,
        |k: int| (xc + r, yc - r + 1 + k),
    )
}

/// The centre, then the rings at distance `1..=r`.
pub open spec fn square_points(xc: int, yc: int, r: int) -> Seq<(int, int)>
    decreases r,
{
    if r <= 0 {
        seq![(xc, yc)]
    } else {
        square_points(xc, yc, r - 1) + ring(xc, yc, r)
    }
}

/// The points of `s` inside `[0, x_bound) x [0, y_bound)`, in order.
pub open spec fn in_bounds(s: Seq<(int, int)>, x_bound: int, y_bound: int) -> Seq<(int, int)>
    decreases s.len(),
{
    if s.len() == 0 {
        Seq::empty()
    } else {
        let p = s.last();
        let rest = in_bounds(s.drop_last(), x_bound, y_bound);
        if 0 <= p.0 < x_bound && 0 <= p.1 < y_bound {
            rest.push(p)
        } else {
            rest
        }
    }
}

/// The points as integers.
pub open spec fn points_view(v: Seq<(usize, usize)>) -> Seq<(int, int)> {
    v.map_values(|p: (usize, usize)| (p.0 as int, p.1 as int))
}

/// Walks the points of one side: `count` points `(x_base + dx*k - r, y_base + dy*k - r)`,
/// keeping those inside the bounds.
fn walk_side(
    out: &mut Vec<(usize, usize)>,
    x_base: usize,
    y_base: usize,
    dx: usize,
    dy: usize,
    count: usize,
    r: usize,
    x_bound: usize,
    y_bound: usize,
    generated: Ghost<Seq<(int, int)>>,
) -> (after: Ghost<Seq<(int, int)>>)
    requires
        dx <= 1,
        dy <= 1,
        x_base + dx * count <= usize::MAX,
        y_base + dy * count <= usize::MAX,
        points_view(old(out)@) == in_bounds(generated@, x_bound as int, y_bound as int),
    ensures
        after@ == generated@ + Seq::new(count as nat, |k: int| (x_base + dx * k - r, y_base + dy * k - r)),
        points_view(final(out)@) == in_bounds(after@, x_bound as int, y_bound as int),
{
    let ghost mut g = generated@;
    let mut k: usize = 0;
    while k < count
        invariant
            k <= count,
            dx <= 1,
            dy <= 1,
            x_base + dx * count <= usize::MAX,
            y_base + dy * count <= usize::MAX,
            g == generated@ + Seq::new(k as nat, |j: int| (x_base + dx * j - r, y_base + dy * j - r)),
            points_view(out@) == in_bounds(g, x_bound as int, y_bound as int),
        decreases count - k,
    {
        assert(dx * k <= dx * count && dy * k <= dy * count) by (nonlinear_arith)
            requires
                k <= count,
                dx <= 1,
                dy <= 1,
        ;
        let ax = x_base + dx * k;
        let ay = y_base + dy * k;
        let ghost p = (ax - r, ay - r);
        let ghost before = points_view(out@);
        let ghost g_next = g.push(p);
        assert(g_next.drop_last() == g);
        if ax >= r && ay >= r {
            let ux = ax - r;
            let uy = ay - r;
            if ux < x_bound && uy < y_bound {
                out.push((ux, uy));
                assert(points_view(out@) =~= before.push(p));
            }
        }
        proof {
            g = g_next;
            assert(g =~= generated@ + Seq::new(
                (k + 1) as nat,
                |j: int| (x_base + dx * j - r, y_base + dy * j - r),
            ));
        }
        k = k + 1;
    }
    Ghost(g)
}

/// First the centre `(x_center, y_center)`, then every point of the squares at distance
/// `1..=r_max` around it (each ring: top side and bottom side with corners, then left
/// side and right side without), keeping only the points inside `[0, x_bound) x [0, y_bound)`.
pub fn iterate_increasing_squares(
    x_center: usize,
    y_center: usize,
    r_max: usize,
    x_bound: usize,
    y_bound: usize,
) -> (r: Vec<(usize, usize)>)
    requires
        x_center + 2 * r_max + 1 <= usize::MAX,
        y_center + 2 * r_max + 1 <= usize::MAX,
    ensures
        points_view(r@) == in_bounds(
            square_points(x_center as int, y_center as int, r_max as int),
            x_bound as int,
            y_bound as int,
        ),
{
    let mut out: Vec<(usize, usize)> = Vec::new();
    let xc = x_center;
    let yc = y_center;
    let ghost empty = Seq::<(int, int)>::empty();
    assert(points_view(out@) =~= Seq::<(int, int)>::empty());
    let g0 = walk_side(&mut out, xc, yc, 0, 0, 1, 0, x_bound, y_bound, Ghost(empty));
    assert(g0@ =~= square_points(x_center as int, y_center as int, 0));
    let mut g = g0;
    let mut r: usize = 1;
    while r <= r_max
        invariant
            1 <= r <= r_max + 1,
            xc + 2 * r_max + 1 <= usize::MAX,
            yc + 2 * r_max + 1 <= usize::MAX,
            xc == x_center,
            yc == y_center,
            g@ == square_points(xc as int, yc as int, r - 1),
            points_view(out@) == in_bounds(g@, x_bound as int, y_bound as int),
        decreases r_max + 1 - r,
    {
        let side = 2 * r + 1;
        let inner = 2 * r - 1;
        let g1 = walk_side(&mut out, xc, yc, 1, 0, side, r, x_bound, y_bound, g);
        let g2 = walk_side(&mut out, xc, yc + 2 * r, 1, 0, side, r, x_bound, y_bound, g1);
        let g3 = walk_side(&mut out, xc, yc + 1, 0, 1, inner, r, x_bound, y_bound, g2);
        let g4 = walk_side(&mut out, xc + 2 * r, yc + 1, 0, 1, inner, r, x_bound, y_bound, g3);
        proof {
            let ri = r as int;
            let xi = xc as int;
            let yi = yc as int;
            assert(Seq::new(side as nat, |k: int| (xc + 1 * k - r, yc + 0 * k - r)) =~= Seq::new(
                (2 * ri + 1) as nat,
                |k: int| (xi - ri + k, yi - ri),
            ));
            assert(Seq::new(side as nat, |k: int| (xc + 1 * k - r, (yc + 2 * r) + 0 * k - r)) =~= Seq::new(
                (2 * ri + 1) as nat,
                |k: int| (xi - ri + k, yi + ri),
            ));
            assert(Seq::new(inner as nat, |k: int| (xc + 0 * k - r, (yc + 1) + 1 * k - r)) =~= Seq::new(
                (2 * ri - 1) as nat,
                |k: int| (xi - ri, yi - ri + 1 + k),
            ));
            assert(Seq::new(inner as nat, |k: int| ((xc + 2 * r) + 0 * k - r, (yc + 1) + 1 * k - r))
                =~= Seq::new((2 * ri - 1) as nat, |k: int| (xi + ri, yi - ri + 1 + k)));
            assert(g4@ =~= square_points(xi, yi, ri - 1) + ring(xi, yi, ri));
        }
        g = g4;
        r = r + 1;
    }
    out
}

} // verus!
