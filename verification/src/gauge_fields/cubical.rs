//! The periodic four-dimensional cubical lattice of a given shape
//! `[x, y, z, t]`: its cells, numbered row-major, and their incidences.
//!
//! A site `x` has number `((x0 * s1 + x1) * s2 + x2) * s3 + x3`; with `V`
//! sites, edge `(mu, x)` has number `mu * V + site(x)`, face `(p, x)` in the
//! `p`-th plane of `(0,1), (0,2), (0,3), (1,2), (1,3), (2,3)` number
//! `p * V + site(x)`, and cube `(q, x)` in the `q`-th of `(0,1,2), (0,1,3),
//! (0,2,3), (1,2,3)` number `q * V + site(x)`. The face `(mu, nu)` at `x` has
//! edges `[(mu, x), (mu, x + nu), (nu, x + mu), (nu, x)]`, oriented `+ - + -`;
//! the cube `(mu, nu, rho)` at `x` has faces `[(nu rho, x + mu), (nu rho, x),
//! (mu rho, x), (mu rho, x + nu), (mu nu, x + rho), (mu nu, x)]`, oriented
//! `+ - + - + -`. Coordinates wrap around.
use vstd::prelude::*;

use crate::gauge_fields::lattice::{cubes_of_edge, faces_of_edge, ZNLattice};

verus! {

pub open spec fn volume(s: [usize; 4]) -> int {
    s[0] * s[1] * s[2] * s[3]
}

pub open spec fn site(s: [usize; 4], x0: int, x1: int, x2: int, x3: int) -> int {
    ((x0 * s[1] + x1) * s[2] + x2) * s[3] + x3
}

/// Coordinate `d` of the site numbered `r`.
pub open spec fn coord(s: [usize; 4], r: int, d: int) -> int {
    if d == 3 {
        r % (s[3] as int)
    } else if d == 2 {
        (r / (s[3] as int)) % (s[2] as int)
    } else if d == 1 {
        (r / (s[3] as int) / (s[2] as int)) % (s[1] as int)
    } else {
        r / (s[3] as int) / (s[2] as int) / (s[1] as int)
    }
}

/// Coordinate `k` of the site `dist` steps along `mu` from site `r`.
pub open spec fn shifted_coord(s: [usize; 4], r: int, mu: int, dist: int, k: int) -> int {
    if k == mu {
        (coord(s, r, k) + dist) % (s[k] as int)
    } else {
        coord(s, r, k)
    }
}

/// The site `dist` steps along direction `mu` from site `r`, coordinates
/// wrapping around.
pub open spec fn shifted_site(s: [usize; 4], r: int, mu: int, dist: int) -> int {
    site(
        s,
        shifted_coord(s, r, mu, dist, 0),
        shifted_coord(s, r, mu, dist, 1),
        shifted_coord(s, r, mu, dist, 2),
        shifted_coord(s, r, mu, dist, 3),
    )
}

/// The neighbour of site `r` one step along direction `mu`.
pub open spec fn neighbour(s: [usize; 4], r: int, mu: int) -> int {
    shifted_site(s, r, mu, 1)
}

/// The directions `(mu, nu)` of plane `p`.
pub open spec fn plane_dirs(p: int) -> (int, int) {
    if p == 0 {
        (0, 1)
    } else if p == 1 {
        (0, 2)
    } else if p == 2 {
        (0, 3)
    } else if p == 3 {
        (1, 2)
    } else if p == 4 {
        (1, 3)
    } else {
        (2, 3)
    }
}

/// The number of the plane of directions `mu < nu`.
pub open spec fn plane_of(mu: int, nu: int) -> int {
    if mu == 0 {
        nu - 1
    } else if mu == 1 {
        nu + 1
    } else {
        5
    }
}

/// The directions `(mu, nu, rho)` of cube orientation `q`.
pub open spec fn cube_dirs(q: int) -> (int, int, int) {
    if q == 0 {
        (0, 1, 2)
    } else if q == 1 {
        (0, 1, 3)
    } else if q == 2 {
        (0, 2, 3)
    } else {
        (1, 2, 3)
    }
}

/// The edges of face number `f`.
pub open spec fn face_edges_at(s: [usize; 4], f: int) -> [usize; 4] {
    let v = volume(s);
    let r = f % v;
    let (mu, nu) = plane_dirs(f / v);
    [
        (mu * v + r) as usize,
        (mu * v + neighbour(s, r, nu)) as usize,
        (nu * v + neighbour(s, r, mu)) as usize,
        (nu * v + r) as usize,
    ]
}

/// The faces of cube number `c`.
pub open spec fn cube_faces_at(s: [usize; 4], c: int) -> [usize; 6] {
    let v = volume(s);
    let r = c % v;
    let (mu, nu, rho) = cube_dirs(c / v);
    [
        (plane_of(nu, rho) * v + neighbour(s, r, mu)) as usize,
        (plane_of(nu, rho) * v + r) as usize,
        (plane_of(mu, rho) * v + r) as usize,
        (plane_of(mu, rho) * v + neighbour(s, r, nu)) as usize,
        (plane_of(mu, nu) * v + neighbour(s, r, rho)) as usize,
        (plane_of(mu, nu) * v + r) as usize,
    ]
}

/// `l` has the cells of the periodic lattice of shape `s`: `4 V` edges,
/// `6 V` faces and `4 V` cubes, with the incidences described above.
pub open spec fn is_periodic<const ZORDER: usize>(l: ZNLattice<4, ZORDER>, s: [usize; 4]) -> bool {
    &&& l.edges@.len() == 4 * volume(s)
    &&& l.faces@.len() == 6 * volume(s)
    &&& l.cubes@.len() == 4 * volume(s)
    &&& forall|f: int| 0 <= f < l.faces@.len() ==> #[trigger] l.face_edges@[f] == face_edges_at(s, f)
    &&& forall|c: int| 0 <= c < l.cubes@.len() ==> #[trigger] l.cube_faces@[c] == cube_faces_at(s, c)
}

/// Two lattices with the cells of the same periodic lattice have the same
/// cells.
pub proof fn lemma_periodic_same_cells<const ZORDER: usize>(
    a: ZNLattice<4, ZORDER>,
    b: ZNLattice<4, ZORDER>,
    s: [usize; 4],
)
    requires
        a.wf(),
        b.wf(),
        is_periodic(a, s),
        is_periodic(b, s),
    ensures
        a.same_cells(&b),
{
    assert(a.face_edges@ =~= b.face_edges@);
    assert(a.cube_faces@ =~= b.cube_faces@);
}

proof fn lemma_site_bound(s: [usize; 4], x0: int, x1: int, x2: int, x3: int)
    requires
        0 <= x0 < s[0],
        0 <= x1 < s[1],
        0 <= x2 < s[2],
        0 <= x3 < s[3],
    ensures
        0 <= site(s, x0, x1, x2, x3) < volume(s),
{
    let a = x0 * s[1] + x1;
    assert(0 <= a < s[0] * s[1]) by (nonlinear_arith)
        requires
            0 <= x0 < s[0],
            0 <= x1 < s[1],
            a == x0 * s[1] + x1,
    ;
    let b = a * s[2] + x2;
    assert(0 <= b < s[0] * s[1] * s[2]) by (nonlinear_arith)
        requires
            0 <= a < s[0] * s[1],
            0 <= x2 < s[2],
            b == a * s[2] + x2,
    ;
    let c = b * s[3] + x3;
    assert(0 <= c < s[0] * s[1] * s[2] * s[3]) by (nonlinear_arith)
        requires
            0 <= b < s[0] * s[1] * s[2],
            0 <= x3 < s[3],
            c == b * s[3] + x3,
    ;
}

proof fn lemma_coords_bound(s: [usize; 4], r: int)
    requires
        0 <= r < volume(s),
    ensures
        s[0] > 0 && s[1] > 0 && s[2] > 0 && s[3] > 0,
        forall|d: int| 0 <= d < 4 ==> 0 <= #[trigger] coord(s, r, d) < s[d],
        site(s, coord(s, r, 0), coord(s, r, 1), coord(s, r, 2), coord(s, r, 3)) == r,
{
    let (s0, s1, s2, s3) = (s[0] as int, s[1] as int, s[2] as int, s[3] as int);
    assert(s0 > 0 && s1 > 0 && s2 > 0 && s3 > 0) by (nonlinear_arith)
        requires
            0 <= r < s0 * s1 * s2 * s3,
            s0 >= 0,
            s1 >= 0,
            s2 >= 0,
            s3 >= 0,
    ;
    let r1 = r / s3;
    let r2 = r1 / s2;
    let r3 = r2 / s1;
    assert(r == r1 * s3 + r % s3 && 0 <= r % s3 < s3 && 0 <= r1 < s0 * s1 * s2) by (nonlinear_arith)
        requires
            0 <= r < s0 * s1 * s2 * s3,
            s3 > 0,
            r1 == r / s3,
    ;
    assert(r1 == r2 * s2 + r1 % s2 && 0 <= r1 % s2 < s2 && 0 <= r2 < s0 * s1) by (nonlinear_arith)
        requires
            0 <= r1 < s0 * s1 * s2,
            s2 > 0,
            r2 == r1 / s2,
    ;
    assert(r2 == r3 * s1 + r2 % s1 && 0 <= r2 % s1 < s1 && 0 <= r3 < s0) by (nonlinear_arith)
        requires
            0 <= r2 < s0 * s1,
            s1 > 0,
            r3 == r2 / s1,
    ;
}

/// A shifted site is a site of the lattice.
pub proof fn lemma_shifted_site_bound(s: [usize; 4], r: int, mu: int, dist: int)
    requires
        0 <= r < volume(s),
        0 <= mu < 4,
        dist >= 0,
    ensures
        0 <= shifted_site(s, r, mu, dist) < volume(s),
{
    lemma_coords_bound(s, r);
    assert forall|k: int| 0 <= k < 4 implies 0 <= #[trigger] shifted_coord(s, r, mu, dist, k) < s[k] by {
        assert(0 <= coord(s, r, k) < s[k]);
    }
    lemma_site_bound(
        s,
        shifted_coord(s, r, mu, dist, 0),
        shifted_coord(s, r, mu, dist, 1),
        shifted_coord(s, r, mu, dist, 2),
        shifted_coord(s, r, mu, dist, 3),
    );
}

proof fn lemma_neighbour_bound(s: [usize; 4], r: int, mu: int)
    requires
        0 <= r < volume(s),
        0 <= mu < 4,
    ensures
        0 <= neighbour(s, r, mu) < volume(s),
{
    lemma_shifted_site_bound(s, r, mu, 1);
}

/// The number of sites of shape `s`.
pub(crate) fn volume_exec(s: [usize; 4]) -> (res: usize)
    requires
        volume(s) <= usize::MAX,
    ensures
        res == volume(s),
{
    if s[0] == 0 || s[1] == 0 || s[2] == 0 || s[3] == 0 {
        assert(volume(s) == 0) by (nonlinear_arith)
            requires
                s[0] == 0 || s[1] == 0 || s[2] == 0 || s[3] == 0,
        ;
        return 0;
    }
    assert(s[0] * s[1] <= s[0] * s[1] * s[2] <= volume(s)) by (nonlinear_arith)
        requires
            s[0] >= 1 && s[1] >= 1 && s[2] >= 1 && s[3] >= 1,
    ;
    s[0] * s[1] * s[2] * s[3]
}

/// The site `dist` steps along `mu` from site `r`.
pub fn shifted_site_exec(s: [usize; 4], r: usize, mu: usize, dist: usize) -> (res: usize)
    requires
        r < volume(s),
        volume(s) <= usize::MAX,
        mu < 4,
    ensures
        res == shifted_site(s, r as int, mu as int, dist as int),
{
    proof {
        lemma_coords_bound(s, r as int);
        lemma_shifted_site_bound(s, r as int, mu as int, dist as int);
    }
    let x3 = r % s[3];
    let r1 = r / s[3];
    let x2 = r1 % s[2];
    let r2 = r1 / s[2];
    let x1 = r2 % s[1];
    let x0 = r2 / s[1];
    let mut x = [x0, x1, x2, x3];
    assert(x[0] == coord(s, r as int, 0) && x[1] == coord(s, r as int, 1));
    assert(x[2] == coord(s, r as int, 2) && x[3] == coord(s, r as int, 3));
    let m = s[mu];
    let t = dist % m;
    let shifted = if x[mu] >= m - t {
        x[mu] - (m - t)
    } else {
        x[mu] + t
    };
    proof {
        let xi = x[mu as int] as int;
        vstd::arithmetic::div_mod::lemma_add_mod_noop(xi, dist as int, m as int);
        vstd::arithmetic::div_mod::lemma_small_mod(x[mu as int] as nat, m as nat);
        if xi + t >= m {
            vstd::arithmetic::div_mod::lemma_mod_sub_multiples_vanish(xi + t, m as int);
            vstd::arithmetic::div_mod::lemma_small_mod((xi + t - m) as nat, m as nat);
        } else {
            vstd::arithmetic::div_mod::lemma_small_mod((xi + t) as nat, m as nat);
        }
        assert(shifted == (xi + dist) % (m as int));
    }
    x[mu] = shifted;
    assert(x[0] == shifted_coord(s, r as int, mu as int, dist as int, 0));
    assert(x[1] == shifted_coord(s, r as int, mu as int, dist as int, 1));
    assert(x[2] == shifted_coord(s, r as int, mu as int, dist as int, 2));
    assert(x[3] == shifted_coord(s, r as int, mu as int, dist as int, 3));
    proof {
        lemma_site_bound(s, x[0] as int, x[1] as int, x[2] as int, x[3] as int);
        let a = x[0] * s[1] + x[1];
        let b = a * s[2] + x[2];
        assert(0 <= x[0] * s[1] <= a <= a * s[2] <= b <= b * s[3]) by (nonlinear_arith)
            requires
                a == x[0] * s[1] + x[1],
                b == a * s[2] + x[2],
                x[0] >= 0,
                x[1] >= 0,
                x[2] >= 0,
                s[1] > 0,
                s[2] > 0,
                s[3] > 0,
        ;
    }
    ((x[0] * s[1] + x[1]) * s[2] + x[2]) * s[3] + x[3]
}

/// The neighbour of site `r` one step along `mu`.
fn neighbour_exec(s: [usize; 4], r: usize, mu: usize) -> (res: usize)
    requires
        r < volume(s),
        volume(s) <= usize::MAX,
        mu < 4,
    ensures
        res == neighbour(s, r as int, mu as int),
{
    shifted_site_exec(s, r, mu, 1)
}

/// The edges of the faces and the faces of the cubes of the periodic lattice
/// of shape `s`, with its number of edges.
pub fn periodic_cells(s: [usize; 4]) -> (res: (usize, Vec<[usize; 4]>, Vec<[usize; 6]>))
    requires
        6 * volume(s) <= usize::MAX,
    ensures
        res.0 == 4 * volume(s),
        res.1@.len() == 6 * volume(s),
        res.2@.len() == 4 * volume(s),
        forall|f: int| 0 <= f < res.1@.len() ==> #[trigger] res.1@[f] == face_edges_at(s, f),
        forall|c: int| 0 <= c < res.2@.len() ==> #[trigger] res.2@[c] == cube_faces_at(s, c),
        forall|f: int, k: int| 0 <= f < res.1@.len() && 0 <= k < 4 ==> #[trigger] res.1@[f][k] < res.0,
        forall|c: int, k: int| 0 <= c < res.2@.len() && 0 <= k < 6 ==> #[trigger] res.2@[c][k] < res.1@.len(),
{
    let v = volume_exec(s);
    let n_faces = 6 * v;
    let mut face_edges: Vec<[usize; 4]> = Vec::new();
    let mut f: usize = 0;
    while f < n_faces
        invariant
            v == volume(s),
            n_faces == 6 * v,
            6 * volume(s) <= usize::MAX,
            0 <= f <= n_faces,
            face_edges@.len() == f,
            forall|g: int| 0 <= g < f ==> #[trigger] face_edges@[g] == face_edges_at(s, g),
            forall|g: int, k: int| 0 <= g < f && 0 <= k < 4 ==> #[trigger] face_edges@[g][k] < 4 * v,
        decreases n_faces - f,
    {
        let p = f / v;
        let r = f % v;
        assert(0 <= p < 6 && 0 <= r < v) by (nonlinear_arith)
            requires
                0 <= f < 6 * v,
                p == f / v,
                r == f % v,
        ;
        let (mu, nu): (usize, usize) = if p == 0 {
            (0, 1)
        } else if p == 1 {
            (0, 2)
        } else if p == 2 {
            (0, 3)
        } else if p == 3 {
            (1, 2)
        } else if p == 4 {
            (1, 3)
        } else {
            (2, 3)
        };
        let n_nu = neighbour_exec(s, r, nu);
        let n_mu = neighbour_exec(s, r, mu);
        proof {
            lemma_neighbour_bound(s, r as int, nu as int);
            lemma_neighbour_bound(s, r as int, mu as int);
            assert(mu * v + v <= 4 * v && nu * v + v <= 4 * v) by (nonlinear_arith)
                requires
                    mu <= 3,
                    nu <= 3,
                    v >= 0,
            ;
        }
        let fe = [mu * v + r, mu * v + n_nu, nu * v + n_mu, nu * v + r];
        assert(fe == face_edges_at(s, f as int));
        face_edges.push(fe);
        f += 1;
    }
    let n_cubes = 4 * v;
    let mut cube_faces: Vec<[usize; 6]> = Vec::new();
    let mut c: usize = 0;
    while c < n_cubes
        invariant
            v == volume(s),
            n_cubes == 4 * v,
            6 * volume(s) <= usize::MAX,
            0 <= c <= n_cubes,
            cube_faces@.len() == c,
            forall|g: int| 0 <= g < c ==> #[trigger] cube_faces@[g] == cube_faces_at(s, g),
            forall|g: int, k: int| 0 <= g < c && 0 <= k < 6 ==> #[trigger] cube_faces@[g][k] < 6 * v,
        decreases n_cubes - c,
    {
        let q = c / v;
        let r = c % v;
        assert(0 <= q < 4 && 0 <= r < v) by (nonlinear_arith)
            requires
                0 <= c < 4 * v,
                q == c / v,
                r == c % v,
        ;
        let (mu, nu, rho): (usize, usize, usize) = if q == 0 {
            (0, 1, 2)
        } else if q == 1 {
            (0, 1, 3)
        } else if q == 2 {
            (0, 2, 3)
        } else {
            (1, 2, 3)
        };
        let p_nu_rho: usize = if nu == 1 { rho + 1 } else { 5 };
        let p_mu_rho: usize = if mu == 0 { rho - 1 } else { rho + 1 };
        let p_mu_nu: usize = if mu == 0 { nu - 1 } else { nu + 1 };
        assert(p_nu_rho == plane_of(nu as int, rho as int));
        assert(p_mu_rho == plane_of(mu as int, rho as int));
        assert(p_mu_nu == plane_of(mu as int, nu as int));
        let n_mu = neighbour_exec(s, r, mu);
        let n_nu = neighbour_exec(s, r, nu);
        let n_rho = neighbour_exec(s, r, rho);
        proof {
            lemma_neighbour_bound(s, r as int, mu as int);
            lemma_neighbour_bound(s, r as int, nu as int);
            lemma_neighbour_bound(s, r as int, rho as int);
            assert(p_nu_rho * v + v <= 6 * v && p_mu_rho * v + v <= 6 * v && p_mu_nu * v + v <= 6 * v)
                by (nonlinear_arith)
                requires
                    p_nu_rho <= 5,
                    p_mu_rho <= 5,
                    p_mu_nu <= 5,
                    v >= 0,
            ;
        }
        let cf = [
            p_nu_rho * v + n_mu,
            p_nu_rho * v + r,
            p_mu_rho * v + r,
            p_mu_rho * v + n_nu,
            p_mu_nu * v + n_rho,
            p_mu_nu * v + r,
        ];
        assert(cf == cube_faces_at(s, c as int));
        cube_faces.push(cf);
        c += 1;
    }
    (4 * v, face_edges, cube_faces)
}

impl<const ZORDER: usize> ZNLattice<4, ZORDER> {
    /// The periodic lattice of shape `s` at rest: every phase `0`.
    pub fn periodic(s: [usize; 4]) -> (res: Self)
        requires
            6 * volume(s) <= usize::MAX,
            0 < ZORDER,
        ensures
            res.wf(),
            res.consistent(),
            is_periodic(res, s),
            forall|e: int|
                0 <= e < res.edges@.len() ==> (#[trigger] res.edge_faces@[e])@ == faces_of_edge(
                    res.face_edges@,
                    e,
                    res.faces@.len() as int,
                ),
            forall|e: int|
                0 <= e < res.edges@.len() ==> (#[trigger] res.edge_cubes@[e])@ == cubes_of_edge(
                    res.face_edges@,
                    res.cube_faces@,
                    e,
                    res.cubes@.len() as int,
                ),
            forall|e: int| 0 <= e < res.edges@.len() ==> (#[trigger] res.edges@[e]).phase == 0,
    {
        let (n_edges, face_edges, cube_faces) = periodic_cells(s);
        let built = Self::from_cells(n_edges, face_edges, cube_faces);
        built.unwrap()
    }
}

} // verus!
