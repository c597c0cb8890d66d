use vstd::prelude::*;

use crate::gauge_fields::cubes::MonopoleField;
use crate::gauge_fields::edges::EdgeField;
use crate::gauge_fields::plaquettes::PlaquetteField;

verus! {

/// Marker for the field content of a Z_N gauge lattice: a phase on every
/// edge, a holonomy and a Dirac string on every face, a monopole charge on
/// every cube.
pub struct ZNLatticeTypes<const NDIM: usize, const ZORDER: usize> {}

/// A cubical lattice carrying a Z_N gauge field.
///
/// Cells are numbered `0..n` per kind. `face_edges[f]` lists the four edges
/// of face `f` in boundary order (signs `+ - + -`), `cube_faces[c]` the six
/// faces of cube `c` (signs alternating `+ - + - + -`), and `edge_faces[e]`,
/// `edge_cubes[e]` the faces and cubes that an edge bounds.
pub struct ZNLattice<const NDIM: usize, const ZORDER: usize> {
    pub edges: Vec<EdgeField<NDIM, ZORDER>>,
    pub faces: Vec<PlaquetteField<NDIM, ZORDER>>,
    pub cubes: Vec<MonopoleField<NDIM, ZORDER>>,
    pub face_edges: Vec<[usize; 4]>,
    pub cube_faces: Vec<[usize; 6]>,
    pub edge_faces: Vec<Vec<usize>>,
    pub edge_cubes: Vec<Vec<usize>>,
}

/// `phase` read as a signed winding in `(-ZORDER/2, ZORDER/2]`.
pub open spec fn shifted_phase(phase: int, zorder: int) -> int {
    if phase <= zorder / 2 {
        phase
    } else {
        phase - zorder
    }
}

/// Holonomy of a face: the oriented sum of its edge phases, modulo `ZORDER`.
pub open spec fn holonomy_spec<const NDIM: usize, const ZORDER: usize>(
    edges: Seq<EdgeField<NDIM, ZORDER>>,
    fe: [usize; 4],
) -> int {
    (2 * ZORDER + edges[fe[0] as int].phase - edges[fe[1] as int].phase + edges[fe[2] as int].phase
        - edges[fe[3] as int].phase) % (ZORDER as int)
}

/// Oriented sum of the shifted phases around a face.
pub open spec fn winding_spec<const NDIM: usize, const ZORDER: usize>(
    edges: Seq<EdgeField<NDIM, ZORDER>>,
    fe: [usize; 4],
) -> int {
    shifted_phase(edges[fe[0] as int].phase as int, ZORDER as int) - shifted_phase(
        edges[fe[1] as int].phase as int,
        ZORDER as int,
    ) + shifted_phase(edges[fe[2] as int].phase as int, ZORDER as int) - shifted_phase(
        edges[fe[3] as int].phase as int,
        ZORDER as int,
    )
}

/// The Dirac string through a face: `1` or `-1` where the winding exceeds
/// half a period in either direction, `0` otherwise.
pub open spec fn dirac_string_of_winding(winding: int, zorder: int) -> int {
    if winding > zorder / 2 {
        1
    } else if winding < -(zorder / 2) {
        -1
    } else {
        0
    }
}

pub open spec fn dirac_string_spec<const NDIM: usize, const ZORDER: usize>(
    edges: Seq<EdgeField<NDIM, ZORDER>>,
    fe: [usize; 4],
) -> int {
    dirac_string_of_winding(winding_spec(edges, fe), ZORDER as int)
}

/// Alternating sum `d0 - d1 + d2 - ...` of the Dirac strings of the first
/// `k` faces listed in `cf`.
pub open spec fn charge_partial<const NDIM: usize, const ZORDER: usize>(
    faces: Seq<PlaquetteField<NDIM, ZORDER>>,
    cf: Seq<usize>,
    k: int,
) -> int
    decreases k,
{
    if k <= 0 {
        0
    } else {
        let term = faces[cf[k - 1] as int].dirac_string as int;
        if (k - 1) % 2 == 0 {
            charge_partial(faces, cf, k - 1) + term
        } else {
            charge_partial(faces, cf, k - 1) - term
        }
    }
}

/// Monopole charge of a cube: the alternating sum of the Dirac strings of its
/// six faces.
pub open spec fn charge_spec<const NDIM: usize, const ZORDER: usize>(
    faces: Seq<PlaquetteField<NDIM, ZORDER>>,
    cf: [usize; 6],
) -> int {
    charge_partial(faces, cf@, 6)
}

pub open spec fn face_has_edge(fe: [usize; 4], e: int) -> bool {
    fe[0] == e || fe[1] == e || fe[2] == e || fe[3] == e
}

/// The faces among the first `n` of `face_edges` that have edge `e`, in
/// increasing order.
pub open spec fn faces_of_edge(face_edges: Seq<[usize; 4]>, e: int, n: int) -> Seq<usize>
    decreases n,
{
    if n <= 0 {
        Seq::empty()
    } else {
        let r = faces_of_edge(face_edges, e, n - 1);
        if face_has_edge(face_edges[n - 1], e) {
            r.push((n - 1) as usize)
        } else {
            r
        }
    }
}

/// `faces_of_edge` lists, in increasing order, exactly the faces among the
/// first `n` that have edge `e`.
pub proof fn lemma_faces_of_edge(face_edges: Seq<[usize; 4]>, e: int, n: int)
    requires
        0 <= n <= usize::MAX,
    ensures
        forall|i: int|
            0 <= i < faces_of_edge(face_edges, e, n).len() ==> #[trigger] faces_of_edge(face_edges, e, n)[i]
                < n && face_has_edge(face_edges[faces_of_edge(face_edges, e, n)[i] as int], e),
        forall|i: int, j: int|
            0 <= i < j < faces_of_edge(face_edges, e, n).len() ==> #[trigger] faces_of_edge(face_edges, e, n)[i]
                < #[trigger] faces_of_edge(face_edges, e, n)[j],
        forall|g: int|
            0 <= g < n && face_has_edge(#[trigger] face_edges[g], e) ==> faces_of_edge(face_edges, e, n).contains(
                g as usize,
            ),
    decreases n,
{
    if n > 0 {
        lemma_faces_of_edge(face_edges, e, n - 1);
        let r = faces_of_edge(face_edges, e, n - 1);
        let all = faces_of_edge(face_edges, e, n);
        assert forall|g: int| 0 <= g < n && face_has_edge(#[trigger] face_edges[g], e) implies all.contains(
            g as usize,
        ) by {
            if g < n - 1 {
                assert(r.contains(g as usize));
                let i = choose|i: int| 0 <= i < r.len() && r[i] == g as usize;
                assert(all[i] == g as usize);
            } else {
                assert(all[all.len() - 1] == g as usize);
            }
        }
        assert forall|i: int, j: int| 0 <= i < j < all.len() implies #[trigger] all[i] < #[trigger] all[j] by {
            if j < r.len() {
                assert(all[i] == r[i] && all[j] == r[j]);
            } else {
                assert(all[i] == r[i]);
            }
        }
        assert forall|i: int| 0 <= i < all.len() implies #[trigger] all[i] < n && face_has_edge(
            face_edges[all[i] as int],
            e,
        ) by {
            if i < r.len() {
                assert(all[i] == r[i]);
            }
        }
    }
}

/// One of the faces `cf` of a cube has edge `e`.
pub open spec fn cube_has_edge(face_edges: Seq<[usize; 4]>, cf: [usize; 6], e: int) -> bool {
    exists|j: int| 0 <= j < 6 && #[trigger] face_has_edge(face_edges[cf[j] as int], e)
}

/// One of the first `j` faces `cf` of a cube has edge `e`.
pub open spec fn cube_prefix_has_edge(face_edges: Seq<[usize; 4]>, cf: [usize; 6], e: int, j: int) -> bool {
    exists|j2: int| 0 <= j2 < j && #[trigger] face_has_edge(face_edges[cf[j2] as int], e)
}

/// The cubes among the first `n` of `cube_faces` that have edge `e`, in
/// increasing order.
pub open spec fn cubes_of_edge(face_edges: Seq<[usize; 4]>, cube_faces: Seq<[usize; 6]>, e: int, n: int) -> Seq<
    usize,
>
    decreases n,
{
    if n <= 0 {
        Seq::empty()
    } else {
        let r = cubes_of_edge(face_edges, cube_faces, e, n - 1);
        if cube_has_edge(face_edges, cube_faces[n - 1], e) {
            r.push((n - 1) as usize)
        } else {
            r
        }
    }
}

/// `cubes_of_edge` lists, in increasing order, exactly the cubes among the
/// first `n` that have edge `e`.
pub proof fn lemma_cubes_of_edge(face_edges: Seq<[usize; 4]>, cube_faces: Seq<[usize; 6]>, e: int, n: int)
    requires
        0 <= n <= usize::MAX,
    ensures
        forall|i: int|
            0 <= i < cubes_of_edge(face_edges, cube_faces, e, n).len() ==> #[trigger] cubes_of_edge(
                face_edges,
                cube_faces,
                e,
                n,
            )[i] < n && cube_has_edge(
                face_edges,
                cube_faces[cubes_of_edge(face_edges, cube_faces, e, n)[i] as int],
                e,
            ),
        forall|i: int, j: int|
            0 <= i < j < cubes_of_edge(face_edges, cube_faces, e, n).len() ==> #[trigger] cubes_of_edge(
                face_edges,
                cube_faces,
                e,
                n,
            )[i] < #[trigger] cubes_of_edge(face_edges, cube_faces, e, n)[j],
        forall|c: int|
            0 <= c < n && cube_has_edge(face_edges, #[trigger] cube_faces[c], e) ==> cubes_of_edge(
                face_edges,
                cube_faces,
                e,
                n,
            ).contains(c as usize),
    decreases n,
{
    if n > 0 {
        lemma_cubes_of_edge(face_edges, cube_faces, e, n - 1);
        let r = cubes_of_edge(face_edges, cube_faces, e, n - 1);
        let all = cubes_of_edge(face_edges, cube_faces, e, n);
        assert forall|c: int| 0 <= c < n && cube_has_edge(face_edges, #[trigger] cube_faces[c], e) implies all.contains(
            c as usize,
        ) by {
            if c < n - 1 {
                assert(r.contains(c as usize));
                let i = choose|i: int| 0 <= i < r.len() && r[i] == c as usize;
                assert(all[i] == c as usize);
            } else {
                assert(all[all.len() - 1] == c as usize);
            }
        }
        assert forall|i: int, j: int| 0 <= i < j < all.len() implies #[trigger] all[i] < #[trigger] all[j] by {
            if j < r.len() {
                assert(all[i] == r[i] && all[j] == r[j]);
            } else {
                assert(all[i] == r[i]);
            }
        }
        assert forall|i: int| 0 <= i < all.len() implies #[trigger] all[i] < n && cube_has_edge(
            face_edges,
            cube_faces[all[i] as int],
            e,
        ) by {
            if i < r.len() {
                assert(all[i] == r[i]);
            }
        }
    }
}

/// Edge `x` is among the first `k` edges of `fe`.
pub open spec fn edge_in_prefix(fe: [usize; 4], x: int, k: int) -> bool {
    exists|j: int| 0 <= j < k && #[trigger] fe[j] == x
}

impl<const NDIM: usize, const ZORDER: usize> ZNLattice<NDIM, ZORDER> {
    pub open spec fn num_edges_spec(&self) -> int {
        self.edges@.len() as int
    }

    pub open spec fn num_faces_spec(&self) -> int {
        self.faces@.len() as int
    }

    pub open spec fn num_cubes_spec(&self) -> int {
        self.cubes@.len() as int
    }

    /// Every edge phase lies in `0..ZORDER`.
    pub open spec fn phases_in_range(&self) -> bool {
        forall|e: int| 0 <= e < self.edges@.len() ==> #[trigger] self.edges@[e].phase < ZORDER
    }

    /// The incidence structure is well formed: the tables have matching
    /// lengths, every index points at an existing cell, every face is listed
    /// among the faces of each of its edges, and every cube is listed among the
    /// cubes of each edge of each of its faces.
    pub open spec fn structure_wf(&self) -> bool {
        &&& 0 < ZORDER
        &&& self.edge_faces@.len() == self.edges@.len()
        &&& self.edge_cubes@.len() == self.edges@.len()
        &&& self.face_edges@.len() == self.faces@.len()
        &&& self.cube_faces@.len() == self.cubes@.len()
        &&& forall|f: int, k: int|
            0 <= f < self.faces@.len() && 0 <= k < 4 ==> #[trigger] self.face_edges@[f][k]
                < self.edges@.len()
        &&& forall|c: int, k: int|
            0 <= c < self.cubes@.len() && 0 <= k < 6 ==> #[trigger] self.cube_faces@[c][k]
                < self.faces@.len()
        &&& forall|e: int, i: int|
            0 <= e < self.edges@.len() && 0 <= i < self.edge_faces@[e]@.len()
                ==> #[trigger] self.edge_faces@[e]@[i] < self.faces@.len()
        &&& forall|e: int, i: int|
            0 <= e < self.edges@.len() && 0 <= i < self.edge_cubes@[e]@.len()
                ==> #[trigger] self.edge_cubes@[e]@[i] < self.cubes@.len()
        &&& forall|f: int, k: int|
            0 <= f < self.faces@.len() && 0 <= k < 4 ==> #[trigger] self.edge_faces@[self.face_edges@[f][k] as int]@.contains(
                f as usize,
            )
        &&& forall|c: int, j: int, k: int|
            0 <= c < self.cubes@.len() && 0 <= j < 6 && 0 <= k < 4
                ==> #[trigger] self.edge_cubes@[self.face_edges@[self.cube_faces@[c][j] as int][k] as int]@.contains(
                c as usize,
            )
    }

    /// A well-formed lattice: sound incidence tables and phases in range.
    pub open spec fn wf(&self) -> bool {
        &&& self.structure_wf()
        &&& self.phases_in_range()
    }

    pub open spec fn face_consistent(&self, f: int) -> bool {
        &&& self.faces@[f].holonomy as int == holonomy_spec(self.edges@, self.face_edges@[f])
        &&& self.faces@[f].dirac_string as int == dirac_string_spec(
            self.edges@,
            self.face_edges@[f],
        )
    }

    pub open spec fn cube_consistent(&self, c: int) -> bool {
        self.cubes@[c].charge as int == charge_spec(self.faces@, self.cube_faces@[c])
    }

    /// The face and cube data are exactly what the edge phases determine.
    pub open spec fn consistent(&self) -> bool {
        &&& forall|f: int| 0 <= f < self.faces@.len() ==> #[trigger] self.face_consistent(f)
        &&& forall|c: int| 0 <= c < self.cubes@.len() ==> #[trigger] self.cube_consistent(c)
    }

    /// `other` has as many cells as `self`, and faces and cubes made of the
    /// same cells.
    pub open spec fn same_cells(&self, other: &Self) -> bool {
        &&& self.edges@.len() == other.edges@.len()
        &&& self.faces@.len() == other.faces@.len()
        &&& self.cubes@.len() == other.cubes@.len()
        &&& self.face_edges@ == other.face_edges@
        &&& self.cube_faces@ == other.cube_faces@
    }

    /// `other` has the same incidence tables as `self`.
    pub open spec fn same_structure(&self, other: &Self) -> bool {
        &&& self.same_cells(other)
        &&& self.edge_faces@ == other.edge_faces@
        &&& self.edge_cubes@ == other.edge_cubes@
    }

    pub fn num_edges(&self) -> (n: usize)
        ensures
            n == self.edges@.len(),
    {
        self.edges.len()
    }

    pub fn num_faces(&self) -> (n: usize)
        ensures
            n == self.faces@.len(),
    {
        self.faces.len()
    }

    pub fn num_cubes(&self) -> (n: usize)
        ensures
            n == self.cubes@.len(),
    {
        self.cubes.len()
    }
}

/// Whether `x` occurs in `v`.
pub fn vec_contains(v: &Vec<usize>, x: usize) -> (res: bool)
    ensures
        res == v@.contains(x),
{
    let mut i: usize = 0;
    while i < v.len()
        invariant
            0 <= i <= v@.len(),
            forall|j: int| 0 <= j < i ==> v@[j] != x,
        decreases v@.len() - i,
    {
        if v[i] == x {
            assert(v@[i as int] == x);
            return true;
        }
        i += 1;
    }
    false
}

/// Appending `x` to list `e` keeps every member of every list and adds `x`
/// to list `e`.
proof fn lemma_push_keeps_members(before: Seq<Vec<usize>>, after: Seq<Vec<usize>>, e: int, x: usize)
    requires
        0 <= e < before.len(),
        after == before.update(e, after[e]),
        after[e]@ == before[e]@.push(x),
    ensures
        forall|j: int, y: usize|
            0 <= j < before.len() && #[trigger] before[j]@.contains(y) ==> after[j]@.contains(y),
        after[e]@.contains(x),
        forall|j: int, i: int|
            0 <= j < before.len() && 0 <= i < after[j]@.len() ==> (#[trigger] after[j]@[i] == x || (i
                < before[j]@.len() && after[j]@[i] == before[j]@[i])),
{
    assert forall|j: int, y: usize| 0 <= j < before.len() && #[trigger] before[j]@.contains(y) implies after[j]@.contains(y) by {
        let i = choose|i: int| 0 <= i < before[j]@.len() && before[j]@[i] == y;
        if j == e {
            assert(after[j]@[i] == y);
        } else {
            assert(after[j] == before[j]);
        }
    }
    assert(after[e]@[after[e]@.len() - 1] == x);
}

/// Two consistent lattices with the same incidence tables and the same edge
/// phases carry the same face and cube data.
pub proof fn lemma_consistent_unique<const NDIM: usize, const ZORDER: usize>(
    g1: &ZNLattice<NDIM, ZORDER>,
    g2: &ZNLattice<NDIM, ZORDER>,
)
    requires
        g1.wf(),
        g2.wf(),
        g1.consistent(),
        g2.consistent(),
        g1.same_cells(g2),
        g1.edges@ == g2.edges@,
    ensures
        g1.faces@ == g2.faces@,
        g1.cubes@ == g2.cubes@,
{
    assert forall|f: int| 0 <= f < g1.faces@.len() implies g1.faces@[f] == g2.faces@[f] by {
        assert(g1.face_consistent(f));
        assert(g2.face_consistent(f));
    }
    assert(g1.faces@ =~= g2.faces@);
    assert forall|c: int| 0 <= c < g1.cubes@.len() implies g1.cubes@[c] == g2.cubes@[c] by {
        assert(g1.cube_consistent(c));
        assert(g2.cube_consistent(c));
    }
    assert(g1.cubes@ =~= g2.cubes@);
}

impl<const NDIM: usize, const ZORDER: usize> ZNLattice<NDIM, ZORDER> {
    /// Builds a lattice from its incidence tables, with every phase `0`, every
    /// face and cube at rest. Returns `None` when the tables are not well
    /// formed (see `structure_wf`) or when `ZORDER` is `0`.
    pub fn new(
        face_edges: Vec<[usize; 4]>,
        cube_faces: Vec<[usize; 6]>,
        edge_faces: Vec<Vec<usize>>,
        edge_cubes: Vec<Vec<usize>>,
    ) -> (res: Option<Self>)
        ensures
            res is Some <==> {
                let n_e = edge_faces@.len();
                let n_f = face_edges@.len();
                let n_c = cube_faces@.len();
                &&& 0 < ZORDER
                &&& edge_cubes@.len() == n_e
                &&& forall|f: int, k: int|
                    0 <= f < n_f && 0 <= k < 4 ==> #[trigger] face_edges@[f][k] < n_e
                &&& forall|c: int, k: int|
                    0 <= c < n_c && 0 <= k < 6 ==> #[trigger] cube_faces@[c][k] < n_f
                &&& forall|e: int, i: int|
                    0 <= e < n_e && 0 <= i < edge_faces@[e]@.len()
                        ==> #[trigger] edge_faces@[e]@[i] < n_f
                &&& forall|e: int, i: int|
                    0 <= e < n_e && 0 <= i < edge_cubes@[e]@.len()
                        ==> #[trigger] edge_cubes@[e]@[i] < n_c
                &&& forall|f: int, k: int|
                    0 <= f < n_f && 0 <= k < 4 ==> #[trigger] edge_faces@[face_edges@[f][k] as int]@.contains(
                        f as usize,
                    )
                &&& forall|c: int, j: int, k: int|
                    0 <= c < n_c && 0 <= j < 6 && 0 <= k < 4
                        ==> #[trigger] edge_cubes@[face_edges@[cube_faces@[c][j] as int][k] as int]@.contains(
                        c as usize,
                    )
            },
            res matches Some(g) ==> {
                &&& g.wf()
                &&& g.consistent()
                &&& g.face_edges@ == face_edges@
                &&& g.cube_faces@ == cube_faces@
                &&& g.edge_faces@ == edge_faces@
                &&& g.edge_cubes@ == edge_cubes@
                &&& g.edges@.len() == edge_faces@.len()
                &&& forall|e: int| 0 <= e < g.edges@.len() ==> (#[trigger] g.edges@[e]).phase == 0
            },
    {
        let n_e = edge_faces.len();
        let n_f = face_edges.len();
        let n_c = cube_faces.len();
        if ZORDER == 0 || edge_cubes.len() != n_e {
            return None;
        }
        let mut f: usize = 0;
        while f < n_f
            invariant
                n_f == face_edges@.len(),
                n_e == edge_faces@.len(),
                0 <= f <= n_f,
                forall|g: int, k: int| 0 <= g < f && 0 <= k < 4 ==> #[trigger] face_edges@[g][k] < n_e,
                forall|g: int, k: int|
                    0 <= g < f && 0 <= k < 4 ==> #[trigger] edge_faces@[face_edges@[g][k] as int]@.contains(
                        g as usize,
                    ),
            decreases n_f - f,
        {
            let fe = face_edges[f];
            let mut k: usize = 0;
            while k < 4
                invariant
                    n_f == face_edges@.len(),
                    n_e == edge_faces@.len(),
                    0 <= f < n_f,
                    fe == face_edges@[f as int],
                    0 <= k <= 4,
                    forall|g: int, k: int| 0 <= g < f && 0 <= k < 4 ==> #[trigger] face_edges@[g][k] < n_e,
                    forall|g: int, k: int|
                        0 <= g < f && 0 <= k < 4 ==> #[trigger] edge_faces@[face_edges@[g][k] as int]@.contains(
                            g as usize,
                        ),
                    forall|j: int| 0 <= j < k ==> #[trigger] fe[j] < n_e,
                    forall|j: int| 0 <= j < k ==> #[trigger] edge_faces@[fe[j] as int]@.contains(f),
                decreases 4 - k,
            {
                let e = fe[k];
                if e >= n_e {
                    assert(face_edges@[f as int][k as int] >= n_e);
                    return None;
                }
                if !vec_contains(&edge_faces[e], f) {
                    assert(!edge_faces@[face_edges@[f as int][k as int] as int]@.contains(f as usize));
                    return None;
                }
                k += 1;
            }
            assert forall|g: int, k: int| 0 <= g < f + 1 && 0 <= k < 4 implies #[trigger] face_edges@[g][k] < n_e by {
                if g == f {
                    assert(fe[k] < n_e);
                }
            }
            assert forall|g: int, k: int|
                0 <= g < f + 1 && 0 <= k < 4 implies #[trigger] edge_faces@[face_edges@[g][k] as int]@.contains(
                    g as usize) by {
                if g == f {
                    assert(edge_faces@[fe[k] as int]@.contains(f));
                }
            }
            f += 1;
        }
        let mut c: usize = 0;
        while c < n_c
            invariant
                n_c == cube_faces@.len(),
                n_f == face_edges@.len(),
                n_e == edge_faces@.len(),
                n_e == edge_cubes@.len(),
                0 <= c <= n_c,
                forall|g: int, k: int| 0 <= g < n_f && 0 <= k < 4 ==> #[trigger] face_edges@[g][k] < n_e,
                forall|d: int, k: int| 0 <= d < c && 0 <= k < 6 ==> #[trigger] cube_faces@[d][k] < n_f,
                forall|d: int, j: int, k: int|
                    0 <= d < c && 0 <= j < 6 && 0 <= k < 4
                        ==> #[trigger] edge_cubes@[face_edges@[cube_faces@[d][j] as int][k] as int]@.contains(
                        d as usize,
                    ),
            decreases n_c - c,
        {
            let cf = cube_faces[c];
            let mut j: usize = 0;
            while j < 6
                invariant
                    n_c == cube_faces@.len(),
                    n_f == face_edges@.len(),
                    n_e == edge_faces@.len(),
                    n_e == edge_cubes@.len(),
                    0 <= c < n_c,
                    cf == cube_faces@[c as int],
                    0 <= j <= 6,
                    forall|g: int, k: int| 0 <= g < n_f && 0 <= k < 4 ==> #[trigger] face_edges@[g][k] < n_e,
                    forall|d: int, k: int| 0 <= d < c && 0 <= k < 6 ==> #[trigger] cube_faces@[d][k] < n_f,
                    forall|d: int, j: int, k: int|
                        0 <= d < c && 0 <= j < 6 && 0 <= k < 4
                            ==> #[trigger] edge_cubes@[face_edges@[cube_faces@[d][j] as int][k] as int]@.contains(
                            d as usize,
                        ),
                    forall|i: int| 0 <= i < j ==> #[trigger] cf[i] < n_f,
                    forall|i: int, k: int|
                        0 <= i < j && 0 <= k < 4 ==> #[trigger] edge_cubes@[face_edges@[cf[i] as int][k] as int]@.contains(c),
                decreases 6 - j,
            {
                let fi = cf[j];
                if fi >= n_f {
                    assert(cube_faces@[c as int][j as int] >= n_f);
                    return None;
                }
                let fe = face_edges[fi];
                let mut k: usize = 0;
                while k < 4
                    invariant
                        n_c == cube_faces@.len(),
                        n_f == face_edges@.len(),
                        n_e == edge_faces@.len(),
                        n_e == edge_cubes@.len(),
                        0 <= c < n_c,
                        cf == cube_faces@[c as int],
                        0 <= j < 6,
                        fi == cf[j as int],
                        fi < n_f,
                        fe == face_edges@[fi as int],
                        0 <= k <= 4,
                        forall|g: int, k: int| 0 <= g < n_f && 0 <= k < 4 ==> #[trigger] face_edges@[g][k] < n_e,
                        forall|k2: int| 0 <= k2 < k ==> #[trigger] edge_cubes@[fe[k2] as int]@.contains(c),
                    decreases 4 - k,
                {
                    let e = fe[k];
                    assert(face_edges@[fi as int][k as int] < n_e);
                    if !vec_contains(&edge_cubes[e], c) {
                        assert(!edge_cubes@[face_edges@[cube_faces@[c as int][j as int] as int][k as int] as int]@.contains((c as int) as usize));
                        return None;
                    }
                    k += 1;
                }
                assert forall|i: int, k: int|
                    0 <= i < j + 1 && 0 <= k < 4 implies #[trigger] edge_cubes@[face_edges@[cf[i] as int][k] as int]@.contains(c) by {
                    if i == j {
                        assert(edge_cubes@[fe[k] as int]@.contains(c));
                    }
                }
                j += 1;
            }
            assert forall|d: int, j: int, k: int|
                0 <= d < c + 1 && 0 <= j < 6 && 0 <= k < 4
                    implies #[trigger] edge_cubes@[face_edges@[cube_faces@[d][j] as int][k] as int]@.contains(
                    d as usize) by {
                if d == c {
                    assert(edge_cubes@[face_edges@[cf[j] as int][k] as int]@.contains(c));
                }
            }
            c += 1;
        }
        let mut e: usize = 0;
        while e < n_e
            invariant
                n_e == edge_faces@.len(),
                n_e == edge_cubes@.len(),
                n_f == face_edges@.len(),
                n_c == cube_faces@.len(),
                0 <= e <= n_e,
                forall|e2: int, i: int|
                    0 <= e2 < e && 0 <= i < edge_faces@[e2]@.len() ==> #[trigger] edge_faces@[e2]@[i] < n_f,
                forall|e2: int, i: int|
                    0 <= e2 < e && 0 <= i < edge_cubes@[e2]@.len() ==> #[trigger] edge_cubes@[e2]@[i] < n_c,
            decreases n_e - e,
        {
            let mut i: usize = 0;
            while i < edge_faces[e].len()
                invariant
                    n_e == edge_faces@.len(),
                    n_f == face_edges@.len(),
                    0 <= e < n_e,
                    0 <= i <= edge_faces@[e as int]@.len(),
                    forall|i2: int| 0 <= i2 < i ==> #[trigger] edge_faces@[e as int]@[i2] < n_f,
                decreases edge_faces@[e as int]@.len() - i,
            {
                if edge_faces[e][i] >= n_f {
                    assert(edge_faces@[e as int]@[i as int] >= n_f);
                    return None;
                }
                i += 1;
            }
            let mut i: usize = 0;
            while i < edge_cubes[e].len()
                invariant
                    n_e == edge_cubes@.len(),
                    n_c == cube_faces@.len(),
                    0 <= e < n_e,
                    0 <= i <= edge_cubes@[e as int]@.len(),
                    forall|i2: int| 0 <= i2 < i ==> #[trigger] edge_cubes@[e as int]@[i2] < n_c,
                decreases edge_cubes@[e as int]@.len() - i,
            {
                if edge_cubes[e][i] >= n_c {
                    assert(edge_cubes@[e as int]@[i as int] >= n_c);
                    return None;
                }
                i += 1;
            }
            e += 1;
        }

        let mut edges: Vec<EdgeField<NDIM, ZORDER>> = Vec::new();
        let mut i: usize = 0;
        while i < n_e
            invariant
                0 <= i <= n_e,
                edges@.len() == i,
                forall|j: int| 0 <= j < i ==> (#[trigger] edges@[j]).phase == 0,
            decreases n_e - i,
        {
            edges.push(EdgeField { phase: 0 });
            i += 1;
        }
        let mut faces: Vec<PlaquetteField<NDIM, ZORDER>> = Vec::new();
        let mut i: usize = 0;
        while i < n_f
            invariant
                0 <= i <= n_f,
                faces@.len() == i,
                forall|j: int|
                    0 <= j < i ==> (#[trigger] faces@[j]).holonomy == 0 && faces@[j].dirac_string == 0,
            decreases n_f - i,
        {
            faces.push(PlaquetteField { holonomy: 0, dirac_string: 0 });
            i += 1;
        }
        let mut cubes: Vec<MonopoleField<NDIM, ZORDER>> = Vec::new();
        let mut i: usize = 0;
        while i < n_c
            invariant
                0 <= i <= n_c,
                cubes@.len() == i,
                forall|j: int| 0 <= j < i ==> (#[trigger] cubes@[j]).charge == 0,
            decreases n_c - i,
        {
            cubes.push(MonopoleField { charge: 0 });
            i += 1;
        }
        let g = ZNLattice { edges, faces, cubes, face_edges, cube_faces, edge_faces, edge_cubes };
        proof {
            assert(g.structure_wf());
            assert forall|f: int| 0 <= f < g.faces@.len() implies #[trigger] g.face_consistent(f) by {
                let fe = g.face_edges@[f];
                assert(g.edges@[fe[0] as int].phase == 0 && g.edges@[fe[1] as int].phase == 0);
                assert(g.edges@[fe[2] as int].phase == 0 && g.edges@[fe[3] as int].phase == 0);
                assert((2 * ZORDER) % (ZORDER as int) == 0) by (nonlinear_arith)
                    requires ZORDER > 0;
            }
            assert forall|c: int| 0 <= c < g.cubes@.len() implies #[trigger] g.cube_consistent(c) by {
                let cf = g.cube_faces@[c];
                assert forall|j: int| 0 <= j < 6 implies #[trigger] g.faces@[cf@[j] as int].dirac_string == 0 by {
                    assert(cf[j] < g.faces@.len());
                }
                reveal_with_fuel(charge_partial, 7);
            }
        }
        Some(g)
    }

    /// Builds a lattice of `n_edges` edges from the edges of its faces and the
    /// faces of its cubes, deriving for every edge the faces and the cubes it
    /// bounds (in increasing order, a cube once per face and edge that lead
    /// to it). Every phase is `0` and every face and cube at rest. Returns
    /// `None` when an index points past the cells, or when `ZORDER` is `0`.
    pub fn from_cells(n_edges: usize, face_edges: Vec<[usize; 4]>, cube_faces: Vec<[usize; 6]>) -> (res: Option<Self>)
        ensures
            res is Some <==> {
                &&& 0 < ZORDER
                &&& forall|f: int, k: int|
                    0 <= f < face_edges@.len() && 0 <= k < 4 ==> #[trigger] face_edges@[f][k] < n_edges
                &&& forall|c: int, k: int|
                    0 <= c < cube_faces@.len() && 0 <= k < 6 ==> #[trigger] cube_faces@[c][k]
                        < face_edges@.len()
            },
            res matches Some(g) ==> {
                &&& g.wf()
                &&& g.consistent()
                &&& g.edges@.len() == n_edges
                &&& g.face_edges@ == face_edges@
                &&& g.cube_faces@ == cube_faces@
                &&& forall|e: int| 0 <= e < n_edges ==> (#[trigger] g.edges@[e]).phase == 0
                &&& forall|e: int|
                    0 <= e < n_edges ==> (#[trigger] g.edge_faces@[e])@ == faces_of_edge(
                        face_edges@,
                        e,
                        face_edges@.len() as int,
                    )
                &&& forall|e: int|
                    0 <= e < n_edges ==> (#[trigger] g.edge_cubes@[e])@ == cubes_of_edge(
                        face_edges@,
                        cube_faces@,
                        e,
                        cube_faces@.len() as int,
                    )
            },
    {
        let n_f = face_edges.len();
        let n_c = cube_faces.len();
        if ZORDER == 0 {
            return None;
        }
        let mut edge_faces: Vec<Vec<usize>> = Vec::new();
        let mut edge_cubes: Vec<Vec<usize>> = Vec::new();
        let mut e: usize = 0;
        while e < n_edges
            invariant
                0 <= e <= n_edges,
                edge_faces@.len() == e,
                edge_cubes@.len() == e,
                forall|i: int| 0 <= i < e ==> (#[trigger] edge_faces@[i])@.len() == 0,
                forall|i: int| 0 <= i < e ==> (#[trigger] edge_cubes@[i])@.len() == 0,
            decreases n_edges - e,
        {
            edge_faces.push(Vec::new());
            edge_cubes.push(Vec::new());
            e += 1;
        }
        let mut f: usize = 0;
        while f < n_f
            invariant
                n_f == face_edges@.len(),
                0 <= f <= n_f,
                edge_faces@.len() == n_edges,
                forall|g: int, k: int| 0 <= g < f && 0 <= k < 4 ==> #[trigger] face_edges@[g][k] < n_edges,
                forall|g: int, k: int|
                    0 <= g < f && 0 <= k < 4 ==> #[trigger] edge_faces@[face_edges@[g][k] as int]@.contains(
                        g as usize,
                    ),
                forall|e: int, i: int|
                    0 <= e < n_edges && 0 <= i < edge_faces@[e]@.len() ==> #[trigger] edge_faces@[e]@[i] < n_f,
                forall|x: int| 0 <= x < n_edges ==> #[trigger] edge_faces@[x]@ == faces_of_edge(face_edges@, x, f as int),
            decreases n_f - f,
        {
            let fe = face_edges[f];
            let mut k: usize = 0;
            while k < 4
                invariant
                    n_f == face_edges@.len(),
                    0 <= f < n_f,
                    fe == face_edges@[f as int],
                    0 <= k <= 4,
                    edge_faces@.len() == n_edges,
                    forall|g: int, k: int| 0 <= g < f && 0 <= k < 4 ==> #[trigger] face_edges@[g][k] < n_edges,
                    forall|g: int, k: int|
                        0 <= g < f && 0 <= k < 4 ==> #[trigger] edge_faces@[face_edges@[g][k] as int]@.contains(
                            g as usize,
                        ),
                    forall|j: int| 0 <= j < k ==> #[trigger] fe[j] < n_edges,
                    forall|j: int| 0 <= j < k ==> #[trigger] edge_faces@[fe[j] as int]@.contains(f),
                    forall|e: int, i: int|
                        0 <= e < n_edges && 0 <= i < edge_faces@[e]@.len() ==> #[trigger] edge_faces@[e]@[i] < n_f,
                    forall|x: int|
                        0 <= x < n_edges ==> #[trigger] edge_faces@[x]@ == (if edge_in_prefix(fe, x, k as int) {
                            faces_of_edge(face_edges@, x, f + 1)
                        } else {
                            faces_of_edge(face_edges@, x, f as int)
                        }),
                decreases 4 - k,
            {
                let e = fe[k];
                if e >= n_edges {
                    assert(face_edges@[f as int][k as int] >= n_edges);
                    return None;
                }
                let ghost before = edge_faces@;
                proof {
                    lemma_faces_of_edge(face_edges@, e as int, f as int);
                    assert(face_has_edge(face_edges@[f as int], e as int));
                    assert(faces_of_edge(face_edges@, e as int, f + 1) == faces_of_edge(face_edges@, e as int, f as int).push(f));
                    if !edge_in_prefix(fe, e as int, k as int) {
                        assert(!faces_of_edge(face_edges@, e as int, f as int).contains(f));
                    } else {
                        assert(faces_of_edge(face_edges@, e as int, f + 1).last() == f);
                    }
                }
                if !vec_contains(&edge_faces[e], f) {
                    let mut list = edge_faces[e].clone();
                    assert(list@ =~= before[e as int]@);
                    list.push(f);
                    edge_faces.set(e, list);
                    assert(edge_faces@ == before.update(e as int, edge_faces@[e as int]));
                    assert(edge_faces@[e as int]@ =~= before[e as int]@.push(f));
                    proof {
                        lemma_push_keeps_members(before, edge_faces@, e as int, f);
                    }
                }
                assert forall|g: int, k2: int|
                    0 <= g < f && 0 <= k2 < 4 implies #[trigger] edge_faces@[face_edges@[g][k2] as int]@.contains(
                        g as usize) by {
                    assert(before[face_edges@[g][k2] as int]@.contains(g as usize));
                }
                assert forall|j: int| 0 <= j < k + 1 implies #[trigger] edge_faces@[fe[j] as int]@.contains(f) by {
                    if j < k {
                        assert(before[fe[j] as int]@.contains(f));
                    }
                }
                assert forall|x: int| 0 <= x < n_edges implies #[trigger] edge_faces@[x]@ == (if edge_in_prefix(
                    fe,
                    x,
                    k + 1,
                ) {
                    faces_of_edge(face_edges@, x, f + 1)
                } else {
                    faces_of_edge(face_edges@, x, f as int)
                }) by {
                    if x == e {
                        assert(fe[k as int] == x);
                    } else {
                        assert(edge_faces@[x] == before[x]);
                        if edge_in_prefix(fe, x, k + 1) {
                            let j = choose|j: int| 0 <= j < k + 1 && #[trigger] fe[j] == x;
                            assert(j < k);
                        }
                    }
                }
                assert forall|e2: int, i: int|
                    0 <= e2 < n_edges && 0 <= i < edge_faces@[e2]@.len() implies #[trigger] edge_faces@[e2]@[i] < n_f by {
                    if edge_faces@[e2]@[i] != f {
                        assert(before[e2]@[i] < n_f);
                    }
                }
                k += 1;
            }
            assert forall|g: int, k: int| 0 <= g < f + 1 && 0 <= k < 4 implies #[trigger] face_edges@[g][k] < n_edges by {
                if g == f {
                    assert(fe[k] < n_edges);
                }
            }
            assert forall|x: int| 0 <= x < n_edges implies #[trigger] edge_faces@[x]@ == faces_of_edge(
                face_edges@,
                x,
                f + 1,
            ) by {
                if edge_in_prefix(fe, x, 4) {
                    let j = choose|j: int| 0 <= j < 4 && #[trigger] fe[j] == x;
                    assert(face_has_edge(face_edges@[f as int], x));
                } else {
                    assert(fe[0] != x && fe[1] != x && fe[2] != x && fe[3] != x);
                    assert(!face_has_edge(face_edges@[f as int], x));
                }
            }
            assert forall|g: int, k: int|
                0 <= g < f + 1 && 0 <= k < 4 implies #[trigger] edge_faces@[face_edges@[g][k] as int]@.contains(
                    g as usize) by {
                if g == f {
                    assert(edge_faces@[fe[k] as int]@.contains(f));
                }
            }
            f += 1;
        }
        let mut c: usize = 0;
        while c < n_c
            invariant
                n_c == cube_faces@.len(),
                n_f == face_edges@.len(),
                0 <= c <= n_c,
                edge_cubes@.len() == n_edges,
                forall|g: int, k: int| 0 <= g < n_f && 0 <= k < 4 ==> #[trigger] face_edges@[g][k] < n_edges,
                forall|d: int, k: int| 0 <= d < c && 0 <= k < 6 ==> #[trigger] cube_faces@[d][k] < n_f,
                forall|d: int, j: int, k: int|
                    0 <= d < c && 0 <= j < 6 && 0 <= k < 4
                        ==> #[trigger] edge_cubes@[face_edges@[cube_faces@[d][j] as int][k] as int]@.contains(
                        d as usize,
                    ),
                forall|e: int, i: int|
                    0 <= e < n_edges && 0 <= i < edge_cubes@[e]@.len() ==> #[trigger] edge_cubes@[e]@[i] < n_c,
                forall|x: int|
                    0 <= x < n_edges ==> #[trigger] edge_cubes@[x]@ == cubes_of_edge(
                        face_edges@,
                        cube_faces@,
                        x,
                        c as int,
                    ),
            decreases n_c - c,
        {
            let cf = cube_faces[c];
            let mut j: usize = 0;
            while j < 6
                invariant
                    n_c == cube_faces@.len(),
                    n_f == face_edges@.len(),
                    0 <= c < n_c,
                    cf == cube_faces@[c as int],
                    0 <= j <= 6,
                    edge_cubes@.len() == n_edges,
                    forall|g: int, k: int| 0 <= g < n_f && 0 <= k < 4 ==> #[trigger] face_edges@[g][k] < n_edges,
                    forall|d: int, k: int| 0 <= d < c && 0 <= k < 6 ==> #[trigger] cube_faces@[d][k] < n_f,
                    forall|d: int, j: int, k: int|
                        0 <= d < c && 0 <= j < 6 && 0 <= k < 4
                            ==> #[trigger] edge_cubes@[face_edges@[cube_faces@[d][j] as int][k] as int]@.contains(
                            d as usize,
                        ),
                    forall|i: int| 0 <= i < j ==> #[trigger] cf[i] < n_f,
                    forall|i: int, k: int|
                        0 <= i < j && 0 <= k < 4 ==> #[trigger] edge_cubes@[face_edges@[cf[i] as int][k] as int]@.contains(c),
                    forall|e: int, i: int|
                        0 <= e < n_edges && 0 <= i < edge_cubes@[e]@.len() ==> #[trigger] edge_cubes@[e]@[i] < n_c,
                    forall|x: int|
                        0 <= x < n_edges ==> #[trigger] edge_cubes@[x]@ == (if cube_prefix_has_edge(
                            face_edges@,
                            cf,
                            x,
                            j as int,
                        ) {
                            cubes_of_edge(face_edges@, cube_faces@, x, c + 1)
                        } else {
                            cubes_of_edge(face_edges@, cube_faces@, x, c as int)
                        }),
                decreases 6 - j,
            {
                let fi = cf[j];
                if fi >= n_f {
                    assert(cube_faces@[c as int][j as int] >= n_f);
                    return None;
                }
                let fe = face_edges[fi];
                let mut k: usize = 0;
                while k < 4
                    invariant
                        n_c == cube_faces@.len(),
                        n_f == face_edges@.len(),
                        0 <= c < n_c,
                        cf == cube_faces@[c as int],
                        0 <= j < 6,
                        fi == cf[j as int],
                        fi < n_f,
                        fe == face_edges@[fi as int],
                        0 <= k <= 4,
                        edge_cubes@.len() == n_edges,
                        forall|g: int, k: int| 0 <= g < n_f && 0 <= k < 4 ==> #[trigger] face_edges@[g][k] < n_edges,
                        forall|d: int, k: int| 0 <= d < c && 0 <= k < 6 ==> #[trigger] cube_faces@[d][k] < n_f,
                        forall|i: int| 0 <= i < j ==> #[trigger] cf[i] < n_f,
                        forall|d: int, j: int, k: int|
                            0 <= d < c && 0 <= j < 6 && 0 <= k < 4
                                ==> #[trigger] edge_cubes@[face_edges@[cube_faces@[d][j] as int][k] as int]@.contains(
                                d as usize,
                            ),
                        forall|i: int, k: int|
                            0 <= i < j && 0 <= k < 4 ==> #[trigger] edge_cubes@[face_edges@[cf[i] as int][k] as int]@.contains(c),
                        forall|k2: int| 0 <= k2 < k ==> #[trigger] edge_cubes@[fe[k2] as int]@.contains(c),
                        forall|e: int, i: int|
                            0 <= e < n_edges && 0 <= i < edge_cubes@[e]@.len() ==> #[trigger] edge_cubes@[e]@[i] < n_c,
                        forall|x: int|
                            0 <= x < n_edges ==> #[trigger] edge_cubes@[x]@ == (if cube_prefix_has_edge(
                                face_edges@,
                                cf,
                                x,
                                j as int,
                            ) || edge_in_prefix(fe, x, k as int) {
                                cubes_of_edge(face_edges@, cube_faces@, x, c + 1)
                            } else {
                                cubes_of_edge(face_edges@, cube_faces@, x, c as int)
                            }),
                    decreases 4 - k,
                {
                    let e = fe[k];
                    assert(face_edges@[fi as int][k as int] < n_edges);
                    let ghost before = edge_cubes@;
                    proof {
                        lemma_cubes_of_edge(face_edges@, cube_faces@, e as int, c as int);
                        assert(face_has_edge(face_edges@[cf[j as int] as int], e as int));
                        assert(cube_has_edge(face_edges@, cube_faces@[c as int], e as int));
                        assert(cubes_of_edge(face_edges@, cube_faces@, e as int, c + 1) == cubes_of_edge(
                            face_edges@,
                            cube_faces@,
                            e as int,
                            c as int,
                        ).push(c));
                        if !(cube_prefix_has_edge(face_edges@, cf, e as int, j as int) || edge_in_prefix(
                            fe,
                            e as int,
                            k as int,
                        )) {
                            assert(!cubes_of_edge(face_edges@, cube_faces@, e as int, c as int).contains(c));
                        } else {
                            assert(cubes_of_edge(face_edges@, cube_faces@, e as int, c + 1).last() == c);
                        }
                    }
                    if !vec_contains(&edge_cubes[e], c) {
                        let mut list = edge_cubes[e].clone();
                        assert(list@ =~= before[e as int]@);
                        list.push(c);
                        edge_cubes.set(e, list);
                        assert(edge_cubes@ == before.update(e as int, edge_cubes@[e as int]));
                        assert(edge_cubes@[e as int]@ =~= before[e as int]@.push(c));
                        proof {
                            lemma_push_keeps_members(before, edge_cubes@, e as int, c);
                        }
                    }
                    assert forall|d: int, j2: int, k2: int|
                        0 <= d < c && 0 <= j2 < 6 && 0 <= k2 < 4
                            implies #[trigger] edge_cubes@[face_edges@[cube_faces@[d][j2] as int][k2] as int]@.contains(
                            d as usize) by {
                        assert(before[face_edges@[cube_faces@[d][j2] as int][k2] as int]@.contains(d as usize));
                    }
                    assert forall|i2: int, k2: int|
                        0 <= i2 < j && 0 <= k2 < 4 implies #[trigger] edge_cubes@[face_edges@[cf[i2] as int][k2] as int]@.contains(c) by {
                        assert(before[face_edges@[cf[i2] as int][k2] as int]@.contains(c));
                    }
                    assert forall|k2: int| 0 <= k2 < k + 1 implies #[trigger] edge_cubes@[fe[k2] as int]@.contains(c) by {
                        if k2 < k {
                            assert(before[fe[k2] as int]@.contains(c));
                        }
                    }
                    assert forall|x: int| 0 <= x < n_edges implies #[trigger] edge_cubes@[x]@ == (
                    if cube_prefix_has_edge(face_edges@, cf, x, j as int) || edge_in_prefix(fe, x, k + 1) {
                        cubes_of_edge(face_edges@, cube_faces@, x, c + 1)
                    } else {
                        cubes_of_edge(face_edges@, cube_faces@, x, c as int)
                    }) by {
                        if x == e {
                            assert(fe[k as int] == x);
                        } else {
                            assert(edge_cubes@[x] == before[x]);
                            if edge_in_prefix(fe, x, k + 1) {
                                let j2 = choose|j2: int| 0 <= j2 < k + 1 && #[trigger] fe[j2] == x;
                                assert(j2 < k);
                            }
                        }
                    }
                    assert forall|e2: int, i: int|
                        0 <= e2 < n_edges && 0 <= i < edge_cubes@[e2]@.len() implies #[trigger] edge_cubes@[e2]@[i] < n_c by {
                        if edge_cubes@[e2]@[i] != c {
                            assert(before[e2]@[i] < n_c);
                        }
                    }
                    k += 1;
                }
                assert forall|i: int, k: int|
                    0 <= i < j + 1 && 0 <= k < 4 implies #[trigger] edge_cubes@[face_edges@[cf[i] as int][k] as int]@.contains(c) by {
                    if i == j {
                        assert(edge_cubes@[fe[k] as int]@.contains(c));
                    }
                }
                assert forall|x: int| 0 <= x < n_edges implies #[trigger] edge_cubes@[x]@ == (if cube_prefix_has_edge(
                    face_edges@,
                    cf,
                    x,
                    j + 1,
                ) {
                    cubes_of_edge(face_edges@, cube_faces@, x, c + 1)
                } else {
                    cubes_of_edge(face_edges@, cube_faces@, x, c as int)
                }) by {
                    if cube_prefix_has_edge(face_edges@, cf, x, j + 1) {
                        let j2 = choose|j2: int| 0 <= j2 < j + 1 && #[trigger] face_has_edge(
                            face_edges@[cf[j2] as int],
                            x,
                        );
                        if j2 == j {
                            assert(face_has_edge(fe, x));
                            if fe[0] == x {
                                assert(edge_in_prefix(fe, x, 4));
                            } else if fe[1] == x {
                                assert(edge_in_prefix(fe, x, 4));
                            } else if fe[2] == x {
                                assert(edge_in_prefix(fe, x, 4));
                            } else {
                                assert(edge_in_prefix(fe, x, 4));
                            }
                        } else {
                            assert(cube_prefix_has_edge(face_edges@, cf, x, j as int));
                        }
                    } else {
                        assert(!cube_prefix_has_edge(face_edges@, cf, x, j as int)) by {
                            if cube_prefix_has_edge(face_edges@, cf, x, j as int) {
                                let j2 = choose|j2: int| 0 <= j2 < j && #[trigger] face_has_edge(
                                    face_edges@[cf[j2] as int],
                                    x,
                                );
                                assert(face_has_edge(face_edges@[cf[j2] as int], x));
                            }
                        }
                        assert(!face_has_edge(fe, x));
                        if edge_in_prefix(fe, x, 4) {
                            let k2 = choose|k2: int| 0 <= k2 < 4 && #[trigger] fe[k2] == x;
                            assert(face_has_edge(fe, x));
                        }
                    }
                }
                j += 1;
            }
            assert forall|d: int, j: int, k: int|
                0 <= d < c + 1 && 0 <= j < 6 && 0 <= k < 4
                    implies #[trigger] edge_cubes@[face_edges@[cube_faces@[d][j] as int][k] as int]@.contains(
                    d as usize) by {
                if d == c {
                    assert(edge_cubes@[face_edges@[cf[j] as int][k] as int]@.contains(c));
                }
            }
            assert forall|x: int| 0 <= x < n_edges implies #[trigger] edge_cubes@[x]@ == cubes_of_edge(
                face_edges@,
                cube_faces@,
                x,
                c + 1,
            ) by {
                if cube_prefix_has_edge(face_edges@, cf, x, 6) {
                    let j2 = choose|j2: int| 0 <= j2 < 6 && #[trigger] face_has_edge(face_edges@[cf[j2] as int], x);
                    assert(cube_has_edge(face_edges@, cube_faces@[c as int], x));
                } else {
                    assert(!cube_has_edge(face_edges@, cube_faces@[c as int], x)) by {
                        if cube_has_edge(face_edges@, cube_faces@[c as int], x) {
                            let j2 = choose|j2: int| 0 <= j2 < 6 && #[trigger] face_has_edge(
                                face_edges@[cube_faces@[c as int][j2] as int],
                                x,
                            );
                            assert(cube_prefix_has_edge(face_edges@, cf, x, 6));
                        }
                    }
                }
            }
            c += 1;
        }
        let res = Self::new(face_edges, cube_faces, edge_faces, edge_cubes);
        assert(res is Some);
        res
    }

    /// Recomputes every face, then every cube, from the edge phases.
    pub fn rebuild_all(&mut self)
        requires
            ZORDER == 3,
            old(self).wf(),
        ensures
            final(self).wf(),
            final(self).consistent(),
            final(self).edges@ == old(self).edges@,
            final(self).same_structure(old(self)),
    {
        let ghost g0 = *self;
        let n_f = self.faces.len();
        let mut f: usize = 0;
        while f < n_f
            invariant
                ZORDER == 3,
                self.wf(),
                self.same_structure(&g0),
                self.edges@ == g0.edges@,
                n_f == self.faces@.len(),
                0 <= f <= n_f,
                forall|g: int| 0 <= g < f ==> #[trigger] self.face_consistent(g),
            decreases n_f - f,
        {
            let ghost gb = *self;
            PlaquetteField::<NDIM, ZORDER>::rebuild(f, self);
            assert forall|g: int| 0 <= g < f + 1 implies #[trigger] self.face_consistent(g) by {
                if g != f {
                    assert(gb.face_consistent(g));
                }
            }
            f += 1;
        }
        assert forall|g: int| 0 <= g < self.faces@.len() implies -1 <= #[trigger] self.faces@[g].dirac_string <= 1 by {
            assert(self.face_consistent(g));
        }
        let n_c = self.cubes.len();
        let mut c: usize = 0;
        while c < n_c
            invariant
                self.wf(),
                self.same_structure(&g0),
                self.edges@ == g0.edges@,
                n_f == self.faces@.len(),
                n_c == self.cubes@.len(),
                0 <= c <= n_c,
                forall|g: int| 0 <= g < n_f ==> #[trigger] self.face_consistent(g),
                forall|g: int| 0 <= g < n_f ==> -1 <= #[trigger] self.faces@[g].dirac_string <= 1,
                forall|d: int| 0 <= d < c ==> #[trigger] self.cube_consistent(d),
            decreases n_c - c,
        {
            let ghost gb = *self;
            proof {
                let cf = self.cube_faces@[c as int];
                assert forall|j: int| 0 <= j < 6 implies #[trigger] cf[j] < self.faces@.len() by {
                    assert(self.cube_faces@[c as int][j] < self.faces@.len());
                }
                crate::gauge_fields::cubes::lemma_bounded_charge_fits(self.faces@, cf);
            }
            MonopoleField::<NDIM, ZORDER>::rebuild(c, self);
            assert forall|g: int| 0 <= g < n_f implies #[trigger] self.face_consistent(g) by {
                assert(gb.face_consistent(g));
            }
            assert forall|d: int| 0 <= d < c + 1 implies #[trigger] self.cube_consistent(d) by {
                if d != c {
                    assert(gb.cube_consistent(d));
                }
            }
            c += 1;
        }
    }
}

} // verus!
