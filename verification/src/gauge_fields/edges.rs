use vstd::prelude::*;

use crate::gauge_fields::cubes::{lemma_bounded_charge_fits, MonopoleField};
use crate::gauge_fields::lattice::{
    charge_partial, cube_has_edge, face_has_edge, lemma_consistent_unique, ZNLattice,
};
use crate::gauge_fields::plaquettes::PlaquetteField;

verus! {

/// The gauge field on an edge: a phase in `0..ZORDER`.
#[derive(Clone, Copy, Debug, Default, PartialEq, Eq)]
pub struct EdgeField<const NDIM: usize, const ZORDER: usize> {
    pub phase: usize,
}

/// Two face tables agree on the six faces of `cf`, so the charge they give a
/// cube with those faces is the same.
pub proof fn lemma_charge_frame<const NDIM: usize, const ZORDER: usize>(
    f1: Seq<PlaquetteField<NDIM, ZORDER>>,
    f2: Seq<PlaquetteField<NDIM, ZORDER>>,
    cf: Seq<usize>,
    k: int,
)
    requires
        0 <= k <= cf.len(),
        forall|j: int| 0 <= j < k ==> #[trigger] f1[cf[j] as int] == f2[cf[j] as int],
    ensures
        charge_partial(f1, cf, k) == charge_partial(f2, cf, k),
    decreases k,
{
    if k > 0 {
        lemma_charge_frame(f1, f2, cf, k - 1);
        assert(f1[cf[k - 1] as int] == f2[cf[k - 1] as int]);
    }
}

impl<const NDIM: usize, const ZORDER: usize> EdgeField<NDIM, ZORDER> {
    /// The field every edge starts with: phase `0`.
    pub fn init() -> (res: Self)
        ensures
            res.phase == 0,
    {
        EdgeField { phase: 0 }
    }

    /// Sets edge `node_index` to `new_field`, recomputes every face and cube
    /// that the edge bounds, and returns the edge's previous field.
    pub fn update(node_index: usize, grid: &mut ZNLattice<NDIM, ZORDER>, new_field: Self) -> (old_field: Self)
        requires
            ZORDER == 3,
            old(grid).wf(),
            old(grid).consistent(),
            node_index < old(grid).edges@.len(),
            new_field.phase < ZORDER,
        ensures
            old_field == old(grid).edges@[node_index as int],
            final(grid).edges@ == old(grid).edges@.update(node_index as int, new_field),
            final(grid).same_structure(old(grid)),
            final(grid).wf(),
            final(grid).consistent(),
    {
        let ghost e = node_index as int;
        let ghost g0 = *grid;
        let old_field = grid.edges[node_index];
        grid.edges.set(node_index, new_field);
        let ghost g1 = *grid;
        assert(grid.wf());

        // Faces that do not contain the edge keep their data, which stays
        // consistent since none of their edges changed.
        assert forall|f: int|
            0 <= f < grid.faces@.len() && !face_has_edge(#[trigger] grid.face_edges@[f], e)
                implies grid.face_consistent(f) by {
            assert(g0.face_consistent(f));
            let fe = grid.face_edges@[f];
            assert(fe[0] < grid.edges@.len() && fe[1] < grid.edges@.len());
            assert(fe[2] < grid.edges@.len() && fe[3] < grid.edges@.len());
        }

        let total_faces = grid.faces.len();
        let total_cubes = grid.cubes.len();
        let faces = &grid.edge_faces[node_index];
        let ghost ef = grid.edge_faces@[e]@;
        let n_faces = faces.len();
        let mut i: usize = 0;
        while i < n_faces
            invariant
                ZORDER == 3,
                grid.wf(),
                grid.same_structure(&g0),
                grid.edges@ == g1.edges@,
                grid.cubes@ == g0.cubes@,
                0 <= e < grid.edges@.len(),
                e == node_index as int,
                total_faces == grid.faces@.len(),
                total_cubes == grid.cubes@.len(),
                ef == grid.edge_faces@[e]@,
                n_faces == ef.len(),
                0 <= i <= n_faces,
                forall|f: int|
                    0 <= f < grid.faces@.len() && (!face_has_edge(#[trigger] grid.face_edges@[f], e)
                        || ef.subrange(0, i as int).contains(f as usize)) ==> grid.face_consistent(f),
                forall|f: int|
                    0 <= f < grid.faces@.len() && !face_has_edge(#[trigger] grid.face_edges@[f], e)
                        ==> grid.faces@[f] == g0.faces@[f],
            decreases n_faces - i,
        {
            let plaquette_index = grid.edge_faces[node_index][i];
            assert(plaquette_index < grid.faces@.len());
            let ghost gb = *grid;
            PlaquetteField::<NDIM, ZORDER>::rebuild(plaquette_index, grid);
            assert forall|f: int|
                0 <= f < grid.faces@.len() && (!face_has_edge(#[trigger] grid.face_edges@[f], e)
                    || ef.subrange(0, i + 1).contains(f as usize)) implies grid.face_consistent(f) by {
                if f != plaquette_index {
                    assert(gb.faces@[f] == grid.faces@[f]);
                    if face_has_edge(grid.face_edges@[f], e) {
                        let j = choose|j: int| 0 <= j < i + 1 && #[trigger] ef.subrange(0, i + 1)[j] == f as usize;
                        assert(ef.subrange(0, i + 1)[i as int] == plaquette_index);
                        assert(f as usize != plaquette_index);
                        assert(j < i);
                        assert(ef.subrange(0, i as int)[j] == f as usize);
                    }
                    assert(gb.face_consistent(f));
                }
            }
            assert forall|f: int|
                0 <= f < grid.faces@.len() && !face_has_edge(#[trigger] grid.face_edges@[f], e)
                    implies grid.faces@[f] == g0.faces@[f] by {
                if f == plaquette_index {
                    assert(gb.face_consistent(f));
                }
            }
            i += 1;
        }
        assert(ef.subrange(0, n_faces as int) =~= ef);
        assert forall|f: int| 0 <= f < grid.faces@.len() implies #[trigger] grid.face_consistent(f) by {
            if face_has_edge(grid.face_edges@[f], e) {
                let fe = grid.face_edges@[f];
                if fe[0] == e {
                    assert(grid.edge_faces@[fe[0] as int]@.contains(f as usize));
                } else if fe[1] == e {
                    assert(grid.edge_faces@[fe[1] as int]@.contains(f as usize));
                } else if fe[2] == e {
                    assert(grid.edge_faces@[fe[2] as int]@.contains(f as usize));
                } else {
                    assert(grid.edge_faces@[fe[3] as int]@.contains(f as usize));
                }
            }
        }
        proof {
            lemma_dirac_faces(grid);
        }
        let ghost g2 = *grid;

        let cubes = &grid.edge_cubes[node_index];
        let ghost ec = grid.edge_cubes@[e]@;
        let n_cubes = cubes.len();
        let mut i: usize = 0;
        while i < n_cubes
            invariant
                grid.wf(),
                grid.same_structure(&g0),
                grid.edges@ == g2.edges@,
                grid.faces@ == g2.faces@,
                0 <= e < grid.edges@.len(),
                e == node_index as int,
                total_faces == grid.faces@.len(),
                total_cubes == grid.cubes@.len(),
                ec == grid.edge_cubes@[e]@,
                n_cubes == ec.len(),
                0 <= i <= n_cubes,
                forall|f: int| 0 <= f < grid.faces@.len() ==> #[trigger] grid.face_consistent(f),
                forall|f: int|
                    0 <= f < grid.faces@.len() && !face_has_edge(#[trigger] grid.face_edges@[f], e)
                        ==> grid.faces@[f] == g0.faces@[f],
                forall|f: int|
                    0 <= f < grid.faces@.len() ==> -1 <= #[trigger] grid.faces@[f].dirac_string <= 1,
                forall|c: int|
                    0 <= c < grid.cubes@.len() && ec.subrange(0, i as int).contains(c as usize)
                        ==> #[trigger] grid.cube_consistent(c),
                forall|c: int|
                    0 <= c < grid.cubes@.len() && !ec.subrange(0, i as int).contains(c as usize)
                        ==> #[trigger] grid.cubes@[c] == g0.cubes@[c],
            decreases n_cubes - i,
        {
            let cube_index = grid.edge_cubes[node_index][i];
            assert(cube_index < grid.cubes@.len());
            let ghost gb = *grid;
            proof {
                let cf = grid.cube_faces@[cube_index as int];
                assert forall|j: int| 0 <= j < 6 implies #[trigger] cf[j] < grid.faces@.len() by {
                    assert(grid.cube_faces@[cube_index as int][j] < grid.faces@.len());
                }
                lemma_bounded_charge_fits(grid.faces@, cf);
            }
            MonopoleField::<NDIM, ZORDER>::rebuild(cube_index, grid);
            assert forall|f: int| 0 <= f < grid.faces@.len() implies #[trigger] grid.face_consistent(f) by {
                assert(gb.face_consistent(f));
            }
            assert forall|c: int|
                0 <= c < grid.cubes@.len() && ec.subrange(0, i + 1).contains(c as usize)
                    implies #[trigger] grid.cube_consistent(c) by {
                if c != cube_index {
                    let j = choose|j: int| 0 <= j < i + 1 && #[trigger] ec.subrange(0, i + 1)[j] == c as usize;
                    assert(ec.subrange(0, i + 1)[i as int] == cube_index);
                    assert(c as usize != cube_index);
                    assert(j < i);
                    assert(ec.subrange(0, i as int)[j] == c as usize);
                    assert(gb.cube_consistent(c));
                }
            }
            assert forall|c: int|
                0 <= c < grid.cubes@.len() && !ec.subrange(0, i + 1).contains(c as usize)
                    implies #[trigger] grid.cubes@[c] == g0.cubes@[c] by {
                if c == cube_index {
                    assert(ec.subrange(0, i + 1)[i as int] == c as usize);
                }
                assert(!ec.subrange(0, i as int).contains(c as usize)) by {
                    if ec.subrange(0, i as int).contains(c as usize) {
                        let j = choose|j: int| 0 <= j < i && #[trigger] ec.subrange(0, i as int)[j] == c as usize;
                        assert(ec.subrange(0, i + 1)[j] == c as usize);
                    }
                }
            }
            i += 1;
        }
        assert(ec.subrange(0, n_cubes as int) =~= ec);
        assert forall|c: int| 0 <= c < grid.cubes@.len() implies #[trigger] grid.cube_consistent(c) by {
            if !ec.contains(c as usize) {
                let cf = grid.cube_faces@[c];
                assert forall|j: int| 0 <= j < 6 implies #[trigger] grid.faces@[cf@[j] as int]
                    == g0.faces@[cf@[j] as int] by {
                    let f = cf[j] as int;
                    assert(f < grid.faces@.len());
                    let fe = grid.face_edges@[f];
                    assert(grid.edge_cubes@[fe[0] as int]@.contains(c as usize));
                    assert(grid.edge_cubes@[fe[1] as int]@.contains(c as usize));
                    assert(grid.edge_cubes@[fe[2] as int]@.contains(c as usize));
                    assert(grid.edge_cubes@[fe[3] as int]@.contains(c as usize));
                    assert(!face_has_edge(fe, e));
                }
                lemma_charge_frame(grid.faces@, g0.faces@, cf@, 6);
                assert(g0.cube_consistent(c));
            }
        }
        old_field
    }
}

/// Updating an edge and then updating it back to the field that the first
/// update returned restores the lattice: every edge, face and cube.
pub proof fn law_update_undo<const NDIM: usize, const ZORDER: usize>(
    g0: &ZNLattice<NDIM, ZORDER>,
    g1: &ZNLattice<NDIM, ZORDER>,
    g2: &ZNLattice<NDIM, ZORDER>,
    e: int,
    new_field: EdgeField<NDIM, ZORDER>,
)
    requires
        g0.wf(),
        g0.consistent(),
        0 <= e < g0.edges@.len(),
        g1.wf(),
        g1.consistent(),
        g1.same_structure(g0),
        g1.edges@ == g0.edges@.update(e, new_field),
        g2.wf(),
        g2.consistent(),
        g2.same_structure(g1),
        g2.edges@ == g1.edges@.update(e, g0.edges@[e]),
    ensures
        g2.edges@ == g0.edges@,
        g2.faces@ == g0.faces@,
        g2.cubes@ == g0.cubes@,
{
    assert(g2.edges@ =~= g0.edges@);
    lemma_consistent_unique(g2, g0);
}

/// An edge update changes only the faces that have the edge and the cubes
/// that have it on one of their faces: every other face and cube keeps its
/// data. In particular only the faces and cubes that the lattice lists for
/// the edge (`edge_faces[e]`, `edge_cubes[e]`) can change.
pub proof fn law_update_local<const NDIM: usize, const ZORDER: usize>(
    g0: &ZNLattice<NDIM, ZORDER>,
    g1: &ZNLattice<NDIM, ZORDER>,
    e: int,
    new_field: EdgeField<NDIM, ZORDER>,
)
    requires
        g0.wf(),
        g0.consistent(),
        g1.wf(),
        g1.consistent(),
        g1.same_cells(g0),
        0 <= e < g0.edges@.len(),
        g1.edges@ == g0.edges@.update(e, new_field),
    ensures
        forall|f: int|
            0 <= f < g0.faces@.len() && !face_has_edge(#[trigger] g0.face_edges@[f], e) ==> g1.faces@[f]
                == g0.faces@[f],
        forall|c: int|
            0 <= c < g0.cubes@.len() && !cube_has_edge(g0.face_edges@, #[trigger] g0.cube_faces@[c], e)
                ==> g1.cubes@[c] == g0.cubes@[c],
        forall|f: int|
            0 <= f < g0.faces@.len() && !g0.edge_faces@[e]@.contains(f as usize) ==> #[trigger] g1.faces@[f]
                == g0.faces@[f],
        forall|c: int|
            0 <= c < g0.cubes@.len() && !g0.edge_cubes@[e]@.contains(c as usize) ==> #[trigger] g1.cubes@[c]
                == g0.cubes@[c],
{
    assert forall|f: int|
        0 <= f < g0.faces@.len() && !face_has_edge(#[trigger] g0.face_edges@[f], e) implies g1.faces@[f]
            == g0.faces@[f] by {
        assert(g0.face_consistent(f));
        assert(g1.face_consistent(f));
        let fe = g0.face_edges@[f];
        assert(fe[0] < g0.edges@.len() && fe[1] < g0.edges@.len());
        assert(fe[2] < g0.edges@.len() && fe[3] < g0.edges@.len());
    }
    assert forall|c: int|
        0 <= c < g0.cubes@.len() && !cube_has_edge(g0.face_edges@, #[trigger] g0.cube_faces@[c], e)
            implies g1.cubes@[c] == g0.cubes@[c] by {
        assert(g0.cube_consistent(c));
        assert(g1.cube_consistent(c));
        let cf = g0.cube_faces@[c];
        assert forall|j: int| 0 <= j < 6 implies #[trigger] g1.faces@[cf@[j] as int] == g0.faces@[cf@[j] as int] by {
            assert(cf@[j] == cf[j]);
            assert(cf[j] < g0.faces@.len());
            assert(!face_has_edge(g0.face_edges@[cf[j] as int], e));
        }
        lemma_charge_frame(g1.faces@, g0.faces@, cf@, 6);
    }
    assert forall|f: int|
        0 <= f < g0.faces@.len() && !g0.edge_faces@[e]@.contains(f as usize) implies #[trigger] g1.faces@[f]
            == g0.faces@[f] by {
        let fe = g0.face_edges@[f];
        assert(g0.edge_faces@[g0.face_edges@[f][0] as int]@.contains(f as usize));
        assert(g0.edge_faces@[g0.face_edges@[f][1] as int]@.contains(f as usize));
        assert(g0.edge_faces@[g0.face_edges@[f][2] as int]@.contains(f as usize));
        assert(g0.edge_faces@[g0.face_edges@[f][3] as int]@.contains(f as usize));
        assert(!face_has_edge(fe, e));
    }
    assert forall|c: int|
        0 <= c < g0.cubes@.len() && !g0.edge_cubes@[e]@.contains(c as usize) implies #[trigger] g1.cubes@[c]
            == g0.cubes@[c] by {
        let cf = g0.cube_faces@[c];
        assert forall|j: int| 0 <= j < 6 implies !#[trigger] face_has_edge(g0.face_edges@[cf[j] as int], e) by {
            assert(g0.edge_cubes@[g0.face_edges@[g0.cube_faces@[c][j] as int][0] as int]@.contains(c as usize));
            assert(g0.edge_cubes@[g0.face_edges@[g0.cube_faces@[c][j] as int][1] as int]@.contains(c as usize));
            assert(g0.edge_cubes@[g0.face_edges@[g0.cube_faces@[c][j] as int][2] as int]@.contains(c as usize));
            assert(g0.edge_cubes@[g0.face_edges@[g0.cube_faces@[c][j] as int][3] as int]@.contains(c as usize));
        }
        assert(!cube_has_edge(g0.face_edges@, cf, e));
    }
}

proof fn lemma_dirac_faces<const NDIM: usize, const ZORDER: usize>(grid: &ZNLattice<NDIM, ZORDER>)
    requires
        grid.wf(),
        forall|f: int| 0 <= f < grid.faces@.len() ==> #[trigger] grid.face_consistent(f),
    ensures
        forall|f: int|
            0 <= f < grid.faces@.len() ==> -1 <= #[trigger] grid.faces@[f].dirac_string <= 1,
{
    assert forall|f: int| 0 <= f < grid.faces@.len() implies -1
        <= #[trigger] grid.faces@[f].dirac_string <= 1 by {
        assert(grid.face_consistent(f));
    }
}

} // verus!
