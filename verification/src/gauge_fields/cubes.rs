use vstd::prelude::*;

use crate::gauge_fields::lattice::{charge_partial, charge_spec, ZNLattice};
use crate::gauge_fields::plaquettes::PlaquetteField;

verus! {

/// Data on a cube: the monopole charge it encloses.
#[derive(Clone, Copy, Debug, Default, PartialEq, Eq)]
pub struct MonopoleField<const NDIM: usize, const ZORDER: usize> {
    pub charge: isize,
}

/// With every Dirac string in `-1..=1`, the alternating sum over the faces
/// `cf` never leaves `-k..=k` after `k` faces, so it fits an `isize`.
pub proof fn lemma_bounded_charge_fits<const NDIM: usize, const ZORDER: usize>(
    faces: Seq<PlaquetteField<NDIM, ZORDER>>,
    cf: [usize; 6],
)
    requires
        forall|j: int| 0 <= j < 6 ==> #[trigger] cf[j] < faces.len(),
        forall|f: int| 0 <= f < faces.len() ==> -1 <= #[trigger] faces[f].dirac_string <= 1,
    ensures
        forall|k: int| 0 <= k < 6 && k % 2 == 1 ==> #[trigger] faces[cf[k] as int].dirac_string > isize::MIN,
        forall|k: int| 0 <= k <= 6 ==> isize::MIN <= #[trigger] charge_partial(faces, cf@, k) <= isize::MAX,
{
    assert forall|k: int| 0 <= k <= 6 implies -k <= #[trigger] charge_partial(faces, cf@, k) <= k by {
        lemma_partial_bound(faces, cf, k);
    }
    assert forall|k: int| 0 <= k < 6 && k % 2 == 1 implies #[trigger] faces[cf[k] as int].dirac_string > isize::MIN by {
        assert(cf[k] < faces.len());
    }
}

proof fn lemma_partial_bound<const NDIM: usize, const ZORDER: usize>(
    faces: Seq<PlaquetteField<NDIM, ZORDER>>,
    cf: [usize; 6],
    k: int,
)
    requires
        0 <= k <= 6,
        forall|j: int| 0 <= j < 6 ==> #[trigger] cf[j] < faces.len(),
        forall|f: int| 0 <= f < faces.len() ==> -1 <= #[trigger] faces[f].dirac_string <= 1,
    ensures
        -k <= charge_partial(faces, cf@, k) <= k,
    decreases k,
{
    if k > 0 {
        lemma_partial_bound(faces, cf, k - 1);
        assert(cf@[k - 1] == cf[k - 1]);
        assert(cf[k - 1] < faces.len());
    }
}

impl<const NDIM: usize, const ZORDER: usize> MonopoleField<NDIM, ZORDER> {
    /// Recomputes the charge of cube `node_index` as the alternating sum of
    /// the Dirac strings of its faces, where no step of the sum overflows.
    pub fn rebuild(node_index: usize, grid: &mut ZNLattice<NDIM, ZORDER>)
        requires
            old(grid).wf(),
            node_index < old(grid).cubes@.len(),
            forall|k: int|
                0 <= k < 6 && k % 2 == 1 ==> #[trigger] old(grid).faces@[old(
                    grid,
                ).cube_faces@[node_index as int][k] as int].dirac_string > isize::MIN,
            forall|k: int|
                0 <= k <= 6 ==> isize::MIN <= #[trigger] charge_partial(
                    old(grid).faces@,
                    old(grid).cube_faces@[node_index as int]@,
                    k,
                ) <= isize::MAX,
        ensures
            final(grid).edges@ == old(grid).edges@,
            final(grid).faces@ == old(grid).faces@,
            final(grid).same_structure(old(grid)),
            final(grid).cubes@ == old(grid).cubes@.update(
                node_index as int,
                MonopoleField {
                    charge: charge_spec(old(grid).faces@, old(grid).cube_faces@[node_index as int]) as isize,
                },
            ),
            final(grid).cubes@[node_index as int].charge as int == charge_spec(
                old(grid).faces@,
                old(grid).cube_faces@[node_index as int],
            ),
            final(grid).wf(),
    {
        let faces = grid.cube_faces[node_index];
        let ghost cf = faces@;

        let mut charge: isize = 0;
        let mut alternator: isize = 1;
        let mut k: usize = 0;
        while k < 6
            invariant
                grid.wf(),
                node_index < grid.cubes@.len(),
                faces == grid.cube_faces@[node_index as int],
                cf == faces@,
                0 <= k <= 6,
                charge == charge_partial(grid.faces@, cf, k as int),
                alternator == (if k % 2 == 0 { 1isize } else { -1isize }),
                forall|j: int|
                    0 <= j < 6 && j % 2 == 1 ==> #[trigger] grid.faces@[faces[j] as int].dirac_string > isize::MIN,
                forall|j: int| 0 <= j <= 6 ==> isize::MIN <= #[trigger] charge_partial(grid.faces@, cf, j) <= isize::MAX,
            decreases 6 - k,
        {
            let face_index = faces[k];
            assert(face_index < grid.faces@.len());
            let d = grid.faces[face_index].dirac_string;
            assert(cf[k as int] == face_index);
            if k % 2 == 0 {
                assert(alternator * d == d);
            } else {
                assert(alternator * d == -d);
            }
            assert(charge_partial(grid.faces@, cf, k + 1) == charge + alternator * d);
            charge += alternator * d;
            alternator *= -1;
            k += 1;
        }
        grid.cubes.set(node_index, MonopoleField { charge });
    }
}

/// The monopole charge of a cube is the strictly alternating sum of the
/// Dirac strings of its six faces in the order listed, `d0 - d1 + d2 - d3 +
/// d4 - d5`: each face at an even position enters with `+`, each face at an
/// odd position with `-`.
pub proof fn law_charge_alternates<const NDIM: usize, const ZORDER: usize>(
    faces: Seq<PlaquetteField<NDIM, ZORDER>>,
    cf: [usize; 6],
)
    ensures
        charge_spec(faces, cf) == faces[cf[0] as int].dirac_string - faces[cf[1] as int].dirac_string
            + faces[cf[2] as int].dirac_string - faces[cf[3] as int].dirac_string + faces[cf[4] as int].dirac_string
            - faces[cf[5] as int].dirac_string,
        forall|k: int|
            0 <= k < 6 ==> #[trigger] charge_partial(faces, cf@, k + 1) - charge_partial(faces, cf@, k) == (if k % 2
                == 0 {
                faces[cf[k] as int].dirac_string as int
            } else {
                -faces[cf[k] as int].dirac_string
            }),
{
    reveal_with_fuel(charge_partial, 7);
    assert(cf@[0] == cf[0] && cf@[1] == cf[1] && cf@[2] == cf[2]);
    assert(cf@[3] == cf[3] && cf@[4] == cf[4] && cf@[5] == cf[5]);
    assert forall|k: int| 0 <= k < 6 implies #[trigger] charge_partial(faces, cf@, k + 1) - charge_partial(
        faces,
        cf@,
        k,
    ) == (if k % 2 == 0 {
        faces[cf[k] as int].dirac_string as int
    } else {
        -faces[cf[k] as int].dirac_string
    }) by {
        assert(cf@[k] == cf[k]);
        let d = faces[cf[k] as int].dirac_string as int;
        assert(charge_partial(faces, cf@, k + 1) == if k % 2 == 0 {
            charge_partial(faces, cf@, k) + d
        } else {
            charge_partial(faces, cf@, k) - d
        });
    }
}

/// On a consistent lattice, the charge stored for every cube is the
/// alternating sum of the Dirac strings stored for its faces.
pub proof fn law_cube_charges_alternate<const NDIM: usize, const ZORDER: usize>(grid: ZNLattice<NDIM, ZORDER>, c: int)
    requires
        grid.consistent(),
        0 <= c < grid.cubes@.len(),
    ensures
        grid.cubes@[c].charge == grid.faces@[grid.cube_faces@[c][0] as int].dirac_string
            - grid.faces@[grid.cube_faces@[c][1] as int].dirac_string + grid.faces@[grid.cube_faces@[c][2] as int].dirac_string
            - grid.faces@[grid.cube_faces@[c][3] as int].dirac_string + grid.faces@[grid.cube_faces@[c][4] as int].dirac_string
            - grid.faces@[grid.cube_faces@[c][5] as int].dirac_string,
{
    assert(grid.cube_consistent(c));
    law_charge_alternates(grid.faces@, grid.cube_faces@[c]);
}

} // verus!
