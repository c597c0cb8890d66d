use vstd::prelude::*;

use crate::gauge_fields::edges::EdgeField;
use crate::gauge_fields::lattice::{
    dirac_string_spec, holonomy_spec, shifted_phase, winding_spec, ZNLattice,
};
use crate::measurements::settings::{append_decimal, decimal_digits};
use vstd::string::StringExecFns;

verus! {

/// Data on a face: the holonomy of the gauge field around it and the Dirac
/// string that pierces it.
#[derive(Clone, Copy, Debug, Default, PartialEq, Eq)]
pub struct PlaquetteField<const NDIM: usize, const ZORDER: usize> {
    pub holonomy: usize,
    pub dirac_string: isize,
}

impl<const NDIM: usize, const ZORDER: usize> PlaquetteField<NDIM, ZORDER> {
    /// The face as text: `PlaquetteField: <holonomy>`.
    pub fn to_text(&self) -> (res: String)
        ensures
            res@ == "PlaquetteField: "@ + decimal_digits(self.holonomy as nat),
    {
        let mut out = String::new();
        out.append("PlaquetteField: ");
        append_decimal(&mut out, self.holonomy as u64);
        out
    }

    /// Recomputes the holonomy and the Dirac string of face `node_index` from
    /// the phases of its four edges. Only Z_3 is supported.
    pub fn rebuild(node_index: usize, grid: &mut ZNLattice<NDIM, ZORDER>)
        requires
            ZORDER == 3,
            old(grid).wf(),
            node_index < old(grid).faces@.len(),
        ensures
            final(grid).edges@ == old(grid).edges@,
            final(grid).cubes@ == old(grid).cubes@,
            final(grid).same_structure(old(grid)),
            final(grid).faces@ == old(grid).faces@.update(
                node_index as int,
                PlaquetteField {
                    holonomy: holonomy_spec(old(grid).edges@, old(grid).face_edges@[node_index as int]) as usize,
                    dirac_string: dirac_string_spec(
                        old(grid).edges@,
                        old(grid).face_edges@[node_index as int],
                    ) as isize,
                },
            ),
            final(grid).wf(),
    {
        let edges = grid.face_edges[node_index];
        proof {
            assert(edges[0] < grid.edges@.len() && edges[1] < grid.edges@.len());
            assert(edges[2] < grid.edges@.len() && edges[3] < grid.edges@.len());
            assert(grid.face_edges@[node_index as int][0] == edges[0]);
        }
        let mut holonomy = 2 * ZORDER;
        holonomy += grid.edges[edges[0]].phase;
        holonomy -= grid.edges[edges[1]].phase;
        holonomy += grid.edges[edges[2]].phase;
        holonomy -= grid.edges[edges[3]].phase;

        let dirac_string = calculate_dirac_string(node_index, grid);
        grid.faces.set(node_index, PlaquetteField { holonomy: holonomy % ZORDER, dirac_string });
        proof {
            assert(grid.phases_in_range());
        }
    }
}

/// `phase` as a signed winding in `(-ZORDER/2, ZORDER/2]`.
fn shift<const ZORDER: usize>(phase: usize) -> (r: isize)
    requires
        ZORDER == 3,
        phase < ZORDER,
    ensures
        r == shifted_phase(phase as int, ZORDER as int),
{
    if phase <= ZORDER / 2 {
        return phase as isize;
    }
    phase as isize - ZORDER as isize
}

/// The Dirac string through face `face_index`: `1` or `-1` where the winding
/// of its edges exceeds half a period, else `0`. Only Z_3 is supported.
pub fn calculate_dirac_string<const NDIM: usize, const ZORDER: usize>(
    face_index: usize,
    grid: &ZNLattice<NDIM, ZORDER>,
) -> (res: isize)
    requires
        ZORDER == 3,
        grid.wf(),
        face_index < grid.faces@.len(),
    ensures
        res == dirac_string_spec(grid.edges@, grid.face_edges@[face_index as int]),
{
    let edges = grid.face_edges[face_index];
    proof {
        assert(edges[0] < grid.edges@.len() && edges[1] < grid.edges@.len());
        assert(edges[2] < grid.edges@.len() && edges[3] < grid.edges@.len());
    }
    let mut windings: isize = 0;
    windings += shift::<ZORDER>(grid.edges[edges[0]].phase);
    windings -= shift::<ZORDER>(grid.edges[edges[1]].phase);
    windings += shift::<ZORDER>(grid.edges[edges[2]].phase);
    windings -= shift::<ZORDER>(grid.edges[edges[3]].phase);
    assert(windings == winding_spec(grid.edges@, edges));

    let mut res: isize = 0;
    if windings < -(ZORDER as isize) / 2 {
        res = -1;
    }
    if windings > ZORDER as isize / 2 {
        res = 1;
    }
    res
}

/// On Z_3 the Dirac string through a face counts the whole periods by which
/// the winding of its shifted edge phases exceeds its shifted holonomy:
/// `3 * dirac_string == winding - shifted(holonomy)`. So every winding above
/// `1` gives `1`, every winding below `-1` gives `-1`, and the holonomy is
/// the winding taken modulo `3`, in `0..3`, which is the oriented sum
/// `p0 - p1 + p2 - p3` of the edge phases modulo `3`. Each shifted phase is the
/// representative of its phase modulo `3` in `-1..=1`.
pub proof fn law_dirac_string_counts_periods<const NDIM: usize, const ZORDER: usize>(
    edges: Seq<EdgeField<NDIM, ZORDER>>,
    fe: [usize; 4],
)
    requires
        ZORDER == 3,
        forall|k: int| 0 <= k < 4 ==> fe[k] < edges.len() && #[trigger] edges[fe[k] as int].phase < 3,
    ensures
        3 * dirac_string_spec(edges, fe) == winding_spec(edges, fe) - shifted_phase(holonomy_spec(edges, fe), 3),
        holonomy_spec(edges, fe) == winding_spec(edges, fe) % 3,
        0 <= holonomy_spec(edges, fe) < 3,
        holonomy_spec(edges, fe) == (edges[fe[0] as int].phase - edges[fe[1] as int].phase + edges[fe[2] as int].phase
            - edges[fe[3] as int].phase) % 3,
        -1 <= dirac_string_spec(edges, fe) <= 1,
        forall|k: int|
            0 <= k < 4 ==> -1 <= #[trigger] shifted_phase(edges[fe[k] as int].phase as int, 3) <= 1 && (
            shifted_phase(edges[fe[k] as int].phase as int, 3) - edges[fe[k] as int].phase) % 3 == 0,
{
    assert(edges[fe[0] as int].phase < 3);
    assert(edges[fe[1] as int].phase < 3);
    assert(edges[fe[2] as int].phase < 3);
    assert(edges[fe[3] as int].phase < 3);
}

} // verus!
