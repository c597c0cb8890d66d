# z_n_gauge

Monte Carlo simulation of Z_N lattice gauge theory on periodic
four-dimensional cubical lattices, with the gauge field on the edges, the
holonomy and Dirac string of every plaquette, and the monopole charge of every
cube.

- `src/` is the library, verified with Verus: the lattice and its incidence
  tables, edge updates that keep every plaquette and cube consistent with the
  edges, the experiment state and the seed that restarts it, the byte layout
  of backups and the record layouts that describe them, reading backups from
  the bytes of `.npy` files (npyz parses the header), merging backups, the
  batching of recordings, the enumeration of sweep runs, the relaunching of
  unfinished runs and the archiving rules.
- `app/` holds what the library leaves out: settings files (serde), reading
  and writing `.npy` files (npyz's writer), the floating-point Metropolis
  weights and correlators, threads, and the files and folders of parameter
  sweeps.
- `tests/` exercises the library on concrete values.
