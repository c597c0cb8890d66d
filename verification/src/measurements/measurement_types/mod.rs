pub mod ploop_ploopcorr_corr;
pub mod save_edges;
