pub mod backup_fragments;
