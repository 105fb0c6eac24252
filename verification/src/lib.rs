//! Backups of Hytale worlds: the inventory of the worlds on a machine, the
//! plan by which a world is written into an archive and an archive is written
//! back as a world, the progress record of a running transfer, and the
//! reading of a world's log.
//!
//! The library computes on plain values and touches neither disk nor screen.
//! What it is told about the disk it is told in listings, and what is to be
//! done on the disk it says in steps.
pub mod app;
pub mod backup;
pub mod log_filter;
pub mod models;
pub mod progress;
pub mod text;
pub mod utils;
