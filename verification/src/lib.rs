//! Reports over a snapshot of tracked brand mentions: the dashboard summary,
//! the competitor graph, the strongest competitors of a brand, and the
//! listings that go with them.
//!
//! Every report is a function of the snapshot it is given. Real quantities
//! are held in fixed point, in millionths.

pub mod dashboard;
pub mod db;
pub mod fixed;
pub mod graph;
pub mod grouping;
pub mod joining;
pub mod listing;
pub mod models;
pub mod providers;
pub mod ranking;
pub mod rollups;
pub mod routes;
pub mod selection;
pub mod sorting;
pub mod storage;
pub mod text;
