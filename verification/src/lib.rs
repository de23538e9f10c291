//! Decision logic of an ant-colony tour simulation: ants walk between food
//! sites, prefer near sites over far ones, and the shortest closed tour found
//! so far is kept.
pub mod geometry;
pub mod chemin;
pub mod food;
pub mod random;
pub mod ant;
