//! Verified building blocks: a directed graph with stable node handles.
pub mod graph;
pub mod mpmc;
pub mod game;
pub mod ai;
pub mod text;
pub mod player_spec;
pub mod ui;
pub mod db;
pub mod http;
