//! Computer players: position evaluators and search.
pub mod evaluator;
pub mod search;
pub mod alpha_beta_bot;
pub mod random_bot;
pub mod tt;
pub mod pab_extend_bot;
pub mod parallel;
pub mod parallel_tt_bot;
