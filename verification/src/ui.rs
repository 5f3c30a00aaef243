//! What the terminal interface decides: reading a typed move, and what each
//! character cell of the drawn board shows.
pub mod human;
pub mod terminal_visualizer;
