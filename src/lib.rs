mod aggregate;
pub mod finger;
pub mod input;
pub mod keyboard;
pub mod keylog;
pub mod keymap;
pub mod laws;
pub mod matrix;
pub mod physical;
pub mod render_opts;
pub mod sfb;
pub mod stats;
mod tally;
pub mod text;
