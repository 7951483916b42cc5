//! Materials: the surface model, the library, mood boards and finish swaps.
pub mod library;
pub mod material;
pub mod mood_board;
pub mod swap;
