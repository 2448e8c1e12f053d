pub mod helper;

pub use helper::{EditorHelper, Pair};
