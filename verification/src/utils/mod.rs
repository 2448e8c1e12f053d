pub mod redirection;
pub mod offsets;
pub mod order;
pub mod path;
pub mod text;

pub use redirection::{Descriptor, Redirection, RedirectionType};
