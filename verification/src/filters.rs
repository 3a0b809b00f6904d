//! Filters that the template engine applies to a piped value.
pub mod banana;

pub use self::banana::Banana;
