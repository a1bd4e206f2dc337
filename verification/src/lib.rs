//! A small to-do list library: items with a name and a completion flag,
//! kept in an ordered collection that supports adding, completing and
//! removing entries by substring query or by 1-based index, and rendering
//! the list as numbered text lines.

pub mod render;
pub mod todo;
pub mod todos;

pub use todo::Todo;
pub use todo::TodoView;
pub use todos::TodoError;
pub use todos::Todos;
