pub use column::Column;
pub use column_iter::ColumnIter;
pub use display::Display;

pub mod column;
pub mod column_iter;
pub mod display;
pub mod layout;
