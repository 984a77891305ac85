//! Lists and categories together with what reads and writes them.

pub mod category_list_io;
pub mod filter_list_io;
