//! The pieces of an in-memory relational database that stand apart from
//! its tables: handles and value types, the storage traits, the sort order
//! of a query, CSV lines, and the command prompt's dispatch.
pub mod types;
pub mod storage;
pub mod order;
pub mod select;
pub mod csv;
pub mod repl;
pub mod col;
pub mod table;
pub mod view;
pub mod render;
pub mod prompt;
pub mod load;
pub mod catalog;
