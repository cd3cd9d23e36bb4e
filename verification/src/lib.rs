//! Storage engine core: tablespaces with extent allocation, a buffer pool
//! with pinning and hot/cold replacement, slotted heap pages, a persistent
//! table catalog, and a small SQL front end, all over an in-memory virtual
//! filesystem.

pub mod buffer;
pub mod catalog;
pub mod codec;
pub mod executor;
pub mod heap;
pub mod infrastructure;
pub mod table;
pub mod tablespace;
pub mod text;
pub mod page;
pub mod segment;
pub mod sql;
pub mod types;
pub mod vfs;

pub use executor::Executor;
pub use heap::HeapTable;
pub use heap::RowId;
pub use heap::Tuple;
pub use heap::Value;
pub use page::Page;
pub use sql::parse;
pub use sql::Statement;
pub use vfs::VfsError;
