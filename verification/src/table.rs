//! Table metadata: columns, tables, the fluent table builder, and the
//! in-memory system cache of tables.

pub mod builder;
pub mod column;
pub mod syscache;
pub mod table;

pub use builder::TableBuilder;
pub use column::Column;
pub use syscache::SysCache;
pub use syscache::SysCacheError;
pub use syscache::SysCacheResult;
pub use table::Table;
pub use table::TableType;
