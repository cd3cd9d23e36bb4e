//! System cache: an in-memory store of table metadata with name-based and
//! id-based lookup.

use vstd::prelude::*;

use crate::table::table::Table;
use crate::text::str_eq;

verus! {

/// System cache error types.
#[derive(Debug, PartialEq, Eq)]
pub enum SysCacheError {
    /// Table not found in the cache.
    NotFound(String),
    /// Table already exists.
    AlreadyExists(String),
}

/// System cache result type.
pub type SysCacheResult<T> = Result<T, SysCacheError>;

/// Whether some table in `ts` has the given name.
pub open spec fn has_table_name(ts: Seq<Table>, name: Seq<char>) -> bool {
    exists|i: int| 0 <= i < ts.len() && (#[trigger] ts[i]).table_name@ == name
}

/// Whether some table in `ts` has the given identifier.
pub open spec fn has_table_id(ts: Seq<Table>, id: u64) -> bool {
    exists|i: int| 0 <= i < ts.len() && (#[trigger] ts[i]).table_id == id
}

/// Well-formedness of a table store: names and identifiers are unique.
pub open spec fn tables_wf(ts: Seq<Table>) -> bool {
    forall|i: int, j: int|
        0 <= i < j < ts.len() ==> (#[trigger] ts[i]).table_name@ != (#[trigger] ts[j]).table_name@
            && ts[i].table_id != ts[j].table_id
}

/// System cache for table metadata, with lookups by name and by identifier.
pub struct SysCache {
    tables: Vec<Table>,
    next_table_id: u64,
}

impl SysCache {
    /// The tables held by the cache, in insertion order.
    pub closed spec fn spec_tables(self) -> Seq<Table> {
        self.tables@
    }

    /// The next identifier `allocate_table_id` will hand out.
    pub closed spec fn spec_next_table_id(self) -> u64 {
        self.next_table_id
    }

    /// Cache invariant: distinct names and distinct identifiers.
    pub open spec fn wf(self) -> bool {
        tables_wf(self.spec_tables())
    }

    /// Creates a new empty cache.
    pub fn new() -> (r: Self)
        ensures
            r.wf(),
            r.spec_tables().len() == 0,
            r.spec_next_table_id() == 1,
    {
        Self { tables: Vec::new(), next_table_id: 1 }
    }

    /// Creates a new empty cache sized for the given number of tables.
    pub fn with_capacity(capacity: usize) -> (r: Self)
        ensures
            r.wf(),
            r.spec_tables().len() == 0,
            r.spec_next_table_id() == 1,
    {
        Self { tables: Vec::with_capacity(capacity), next_table_id: 1 }
    }

    /// Inserts a table. Fails with `AlreadyExists` exactly when the cache
    /// already holds a table of the same name or the same identifier.
    pub fn insert(&mut self, table: Table) -> (r: SysCacheResult<()>)
        requires
            old(self).wf(),
        ensures
            final(self).wf(),
            final(self).spec_next_table_id() == old(self).spec_next_table_id(),
            r is Ok <==> (!has_table_name(old(self).spec_tables(), table.table_name@)
                && !has_table_id(old(self).spec_tables(), table.table_id)),
            r is Ok ==> final(self).spec_tables() == old(self).spec_tables().push(table),
            r is Err ==> final(self).spec_tables() == old(self).spec_tables() && r matches Err(
                SysCacheError::AlreadyExists(_),
            ),
    {
        let n = self.tables.len();
        let mut i: usize = 0;
        while i < n
            invariant
                0 <= i <= n,
                n == self.tables@.len(),
                *self == *old(self),
                old(self).wf(),
                forall|k: int|
                    0 <= k < i ==> (#[trigger] self.tables@[k]).table_name@ != table.table_name@
                        && self.tables@[k].table_id != table.table_id,
            decreases n - i,
        {
            if str_eq(self.tables[i].table_name(), table.table_name()) {
                return Err(SysCacheError::AlreadyExists(table.table_name));
            }
            if self.tables[i].table_id() == table.table_id() {
                return Err(SysCacheError::AlreadyExists(table.table_name));
            }
            i = i + 1;
        }
        self.tables.push(table);
        Ok(())
    }

    /// Looks a table up by name; a copy of the stored table.
    pub fn get_by_name(&self, name: &str) -> (r: SysCacheResult<Table>)
        ensures
            r is Ok <==> has_table_name(self.spec_tables(), name@),
            r matches Ok(t) ==> t@.table_name == name@ && exists|i: int|
                0 <= i < self.spec_tables().len() && (#[trigger] self.spec_tables()[i])@ == t@,
    {
        let n = self.tables.len();
        let mut i: usize = 0;
        while i < n
            invariant
                0 <= i <= n,
                n == self.tables@.len(),
                forall|k: int|
                    0 <= k < i ==> (#[trigger] self.tables@[k]).table_name@ != name@,
            decreases n - i,
        {
            if str_eq(self.tables[i].table_name(), name) {
                return Ok(self.tables[i].clone());
            }
            i = i + 1;
        }
        Err(SysCacheError::NotFound(name.to_owned()))
    }

    /// Looks a table up by identifier; a copy of the stored table.
    pub fn get_by_id(&self, id: u64) -> (r: SysCacheResult<Table>)
        ensures
            r is Ok <==> has_table_id(self.spec_tables(), id),
            r matches Ok(t) ==> t@.table_id == id && exists|i: int|
                0 <= i < self.spec_tables().len() && (#[trigger] self.spec_tables()[i])@ == t@,
    {
        let n = self.tables.len();
        let mut i: usize = 0;
        while i < n
            invariant
                0 <= i <= n,
                n == self.tables@.len(),
                forall|k: int| 0 <= k < i ==> (#[trigger] self.tables@[k]).table_id != id,
            decreases n - i,
        {
            if self.tables[i].table_id() == id {
                return Ok(self.tables[i].clone());
            }
            i = i + 1;
        }
        Err(SysCacheError::NotFound("table ID not in cache".to_owned()))
    }

    /// Removes a table by name and returns it.
    pub fn remove_by_name(&mut self, name: &str) -> (r: SysCacheResult<Table>)
        requires
            old(self).wf(),
        ensures
            final(self).wf(),
            final(self).spec_next_table_id() == old(self).spec_next_table_id(),
            r is Ok <==> has_table_name(old(self).spec_tables(), name@),
            r matches Ok(t) ==> t.table_name@ == name@ && exists|i: int|
                {
                    &&& 0 <= i < old(self).spec_tables().len()
                    &&& old(self).spec_tables()[i] == t
                    &&& final(self).spec_tables() == old(self).spec_tables().remove(i)
                },
            r is Err ==> final(self).spec_tables() == old(self).spec_tables(),
    {
        let n = self.tables.len();
        let mut i: usize = 0;
        while i < n
            invariant
                0 <= i <= n,
                n == self.tables@.len(),
                *self == *old(self),
                old(self).wf(),
                forall|k: int|
                    0 <= k < i ==> (#[trigger] self.tables@[k]).table_name@ != name@,
            decreases n - i,
        {
            if str_eq(self.tables[i].table_name(), name) {
                let t = self.tables.remove(i);
                return Ok(t);
            }
            i = i + 1;
        }
        Err(SysCacheError::NotFound(name.to_owned()))
    }

    /// Removes a table by identifier and returns it.
    pub fn remove_by_id(&mut self, id: u64) -> (r: SysCacheResult<Table>)
        requires
            old(self).wf(),
        ensures
            final(self).wf(),
            final(self).spec_next_table_id() == old(self).spec_next_table_id(),
            r is Ok <==> has_table_id(old(self).spec_tables(), id),
            r matches Ok(t) ==> t.table_id == id && exists|i: int|
                {
                    &&& 0 <= i < old(self).spec_tables().len()
                    &&& old(self).spec_tables()[i] == t
                    &&& final(self).spec_tables() == old(self).spec_tables().remove(i)
                },
            r is Err ==> final(self).spec_tables() == old(self).spec_tables(),
    {
        let n = self.tables.len();
        let mut i: usize = 0;
        while i < n
            invariant
                0 <= i <= n,
                n == self.tables@.len(),
                *self == *old(self),
                old(self).wf(),
                forall|k: int| 0 <= k < i ==> (#[trigger] self.tables@[k]).table_id != id,
            decreases n - i,
        {
            if self.tables[i].table_id() == id {
                let t = self.tables.remove(i);
                return Ok(t);
            }
            i = i + 1;
        }
        Err(SysCacheError::NotFound("table ID not in cache".to_owned()))
    }

    /// Whether a table with the name exists.
    pub fn exists_by_name(&self, name: &str) -> (r: bool)
        ensures
            r == has_table_name(self.spec_tables(), name@),
    {
        match self.get_by_name(name) {
            Ok(_) => true,
            Err(_) => false,
        }
    }

    /// Whether a table with the identifier exists.
    pub fn exists_by_id(&self, id: u64) -> (r: bool)
        ensures
            r == has_table_id(self.spec_tables(), id),
    {
        match self.get_by_id(id) {
            Ok(_) => true,
            Err(_) => false,
        }
    }

    /// The number of tables in the cache.
    pub fn size(&self) -> (r: usize)
        ensures
            r == self.spec_tables().len(),
    {
        self.tables.len()
    }

    /// Whether the cache is empty.
    pub fn is_empty(&self) -> (r: bool)
        ensures
            r == (self.spec_tables().len() == 0),
    {
        self.tables.is_empty()
    }

    /// Hands out the next table identifier and advances the counter.
    pub fn allocate_table_id(&mut self) -> (r: u64)
        requires
            old(self).spec_next_table_id() < u64::MAX,
        ensures
            r == old(self).spec_next_table_id(),
            final(self).spec_next_table_id() == old(self).spec_next_table_id() + 1,
            final(self).spec_tables() == old(self).spec_tables(),
    {
        let id = self.next_table_id;
        self.next_table_id = self.next_table_id + 1;
        id
    }

    /// Removes every table from the cache.
    pub fn clear(&mut self)
        ensures
            final(self).wf(),
            final(self).spec_tables().len() == 0,
            final(self).spec_next_table_id() == old(self).spec_next_table_id(),
    {
        self.tables.clear();
    }
}

impl Default for SysCache {
    /// Same as `SysCache::new`.
    fn default() -> (r: Self)
        ensures
            r.wf(),
            r.spec_tables().len() == 0,
            r.spec_next_table_id() == 1,
    {
        Self::new()
    }
}

} // verus!
