//! Catalog error definitions.

use vstd::prelude::*;

use vstd::string::StringExecFns;

verus! {

/// Catalog error types: everything that can go wrong creating, looking up
/// or persisting table metadata.
#[derive(Debug)]
pub enum CatalogError {
    /// A table with the name already exists.
    TableAlreadyExists(String),
    /// No table has the name or identifier.
    TableNotFound(String),
    /// Two columns share a name.
    ColumnAlreadyExists(String),
    /// An I/O failure.
    IoError(String),
    /// A catalog file could not be parsed.
    ParseError(String),
    /// A caller-supplied argument is not acceptable.
    InvalidArgument(String),
}

impl CatalogError {
    /// A human-readable description: the error kind, then its detail.
    pub fn message(&self) -> (r: String)
        ensures
            self matches CatalogError::TableAlreadyExists(n) ==> r@ == "Table already exists: "@
                + n@,
            self matches CatalogError::TableNotFound(n) ==> r@ == "Table not found: "@ + n@,
            self matches CatalogError::ColumnAlreadyExists(n) ==> r@
                == "Column already exists: "@ + n@,
            self matches CatalogError::IoError(n) ==> r@ == "I/O error: "@ + n@,
            self matches CatalogError::ParseError(n) ==> r@ == "Parse error: "@ + n@,
            self matches CatalogError::InvalidArgument(n) ==> r@ == "Invalid argument: "@ + n@,
    {
        match self {
            CatalogError::TableAlreadyExists(n) => {
                let mut s = "Table already exists: ".to_owned();
                s.append(n.as_str());
                s
            },
            CatalogError::TableNotFound(n) => {
                let mut s = "Table not found: ".to_owned();
                s.append(n.as_str());
                s
            },
            CatalogError::ColumnAlreadyExists(n) => {
                let mut s = "Column already exists: ".to_owned();
                s.append(n.as_str());
                s
            },
            CatalogError::IoError(n) => {
                let mut s = "I/O error: ".to_owned();
                s.append(n.as_str());
                s
            },
            CatalogError::ParseError(n) => {
                let mut s = "Parse error: ".to_owned();
                s.append(n.as_str());
                s
            },
            CatalogError::InvalidArgument(n) => {
                let mut s = "Invalid argument: ".to_owned();
                s.append(n.as_str());
                s
            },
        }
    }
}

/// Result type for catalog operations.
pub type CatalogResult<T> = Result<T, CatalogError>;

} // verus!
