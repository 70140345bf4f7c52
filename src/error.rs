use vstd::prelude::*;

verus! {

/// An execution error; each names the offending identifier or describes the fault.
#[derive(Debug)]
pub enum DbError {
    TableAlreadyExists(String),
    TableNotFound(String),
    ColumnNotFound(String),
    UniqueViolation(String),
    ParseError(String),
    IoError(String),
}

/// The mathematical content of a [`DbError`].
pub enum DbErrorView {
    TableAlreadyExists(Seq<char>),
    TableNotFound(Seq<char>),
    ColumnNotFound(Seq<char>),
    UniqueViolation(Seq<char>),
    ParseError(Seq<char>),
    IoError(Seq<char>),
}

/// The result of a fallible database operation.
pub type Result<T, E = DbError> = std::result::Result<T, E>;

impl View for DbError {
    type V = DbErrorView;

    open spec fn view(&self) -> DbErrorView {
        match self {
            DbError::TableAlreadyExists(s) => DbErrorView::TableAlreadyExists(s@),
            DbError::TableNotFound(s) => DbErrorView::TableNotFound(s@),
            DbError::ColumnNotFound(s) => DbErrorView::ColumnNotFound(s@),
            DbError::UniqueViolation(s) => DbErrorView::UniqueViolation(s@),
            DbError::ParseError(s) => DbErrorView::ParseError(s@),
            DbError::IoError(s) => DbErrorView::IoError(s@),
        }
    }
}

impl DbError {
    /// The human-readable description of this error.
    pub fn message(&self) -> (r: String)
        ensures
            r@ == self.message_spec(),
    {
        match self {
            DbError::TableAlreadyExists(s) => {
                let a = String::from_str("Table '");
                a.concat(s.as_str()).concat("' already exists")
            },
            DbError::TableNotFound(s) => {
                let a = String::from_str("Table '");
                a.concat(s.as_str()).concat("' not found")
            },
            DbError::ColumnNotFound(s) => {
                let a = String::from_str("Column '");
                a.concat(s.as_str()).concat("' not found")
            },
            DbError::UniqueViolation(s) => {
                let a = String::from_str("Unique constraint violation on column '");
                a.concat(s.as_str()).concat("'")
            },
            DbError::ParseError(s) => {
                let a = String::from_str("Parsing error: ");
                a.concat(s.as_str())
            },
            DbError::IoError(s) => {
                let a = String::from_str("IO Error: ");
                a.concat(s.as_str())
            },
        }
    }

    pub open spec fn message_spec(&self) -> Seq<char> {
        match self {
            DbError::TableAlreadyExists(s) => "Table '"@ + s@ + "' already exists"@,
            DbError::TableNotFound(s) => "Table '"@ + s@ + "' not found"@,
            DbError::ColumnNotFound(s) => "Column '"@ + s@ + "' not found"@,
            DbError::UniqueViolation(s) => "Unique constraint violation on column '"@ + s@ + "'"@,
            DbError::ParseError(s) => "Parsing error: "@ + s@,
            DbError::IoError(s) => "IO Error: "@ + s@,
        }
    }
}

} // verus!
