//! Core identity types: selectors, node keys, and the engine's error set.

use vstd::prelude::*;
use crate::time::Time;

verus! {

/// Identifies "which row" a quantity refers to.
///
/// `Unit` marks a global quantity; the entity variants carry the ids of the
/// entity-typed selector arguments. Equality is structural.
#[derive(Clone, Copy, PartialEq, Eq, Structural, Hash, Debug)]
pub enum Selector {
    Unit,
    Entity(i64),
    EntityPair(i64, i64),
}

/// The `(name, selector, time)` triple that identifies a leaf or derived
/// quantity value.
pub struct NodeKey {
    pub name: String,
    pub selector: Selector,
    pub t: Time,
}

impl View for NodeKey {
    type V = (Seq<char>, Selector, Time);

    open spec fn view(&self) -> (Seq<char>, Selector, Time) {
        (self.name@, self.selector, self.t)
    }
}

impl NodeKey {
    /// Builds a key from its parts.
    pub fn new(name: &str, selector: Selector, t: Time) -> (r: NodeKey)
        ensures
            r@ == (name@, selector, t),
    {
        NodeKey { name: name.to_owned(), selector, t }
    }

    /// A copy of this key with the same view.
    pub fn dup(&self) -> (r: NodeKey)
        ensures
            r@ == self@,
    {
        NodeKey { name: self.name.clone(), selector: self.selector, t: self.t }
    }

    /// Structural equality of two keys.
    pub fn same(&self, other: &NodeKey) -> (r: bool)
        ensures
            r == (self@ == other@),
    {
        let names_equal = self.name == other.name;
        let sel_equal = self.selector == other.selector;
        let t_equal = self.t == other.t;
        names_equal && sel_equal && t_equal
    }
}

/// A failure while decoding a single replication value.
#[derive(Clone, Copy, PartialEq, Eq, Structural, Debug)]
pub enum ParseError {
    /// A text column value was not valid UTF-8.
    Utf8Error,
    /// A text column value was not a well-formed decimal integer.
    ParseIntError,
    /// A text column value was not a well-formed number.
    ParseFloatError,
    /// A text timestamp did not match the expected pattern.
    ChronoParseError,
    /// The buffer ended before the field was complete.
    UnexpectedEof,
    /// The leading tag byte named no known message.
    UnknownTag(u8),
    /// A column value had a kind that the caller cannot accept.
    InvalidColumnKind,
    /// A binary integer field had a width outside 1..=8 bytes.
    InvalidWidth,
}

impl ParseError {
    /// The description each variant carries.
    pub open spec fn describe_spec(&self) -> Seq<char> {
        match self {
            ParseError::Utf8Error => "invalid UTF-8"@,
            ParseError::ParseIntError => "invalid integer literal"@,
            ParseError::ParseFloatError => "invalid numeric literal"@,
            ParseError::ChronoParseError => "invalid timestamp"@,
            ParseError::UnexpectedEof => "unexpected end of buffer"@,
            ParseError::UnknownTag(_) => "unknown message tag"@,
            ParseError::InvalidColumnKind => "invalid column kind"@,
            ParseError::InvalidWidth => "invalid binary integer width"@,
        }
    }

    /// A short description, used when escalating into [`Error::ReplicationError`].
    pub fn describe(&self) -> (r: String)
        ensures
            r@ == self.describe_spec(),
    {
        match self {
            ParseError::Utf8Error => "invalid UTF-8".to_owned(),
            ParseError::ParseIntError => "invalid integer literal".to_owned(),
            ParseError::ParseFloatError => "invalid numeric literal".to_owned(),
            ParseError::ChronoParseError => "invalid timestamp".to_owned(),
            ParseError::UnexpectedEof => "unexpected end of buffer".to_owned(),
            ParseError::UnknownTag(_) => "unknown message tag".to_owned(),
            ParseError::InvalidColumnKind => "invalid column kind".to_owned(),
            ParseError::InvalidWidth => "invalid binary integer width".to_owned(),
        }
    }

    /// Escalates this parse failure into the engine's error set.
    pub fn to_error(&self) -> (r: Error)
        ensures
            r@ == ErrorV::ReplicationError(self.describe_spec()),
    {
        Error::ReplicationError { detail: self.describe() }
    }
}

/// The engine's closed error set.
#[derive(Debug)]
pub enum Error {
    /// A replicated tuple had a different column count than its table declares.
    UnexpectedNumberOfColumns { actual: usize, expected: usize },
    /// A replicated relation has no declared table.
    UnknownTable { table_name: String },
    /// A replication-only operation was called on an engine constructed
    /// without replication.
    ReplicationNotEnabled,
    /// A SQL-layer failure, carried as its message.
    DatabaseError { detail: String },
    /// A binary-decoding failure, carried as its description.
    ReplicationError { detail: String },
}

/// The mathematical shape of an [`Error`].
pub enum ErrorV {
    UnexpectedNumberOfColumns { actual: int, expected: int },
    UnknownTable(Seq<char>),
    ReplicationNotEnabled,
    DatabaseError(Seq<char>),
    ReplicationError(Seq<char>),
}

impl View for Error {
    type V = ErrorV;

    open spec fn view(&self) -> ErrorV {
        match self {
            Error::UnexpectedNumberOfColumns { actual, expected } => {
                ErrorV::UnexpectedNumberOfColumns {
                    actual: *actual as int,
                    expected: *expected as int,
                }
            },
            Error::UnknownTable { table_name } => ErrorV::UnknownTable(table_name@),
            Error::ReplicationNotEnabled => ErrorV::ReplicationNotEnabled,
            Error::DatabaseError { detail } => ErrorV::DatabaseError(detail@),
            Error::ReplicationError { detail } => ErrorV::ReplicationError(detail@),
        }
    }
}

} // verus!
