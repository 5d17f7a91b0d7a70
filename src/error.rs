use vstd::prelude::*;

verus! {

/// Error categories surfaced by the daemon's logic; each carries a description.
#[derive(Debug, PartialEq, Eq)]
pub enum ExpectedError {
    TypeError(String),
    NoneError(String),
    ProcessError(String),
    InvalidError(String),
    RequestError(String),
    ParsingError(String),
    ChannelError(String),
    UnknownBlockError(String),
    PostgresError(String),
    IoError(String),
    JsonRpcError(String),
    ConnectionError(String),
    StorageError(String),
}

impl ExpectedError {
    /// The description carried by the error.
    pub open spec fn description(&self) -> Seq<char> {
        match self {
            ExpectedError::TypeError(s) => s@,
            ExpectedError::NoneError(s) => s@,
            ExpectedError::ProcessError(s) => s@,
            ExpectedError::InvalidError(s) => s@,
            ExpectedError::RequestError(s) => s@,
            ExpectedError::ParsingError(s) => s@,
            ExpectedError::ChannelError(s) => s@,
            ExpectedError::UnknownBlockError(s) => s@,
            ExpectedError::PostgresError(s) => s@,
            ExpectedError::IoError(s) => s@,
            ExpectedError::JsonRpcError(s) => s@,
            ExpectedError::ConnectionError(s) => s@,
            ExpectedError::StorageError(s) => s@,
        }
    }

    /// The description of the error, as the daemon shows it to operators.
    pub fn to_string(&self) -> (r: String)
        ensures
            r@ == self.description(),
    {
        match self {
            ExpectedError::TypeError(s) => s.clone(),
            ExpectedError::NoneError(s) => s.clone(),
            ExpectedError::ProcessError(s) => s.clone(),
            ExpectedError::InvalidError(s) => s.clone(),
            ExpectedError::RequestError(s) => s.clone(),
            ExpectedError::ParsingError(s) => s.clone(),
            ExpectedError::ChannelError(s) => s.clone(),
            ExpectedError::UnknownBlockError(s) => s.clone(),
            ExpectedError::PostgresError(s) => s.clone(),
            ExpectedError::IoError(s) => s.clone(),
            ExpectedError::JsonRpcError(s) => s.clone(),
            ExpectedError::ConnectionError(s) => s.clone(),
            ExpectedError::StorageError(s) => s.clone(),
        }
    }
}

/// Errors of the relational sink's schema handling.
#[derive(Debug, PartialEq, Eq)]
pub enum PostgresError {
    UnsupportedType(String),
    Connection(String),
    ExecutedFailed(String),
    InvalidType(String),
}

impl PostgresError {
    /// The description carried by the error.
    pub open spec fn description(&self) -> Seq<char> {
        match self {
            PostgresError::UnsupportedType(s) => s@,
            PostgresError::Connection(s) => s@,
            PostgresError::ExecutedFailed(s) => s@,
            PostgresError::InvalidType(s) => s@,
        }
    }

    /// The description of the error.
    pub fn to_string(&self) -> (r: String)
        ensures
            r@ == self.description(),
    {
        match self {
            PostgresError::UnsupportedType(s) => s.clone(),
            PostgresError::Connection(s) => s.clone(),
            PostgresError::ExecutedFailed(s) => s.clone(),
            PostgresError::InvalidType(s) => s.clone(),
        }
    }
}

} // verus!

verus! {

impl ExpectedError {
    /// A copy of the error.
    pub fn duplicate(&self) -> (r: ExpectedError)
        ensures
            r == *self,
    {
        match self {
            ExpectedError::TypeError(s) => ExpectedError::TypeError(s.clone()),
            ExpectedError::NoneError(s) => ExpectedError::NoneError(s.clone()),
            ExpectedError::ProcessError(s) => ExpectedError::ProcessError(s.clone()),
            ExpectedError::InvalidError(s) => ExpectedError::InvalidError(s.clone()),
            ExpectedError::RequestError(s) => ExpectedError::RequestError(s.clone()),
            ExpectedError::ParsingError(s) => ExpectedError::ParsingError(s.clone()),
            ExpectedError::ChannelError(s) => ExpectedError::ChannelError(s.clone()),
            ExpectedError::UnknownBlockError(s) => ExpectedError::UnknownBlockError(s.clone()),
            ExpectedError::PostgresError(s) => ExpectedError::PostgresError(s.clone()),
            ExpectedError::IoError(s) => ExpectedError::IoError(s.clone()),
            ExpectedError::JsonRpcError(s) => ExpectedError::JsonRpcError(s.clone()),
            ExpectedError::ConnectionError(s) => ExpectedError::ConnectionError(s.clone()),
            ExpectedError::StorageError(s) => ExpectedError::StorageError(s.clone()),
        }
    }
}

} // verus!
