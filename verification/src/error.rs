use vstd::prelude::*;

verus! {

/// The errors that the rustlet library reports.
#[derive(Debug, Clone)]
pub enum Error {
    /// An operation came too late, such as changing headers after they were written.
    OrderingError(String),
    /// An RSP page could not be processed.
    InvalidRspError(String),
    /// An operation that the application asked for cannot be done.
    ApplicationError(String),
}

} // verus!
