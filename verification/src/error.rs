use crate::tile::{CoordinateSet, Coordinates};
use vstd::prelude::*;
use vstd::std_specs::convert::FromSpecImpl;

verus! {

/// Errors raised by the game rules
#[derive(Debug)]
pub enum Error {
    Msg(String),
    Cell(CellError),
}

pub type Result<T> = std::result::Result<T, Error>;

impl Error {
    /// An error about the cell at `coordinates`
    pub fn cell(coordinates: Coordinates, msg: String) -> (e: Self)
        ensures
            e matches Error::Cell(ce) && ce.coordinates@ == set![coordinates] && ce.msg == msg,
    {
        Self::Cell(CellError::new(coordinates, msg))
    }

    /// An error about the cells at `coordinates`
    pub fn cells(coordinates: CoordinateSet, msg: String) -> (e: Self)
        ensures
            e matches Error::Cell(ce) && ce.coordinates@ == coordinates@ && ce.msg == msg,
    {
        Self::Cell(CellError::new_many(coordinates, msg))
    }
}

/// Error specific to one or more cells of the board
#[derive(Debug)]
pub struct CellError {
    pub coordinates: CoordinateSet,
    pub msg: String,
}

impl CellError {
    pub fn new(coordinates: Coordinates, msg: String) -> (e: Self)
        ensures
            e.coordinates@ == set![coordinates],
            e.msg == msg,
    {
        Self { coordinates: CoordinateSet::singleton(coordinates), msg }
    }

    pub fn new_many(coordinates: CoordinateSet, msg: String) -> (e: Self)
        ensures
            e.coordinates@ == coordinates@,
            e.msg == msg,
    {
        Self { coordinates, msg }
    }
}

impl From<CellError> for String {
    /// The message of the error
    fn from(e: CellError) -> (s: String) {
        e.msg
    }
}

impl FromSpecImpl<CellError> for String {
    open spec fn obeys_from_spec() -> bool {
        true
    }

    open spec fn from_spec(e: CellError) -> String {
        e.msg
    }
}

/// The message of an error
pub open spec fn error_msg(e: Error) -> String {
    match e {
        Error::Msg(m) => m,
        Error::Cell(ce) => ce.msg,
    }
}

impl From<Error> for String {
    /// The message of the error
    fn from(e: Error) -> (s: String) {
        match e {
            Error::Msg(m) => m,
            Error::Cell(ce) => ce.msg,
        }
    }
}

impl FromSpecImpl<Error> for String {
    open spec fn obeys_from_spec() -> bool {
        true
    }

    open spec fn from_spec(e: Error) -> String {
        error_msg(e)
    }
}

/// An error as contracts see it: a message alone, or the cells it is about
/// together with its message
pub enum Fault {
    Msg(Seq<char>),
    Cells(Set<Coordinates>, Seq<char>),
}

/// What `e` says
pub open spec fn fault_of(e: Error) -> Fault {
    match e {
        Error::Msg(m) => Fault::Msg(m@),
        Error::Cell(ce) => Fault::Cells(ce.coordinates@, ce.msg@),
    }
}

/// What `e` says, as a fault about cells
pub open spec fn cell_fault(e: CellError) -> Fault {
    Fault::Cells(e.coordinates@, e.msg@)
}

} // verus!
