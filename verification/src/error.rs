//! The errors of the search.
use vstd::prelude::*;
use vstd::string::*;

verus! {

/// Everything that can go wrong while loading a binary or looking for gadgets.
#[derive(Debug, PartialEq, Eq)]
pub enum Error {
    /// The input could not be read or written; the text says what the system reported.
    IoError(String),
    /// The container was recognised but one of its tables does not fit in the file.
    ParsingError(String),
    /// A worker thread stopped before handing back its gadgets.
    ThreadRuntimeError(String),
    GenericError(&'static str),
    MismatchFileFormatError(&'static str),
    /// The file is too short to hold the header that its format asks for.
    InvalidFileError,
    /// The file does not start with the signature of a supported container.
    InvalidMagicParsingError,
    /// A header of the container points at something that is not what it should be.
    InvalidStructureParsingError,
    /// The machine tag of the container maps to no CPU profile.
    UnsupportedCpuError,
}

#[derive(Debug)]
pub struct GenericError {
    msg: String,
}

impl GenericError {
    pub closed spec fn view(&self) -> Seq<char> {
        self.msg@
    }

    pub fn new(msg: &str) -> (e: Self)
        ensures
            e@ == msg@,
    {
        GenericError { msg: String::from_str(msg) }
    }

    /// The message followed by a closing quote.
    pub fn to_string(&self) -> (s: String)
        ensures
            s@ == self@ + seq!['\''],
    {
        proof {
            reveal_strlit("'");
        }
        let s = self.msg.clone().concat("'");
        assert(s@ =~= self@ + seq!['\'']);
        s
    }
}

/// Marks an attempt to build a gadget out of no instruction at all.
#[derive(Debug)]
pub struct GadgetBuildError {}

#[derive(Debug)]
pub struct InvalidFormatError {
    format: String,
}

pub open spec fn invalid_format_prefix() -> Seq<char> {
    "Unknown/unsupported format: "@
}

impl InvalidFormatError {
    pub closed spec fn view(&self) -> Seq<char> {
        self.format@
    }

    pub fn new(format: &str) -> (e: Self)
        ensures
            e@ == format@,
    {
        InvalidFormatError { format: String::from_str(format) }
    }

    /// The name of the format after a fixed prefix, followed by a closing quote.
    pub fn to_string(&self) -> (s: String)
        ensures
            s@ == invalid_format_prefix() + self@ + seq!['\''],
    {
        proof {
            reveal_strlit("'");
        }
        let mut s = String::from_str("Unknown/unsupported format: ");
        s.append(self.format.as_str());
        s.append("'");
        assert(s@ =~= invalid_format_prefix() + self@ + seq!['\'']);
        s
    }
}

} // verus!
