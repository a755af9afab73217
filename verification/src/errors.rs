//! The error taxonomy: every failure is fatal to the worker that meets it.

use vstd::prelude::*;

verus! {

/// What can go wrong while decoding a package or assembling a bootstrap.
#[derive(Clone, Copy, Debug, PartialEq, Eq, Structural)]
pub enum DebError {
    /// The outer member archive cannot be read.
    OuterArchive,
    /// A compressed member cannot be decompressed.
    Decompress,
    /// An embedded tar archive cannot be read.
    TarFormat,
    /// A name, path or text that must be UTF-8 is not.
    BadUtf8,
    /// A field line has no separator.
    MalformedLine,
    /// A required field is absent.
    MissingField,
    /// An entry path is shorter than the virtual install prefix.
    ShortPath,
    /// A per-file counter cannot be advanced.
    CounterOverflow,
}

impl DebError {
    /// A short diagnostic name for the error.
    pub fn describe(&self) -> (r: &'static str)
        ensures
            r@.len() > 0,
    {
        let s = match self {
            DebError::OuterArchive => "cannot read outer archive",
            DebError::Decompress => "cannot decompress member",
            DebError::TarFormat => "cannot read embedded tar",
            DebError::BadUtf8 => "name or text is not valid UTF-8",
            DebError::MalformedLine => "field line has no separator",
            DebError::MissingField => "required field is absent",
            DebError::ShortPath => "entry path is shorter than the install prefix",
            DebError::CounterOverflow => "file counter overflow",
        };
        proof {
            reveal_strlit("cannot read outer archive");
            reveal_strlit("cannot decompress member");
            reveal_strlit("cannot read embedded tar");
            reveal_strlit("name or text is not valid UTF-8");
            reveal_strlit("field line has no separator");
            reveal_strlit("required field is absent");
            reveal_strlit("entry path is shorter than the install prefix");
            reveal_strlit("file counter overflow");
        }
        s
    }
}

} // verus!
