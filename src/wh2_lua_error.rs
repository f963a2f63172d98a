//! The errors of the library.

use vstd::prelude::*;

use crate::tw_db_pp::path_view;

verus! {

/// The mathematical value of a `Wh2LuaError`.
pub enum Wh2LuaErrorV {
    ConfigError(Seq<char>),
    RpfmError(Seq<char>),
    LuaError(Seq<char>),
    OutDirNotEmpty(Seq<Seq<char>>),
    IoError(Seq<char>),
    UnsupportedFieldKind(Seq<char>),
    MissingSchemaDefinition(Seq<char>),
    AmbiguousCorePrefix(Seq<char>),
    ManifestError(Seq<char>),
}

/// Everything that can stop the conversion of a table or of a whole run.
#[derive(Debug, Clone)]
pub enum Wh2LuaError {
    /// The command line or the environment does not say what to do.
    ConfigError(String),
    /// The database decoder failed; its message.
    RpfmError(String),
    LuaError(String),
    /// The output directory (its path components) already holds files.
    OutDirNotEmpty(Vec<String>),
    /// Reading or writing a file failed; the message.
    IoError(String),
    /// A cell of the named field holds a nested record, which has no Lua scalar form.
    UnsupportedFieldKind(String),
    /// The schema has no definition for the named table file.
    MissingSchemaDefinition(String),
    /// A core data file of the named table was met, but no name prefix for its script can be
    /// found.
    AmbiguousCorePrefix(String),
    /// A manifest line has a shape that is not understood; the line.
    ManifestError(String),
}

impl View for Wh2LuaError {
    type V = Wh2LuaErrorV;

    open spec fn view(&self) -> Wh2LuaErrorV {
        match self {
            Wh2LuaError::ConfigError(s) => Wh2LuaErrorV::ConfigError(s@),
            Wh2LuaError::RpfmError(s) => Wh2LuaErrorV::RpfmError(s@),
            Wh2LuaError::LuaError(s) => Wh2LuaErrorV::LuaError(s@),
            Wh2LuaError::OutDirNotEmpty(p) => Wh2LuaErrorV::OutDirNotEmpty(path_view(p@)),
            Wh2LuaError::IoError(s) => Wh2LuaErrorV::IoError(s@),
            Wh2LuaError::UnsupportedFieldKind(s) => Wh2LuaErrorV::UnsupportedFieldKind(s@),
            Wh2LuaError::MissingSchemaDefinition(s) => Wh2LuaErrorV::MissingSchemaDefinition(s@),
            Wh2LuaError::AmbiguousCorePrefix(s) => Wh2LuaErrorV::AmbiguousCorePrefix(s@),
            Wh2LuaError::ManifestError(s) => Wh2LuaErrorV::ManifestError(s@),
        }
    }
}

} // verus!
