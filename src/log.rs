//! The messages of a run, collected for the caller to show.

use vstd::prelude::*;

use crate::tw_db_pp::path_view;
use crate::util::{join_path, joined};
use crate::wh2_lua_error::{Wh2LuaError, Wh2LuaErrorV};

verus! {

/// The kind of a log message; `Plain` lines carry no tag.
#[derive(Debug, Clone, Copy, PartialEq, Eq, Structural)]
pub enum LogLevel {
    Info,
    Debug,
    Rpfm,
    Warning,
    Error,
    Plain,
}

#[derive(Debug, Clone)]
pub struct LogEntry {
    pub level: LogLevel,
    pub text: String,
}

/// The messages of one run, in order, for the caller to show; and the script files that
/// were written over.
pub struct Log {
    pub entries: Vec<LogEntry>,
    pub overwritten_files: Vec<String>,
    /// Messages replace each other on one terminal line.
    pub single_line: bool,
}

pub open spec fn entries_view(es: Seq<LogEntry>) -> Seq<(LogLevel, Seq<char>)> {
    es.map_values(|e: LogEntry| (e.level, e.text@))
}

/// The text of an error, as reported to the user.
pub open spec fn error_message(e: Wh2LuaErrorV) -> Seq<char> {
    match e {
        Wh2LuaErrorV::ConfigError(m) => m,
        Wh2LuaErrorV::RpfmError(m) => m,
        Wh2LuaErrorV::LuaError(m) => m,
        Wh2LuaErrorV::OutDirNotEmpty(p) => "Output directory not empty: "@ + joined(p),
        Wh2LuaErrorV::IoError(m) => "Unexpected IO error: "@ + m,
        Wh2LuaErrorV::UnsupportedFieldKind(f) => "Unsupported nested data in field: "@ + f,
        Wh2LuaErrorV::MissingSchemaDefinition(t) => "No schema definition for table: "@ + t,
        Wh2LuaErrorV::AmbiguousCorePrefix(t) => "A (core) data__ file of table "@ + t
            + " was found, but neither the base flag, a core prefix nor a packfile was given; no output file name could be determined."@,
        Wh2LuaErrorV::ManifestError(l) => "Unrecognised manifest line: "@ + l,
    }
}

fn prefixed(prefix: &str, s: &str) -> (r: String)
    ensures
        r@ == prefix@ + s@,
{
    let mut r = String::from_str(prefix);
    r.append(s);
    r
}

impl Wh2LuaError {
    /// What the error says, without decoration.
    pub fn message(&self) -> (r: String)
        ensures
            r@ == error_message(self@),
    {
        match self {
            Wh2LuaError::ConfigError(m) => m.clone(),
            Wh2LuaError::RpfmError(m) => m.clone(),
            Wh2LuaError::LuaError(m) => m.clone(),
            Wh2LuaError::OutDirNotEmpty(p) => {
                let j = join_path(p);
                prefixed("Output directory not empty: ", j.as_str())
            },
            Wh2LuaError::IoError(m) => prefixed("Unexpected IO error: ", m.as_str()),
            Wh2LuaError::UnsupportedFieldKind(f) => prefixed(
                "Unsupported nested data in field: ",
                f.as_str(),
            ),
            Wh2LuaError::MissingSchemaDefinition(t) => prefixed(
                "No schema definition for table: ",
                t.as_str(),
            ),
            Wh2LuaError::AmbiguousCorePrefix(t) => {
                let mut r = prefixed("A (core) data__ file of table ", t.as_str());
                r.append(
                    " was found, but neither the base flag, a core prefix nor a packfile was given; no output file name could be determined.",
                );
                r
            },
            Wh2LuaError::ManifestError(l) => prefixed("Unrecognised manifest line: ", l.as_str()),
        }
    }
}

impl Log {
    pub fn new() -> (r: Self)
        ensures
            r.entries@.len() == 0,
            r.overwritten_files@.len() == 0,
            !r.single_line,
    {
        Log { entries: Vec::new(), overwritten_files: Vec::new(), single_line: false }
    }

    fn push(&mut self, level: LogLevel, text: &str)
        ensures
            entries_view(final(self).entries@) == entries_view(old(self).entries@).push(
                (level, text@),
            ),
            final(self).overwritten_files == old(self).overwritten_files,
            final(self).single_line == old(self).single_line,
    {
        let ghost old_es = self.entries@;
        let e = LogEntry { level, text: String::from_str(text) };
        self.entries.push(e);
        proof {
            assert(entries_view(self.entries@) =~= entries_view(old_es).push((level, text@)));
        }
    }

    pub fn info(&mut self, info_text: &str)
        ensures
            entries_view(final(self).entries@) == entries_view(old(self).entries@).push(
                (LogLevel::Info, info_text@),
            ),
            final(self).overwritten_files == old(self).overwritten_files,
            final(self).single_line == old(self).single_line,
    {
        self.push(LogLevel::Info, info_text);
    }

    /// Debug messages are kept; whether they are shown is the caller's choice.
    pub fn debug(&mut self, text: &str)
        ensures
            entries_view(final(self).entries@) == entries_view(old(self).entries@).push(
                (LogLevel::Debug, text@),
            ),
            final(self).overwritten_files == old(self).overwritten_files,
            final(self).single_line == old(self).single_line,
    {
        self.push(LogLevel::Debug, text);
    }

    pub fn rpfm(&mut self, message: &str)
        ensures
            entries_view(final(self).entries@) == entries_view(old(self).entries@).push(
                (LogLevel::Rpfm, message@),
            ),
            final(self).overwritten_files == old(self).overwritten_files,
            final(self).single_line == old(self).single_line,
    {
        self.push(LogLevel::Rpfm, message);
    }

    pub fn error(&mut self, error: &Wh2LuaError)
        ensures
            entries_view(final(self).entries@) == entries_view(old(self).entries@).push(
                (LogLevel::Error, error_message(error@)),
            ),
            final(self).overwritten_files == old(self).overwritten_files,
            final(self).single_line == old(self).single_line,
    {
        let m = error.message();
        self.push(LogLevel::Error, m.as_str());
    }

    pub fn warning(&mut self, warning_text: &str)
        ensures
            entries_view(final(self).entries@) == entries_view(old(self).entries@).push(
                (LogLevel::Warning, warning_text@),
            ),
            final(self).overwritten_files == old(self).overwritten_files,
            final(self).single_line == old(self).single_line,
    {
        self.push(LogLevel::Warning, warning_text);
    }

    /// Whether later messages replace each other on one line.
    pub fn set_single_line_log(&mut self, single_line: bool)
        ensures
            final(self).single_line == single_line,
            final(self).entries == old(self).entries,
            final(self).overwritten_files == old(self).overwritten_files,
    {
        self.single_line = single_line;
    }

    /// Notes that a script file was written over.
    pub fn add_overwritten_file(&mut self, file_path_str: String)
        ensures
            final(self).overwritten_files@ == old(self).overwritten_files@.push(file_path_str),
            final(self).entries == old(self).entries,
            final(self).single_line == old(self).single_line,
    {
        self.overwritten_files.push(file_path_str);
    }

    /// Logs the files written over, after a warning line, when there are any.
    pub fn print_overwritten_files(&mut self)
        ensures
            old(self).overwritten_files@.len() == 0 ==> final(self).entries == old(self).entries,
            old(self).overwritten_files@.len() > 0 ==> entries_view(final(self).entries@)
                == entries_view(old(self).entries@).push(
                (LogLevel::Warning, "files overwritten: "@),
            ) + path_view(old(self).overwritten_files@).map_values(
                |s: Seq<char>| (LogLevel::Plain, s),
            ),
            final(self).overwritten_files == old(self).overwritten_files,
    {
        if self.overwritten_files.len() == 0 {
            return;
        }
        self.warning("files overwritten: ");
        let ghost base = entries_view(self.entries@);
        let mut i: usize = 0;
        while i < self.overwritten_files.len()
            invariant
                self.overwritten_files == old(self).overwritten_files,
                i <= self.overwritten_files.len(),
                base == entries_view(old(self).entries@).push(
                    (LogLevel::Warning, "files overwritten: "@),
                ),
                entries_view(self.entries@) == base + path_view(self.overwritten_files@).take(
                    i as int,
                ).map_values(|s: Seq<char>| (LogLevel::Plain, s)),
            decreases self.overwritten_files.len() - i,
        {
            let f = self.overwritten_files[i].clone();
            self.push(LogLevel::Plain, f.as_str());
            proof {
                let v = path_view(self.overwritten_files@);
                assert(v.take(i + 1) =~= v.take(i as int).push(f@));
                assert(v.take(i + 1).map_values(|s: Seq<char>| (LogLevel::Plain, s)) =~= v.take(
                    i as int,
                ).map_values(|s: Seq<char>| (LogLevel::Plain, s)).push((LogLevel::Plain, f@)));
            }
            i = i + 1;
        }
        proof {
            let v = path_view(self.overwritten_files@);
            assert(v.take(i as int) =~= v);
        }
    }
}

} // verus!
