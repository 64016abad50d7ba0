//! Errors reported while parsing and running a script, and the manager that
//! collects them.
use vstd::prelude::*;
use std::collections::VecDeque;
use crate::text::{decimal, decimal_string};

verus! {

/// An error that can describe itself in one line.
pub trait DrythonError {
    /// The line that describes the error.
    spec fn message_spec(&self) -> Seq<char>;

    /// The line that describes the error.
    fn display(&self) -> (r: String)
        ensures
            r@ == self.message_spec();
}

/// An error found while parsing a line.
pub struct ParseError {
    pub location: usize,
    pub message: String,
}

impl ParseError {
    pub fn new(line_number: usize, message: &str) -> (r: Self)
        ensures
            r.location == line_number,
            r.message@ == message@,
    {
        ParseError { location: line_number, message: String::from_str(message) }
    }
}

impl DrythonError for ParseError {
    open spec fn message_spec(&self) -> Seq<char> {
        "Drython Parse Error: Line ["@ + decimal(self.location as nat) + "] - "@ + self.message@
    }

    fn display(&self) -> (r: String) {
        let mut r = String::from_str("Drython Parse Error: Line [");
        r.append(decimal_string(self.location).as_str());
        r.append("] - ");
        r.append(self.message.as_str());
        r
    }
}

/// A script whose first line names no known script type.
pub struct ScriptTypeError {
    pub first_line: String,
}

impl ScriptTypeError {
    pub fn new(first_line: String) -> (r: Self)
        ensures
            r.first_line@ == first_line@,
    {
        ScriptTypeError { first_line }
    }
}

impl DrythonError for ScriptTypeError {
    open spec fn message_spec(&self) -> Seq<char> {
        "Drython Unkown Script Type: "@ + self.first_line@
            + ". Please use a know script type such as \"Component\"."@
    }

    fn display(&self) -> (r: String) {
        let mut r = String::from_str("Drython Unkown Script Type: ");
        r.append(self.first_line.as_str());
        r.append(". Please use a know script type such as \"Component\".");
        r
    }
}

/// An error raised while running a script.
pub struct RuntimeError {
    pub line_number: usize,
    pub function_name: Option<String>,
    pub message: String,
}

impl RuntimeError {
    pub fn new(line_number: usize, function_name: Option<String>, message: &str) -> (r: Self)
        ensures
            r.line_number == line_number,
            r.function_name == function_name,
            r.message@ == message@,
    {
        RuntimeError { line_number, function_name, message: String::from_str(message) }
    }
}

impl DrythonError for RuntimeError {
    open spec fn message_spec(&self) -> Seq<char> {
        let prefix = match self.function_name {
            Some(name) => "Function ['"@ + name@ + "'] "@,
            None => Seq::empty(),
        };
        "Drython Runtime Error: "@ + prefix + "Line ["@ + decimal(self.line_number as nat)
            + "] - "@ + self.message@
    }

    fn display(&self) -> (r: String) {
        let mut r = String::from_str("Drython Runtime Error: ");
        match &self.function_name {
            Some(name) => {
                r.append("Function ['");
                r.append(name.as_str());
                r.append("'] ");
            },
            None => {},
        }
        r.append("Line [");
        r.append(decimal_string(self.line_number).as_str());
        r.append("] - ");
        r.append(self.message.as_str());
        r
    }
}

/// One collected error.
pub enum ErrorRecord {
    Parse(ParseError),
    ScriptType(ScriptTypeError),
    Runtime(RuntimeError),
}

impl DrythonError for ErrorRecord {
    open spec fn message_spec(&self) -> Seq<char> {
        match self {
            ErrorRecord::Parse(e) => e.message_spec(),
            ErrorRecord::ScriptType(e) => e.message_spec(),
            ErrorRecord::Runtime(e) => e.message_spec(),
        }
    }

    fn display(&self) -> (r: String) {
        match self {
            ErrorRecord::Parse(e) => e.display(),
            ErrorRecord::ScriptType(e) => e.display(),
            ErrorRecord::Runtime(e) => e.display(),
        }
    }
}

/// The model of a collected error.
pub enum ErrorV {
    Parse(usize, Seq<char>),
    ScriptType(Seq<char>),
    Runtime(usize, Option<Seq<char>>, Seq<char>),
}

pub open spec fn error_view(e: ErrorRecord) -> ErrorV {
    match e {
        ErrorRecord::Parse(p) => ErrorV::Parse(p.location, p.message@),
        ErrorRecord::ScriptType(t) => ErrorV::ScriptType(t.first_line@),
        ErrorRecord::Runtime(r) => ErrorV::Runtime(
            r.line_number,
            match r.function_name {
                Some(n) => Some(n@),
                None => None,
            },
            r.message@,
        ),
    }
}

pub open spec fn errors_view(s: Seq<ErrorRecord>) -> Seq<ErrorV> {
    s.map_values(|e: ErrorRecord| error_view(e))
}

/// The errors collected so far, oldest first.
pub struct ErrorManager {
    pub errors: VecDeque<ErrorRecord>,
}

impl ErrorManager {
    pub fn new() -> (r: Self)
        ensures
            r.errors@.len() == 0,
    {
        ErrorManager { errors: VecDeque::new() }
    }

    /// Appends `error` after the errors already collected.
    pub fn add_error(&mut self, error: ErrorRecord)
        ensures
            final(self).errors@ == old(self).errors@.push(error),
    {
        self.errors.push_back(error);
    }

    /// Moves the errors of `other` after the errors of `self`.
    pub fn merge(&mut self, other: ErrorManager)
        ensures
            final(self).errors@ == old(self).errors@ + other.errors@,
    {
        let mut other = other;
        self.errors.append(&mut other.errors);
    }

    /// Records a parse error at `line_number`.
    pub fn parse_error(&mut self, line_number: usize, message: &str)
        ensures
            errors_view(final(self).errors@) == errors_view(old(self).errors@).push(
                ErrorV::Parse(line_number, message@),
            ),
    {
        let e = ParseError::new(line_number, message);
        let ghost before = self.errors@;
        self.add_error(ErrorRecord::Parse(e));
        assert(errors_view(self.errors@) =~= errors_view(before).push(
            ErrorV::Parse(line_number, message@),
        ));
    }
}

} // verus!
