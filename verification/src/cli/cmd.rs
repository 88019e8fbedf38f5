//! Command lines for the shell, and what its answer is worth.

use crate::text::{copy_texts, join, joined, texts, trim, trimmed};
use vstd::prelude::*;

verus! {

/// What can go wrong with a command.
#[derive(Debug, PartialEq, Eq)]
pub enum Error {
    /// What the command wrote is no text; the reason is carried along.
    Utf8(String),
    /// The command could not be run; the reason is carried along.
    Io(String),
    /// The answer is none of the choices.
    InvalidOutput,
    /// The command wrote nothing.
    EmptyOutput,
}

impl Clone for Error {
    fn clone(&self) -> (out: Self)
        ensures
            out == *self,
    {
        match self {
            Error::Utf8(reason) => Error::Utf8(reason.clone()),
            Error::Io(reason) => Error::Io(reason.clone()),
            Error::InvalidOutput => Error::InvalidOutput,
            Error::EmptyOutput => Error::EmptyOutput,
        }
    }
}

/// An `Error` with its text as a sequence of characters.
pub enum ErrorView {
    Utf8(Seq<char>),
    Io(Seq<char>),
    InvalidOutput,
    EmptyOutput,
}

impl ErrorView {
    /// The message for the user.
    pub open spec fn message(self) -> Seq<char> {
        match self {
            ErrorView::Utf8(reason) => "Unable to decode Utf-8 command output: "@ + reason,
            ErrorView::Io(reason) => "Failed to run the command: "@ + reason,
            ErrorView::InvalidOutput => "Output didn't match given options."@,
            ErrorView::EmptyOutput => "Expected output, found empty value."@,
        }
    }
}

impl View for Error {
    type V = ErrorView;

    open spec fn view(&self) -> ErrorView {
        match self {
            Error::Utf8(reason) => ErrorView::Utf8(reason@),
            Error::Io(reason) => ErrorView::Io(reason@),
            Error::InvalidOutput => ErrorView::InvalidOutput,
            Error::EmptyOutput => ErrorView::EmptyOutput,
        }
    }
}

impl Error {
    /// The message for the user.
    pub fn to_string(&self) -> (out: String)
        ensures
            out@ == self@.message(),
    {
        match self {
            Error::Utf8(reason) => {
                let mut out = "Unable to decode Utf-8 command output: ".to_owned();
                out.append(reason.as_str());
                out
            },
            Error::Io(reason) => {
                let mut out = "Failed to run the command: ".to_owned();
                out.append(reason.as_str());
                out
            },
            Error::InvalidOutput => "Output didn't match given options.".to_owned(),
            Error::EmptyOutput => "Expected output, found empty value.".to_owned(),
        }
    }
}

/// What a command gives.
pub type CmdResult<T> = Result<T, Error>;

/// A program, as it is written on a command line, and its arguments.
#[derive(Debug, PartialEq, Eq)]
pub struct Cmd {
    pub bin_path: String,
    pub args: Vec<String>,
}

impl Clone for Cmd {
    fn clone(&self) -> (out: Self)
        ensures
            out.bin_path@ == self.bin_path@,
            texts(out.args@) == texts(self.args@),
    {
        Cmd { bin_path: self.bin_path.clone(), args: copy_texts(&self.args) }
    }
}

impl Cmd {
    /// The command line: the program, a blank, and the arguments with a
    /// blank between each two.
    pub open spec fn line(&self) -> Seq<char> {
        self.bin_path@ + " "@ + joined(texts(self.args@), " "@)
    }

    /// The program `bin_path` with the arguments `args`.
    pub fn new(bin_path: String, args: &[String]) -> (out: Cmd)
        ensures
            out.bin_path@ == bin_path@,
            texts(out.args@) == texts(args@),
    {
        let mut copied: Vec<String> = Vec::new();
        let mut i: usize = 0;
        while i < args.len()
            invariant
                i <= args.len(),
                copied.len() == i,
                forall|j: int| 0 <= j < i ==> copied[j]@ == args[j]@,
            decreases args.len() - i,
        {
            copied.push(args[i].clone());
            i += 1;
        }
        assert(texts(copied@) =~= texts(args@));
        Cmd { bin_path, args: copied }
    }

    /// The command line.
    pub fn to_string(&self) -> (out: String)
        ensures
            out@ == self.line(),
    {
        let mut out = self.bin_path.clone();
        out.append(" ");
        let args = join(&self.args, " ");
        out.append(args.as_str());
        out
    }
}

/// What a command that wrote `output` gives: the text without the white space
/// around it, and `EmptyOutput` where it wrote nothing at all.
pub fn fetched(output: &str) -> (out: CmdResult<String>)
    ensures
        match out {
            Ok(text) => output@.len() > 0 && text@ == trimmed(output@),
            Err(error) => output@.len() == 0 && error@ == ErrorView::EmptyOutput,
        },
{
    if !output.is_empty() {
        Ok(trim(output))
    } else {
        Err(Error::EmptyOutput)
    }
}

} // verus!
