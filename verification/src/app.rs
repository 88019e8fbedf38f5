//! What can go wrong in a run of the program, whatever part it comes from.

use crate::cli::cmd;
use crate::config;
use crate::screen;
use vstd::prelude::*;

verus! {

/// What can go wrong in a run of the program.
#[derive(Debug, PartialEq, Eq)]
pub enum Error {
    /// What the display tool listed could not be read.
    ScreenError(screen::Error),
    /// The catalog of layouts could not be read or written.
    ConfigError(config::Error),
    /// A command failed.
    CmdError(cmd::Error),
    /// Something that should not happen.
    InternalError,
}

impl Clone for Error {
    fn clone(&self) -> (out: Self)
        ensures
            out@ == self@,
    {
        match self {
            Error::ScreenError(error) => Error::ScreenError(error.clone()),
            Error::ConfigError(error) => Error::ConfigError(error.clone()),
            Error::CmdError(error) => Error::CmdError(error.clone()),
            Error::InternalError => Error::InternalError,
        }
    }
}

/// An `Error` with its texts as sequences of characters.
pub enum ErrorView {
    ScreenError(screen::ErrorView),
    ConfigError(config::ErrorView),
    CmdError(cmd::ErrorView),
    InternalError,
}

impl View for Error {
    type V = ErrorView;

    open spec fn view(&self) -> ErrorView {
        match self {
            Error::ScreenError(error) => ErrorView::ScreenError(error@),
            Error::ConfigError(error) => ErrorView::ConfigError(error@),
            Error::CmdError(error) => ErrorView::CmdError(error@),
            Error::InternalError => ErrorView::InternalError,
        }
    }
}

impl Error {
    /// The message for the user.
    pub open spec fn message(self) -> Seq<char> {
        match self {
            Error::ScreenError(error) => "Failed to read screen properties: "@ + error.message(),
            Error::ConfigError(error) => error.message(),
            Error::CmdError(error) => error@.message(),
            Error::InternalError => "Unexpected error occured!"@,
        }
    }

    /// The message for the user.
    pub fn to_string(&self) -> (out: String)
        ensures
            out@ == self.message(),
    {
        match self {
            Error::ScreenError(error) => {
                let mut out = "Failed to read screen properties: ".to_owned();
                let reason = error.to_string();
                out.append(reason.as_str());
                out
            },
            Error::ConfigError(error) => error.to_string(),
            Error::CmdError(error) => error.to_string(),
            Error::InternalError => "Unexpected error occured!".to_owned(),
        }
    }
}

impl From<cmd::Error> for Error {
    fn from(error: cmd::Error) -> (out: Self) {
        Error::CmdError(error)
    }
}

impl vstd::std_specs::convert::FromSpecImpl<cmd::Error> for Error {
    open spec fn obeys_from_spec() -> bool {
        true
    }

    open spec fn from_spec(error: cmd::Error) -> Self {
        Error::CmdError(error)
    }
}

impl From<config::Error> for Error {
    fn from(error: config::Error) -> (out: Self) {
        Error::ConfigError(error)
    }
}

impl vstd::std_specs::convert::FromSpecImpl<config::Error> for Error {
    open spec fn obeys_from_spec() -> bool {
        true
    }

    open spec fn from_spec(error: config::Error) -> Self {
        Error::ConfigError(error)
    }
}

impl From<screen::Error> for Error {
    fn from(error: screen::Error) -> (out: Self) {
        Error::ScreenError(error)
    }
}

impl vstd::std_specs::convert::FromSpecImpl<screen::Error> for Error {
    open spec fn obeys_from_spec() -> bool {
        true
    }

    open spec fn from_spec(error: screen::Error) -> Self {
        Error::ScreenError(error)
    }
}

} // verus!
