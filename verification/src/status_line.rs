//! The line at the bottom of the screen.
use crate::line_list::{cmdline_view, Cmdline};
use crate::screen::{Draw, Drawn, Style};
use vstd::prelude::*;

verus! {

/// What kind of text the line shows.
#[derive(Clone, Copy, Debug, PartialEq, Eq, Structural)]
pub enum Status {
    Info,
    Error,
}

/// A text and its kind.
#[derive(Debug)]
pub struct StatusLine {
    pub status: Status,
    pub text: String,
}

/// The model of a [`StatusLine`].
#[verifier::ext_equal]
pub struct Shown {
    pub status: Status,
    pub text: Seq<char>,
}

impl Shown {
    /// The line that tells of a command line: the command line itself, what
    /// is wrong with the regex, or that it does not match.
    pub open spec fn of(cmdline: Cmdline) -> Shown {
        match cmdline {
            Some(Ok(line)) => Shown { status: Status::Info, text: line },
            Some(Err(error)) => Shown { status: Status::Error, text: error },
            None => Shown { status: Status::Info, text: "No match"@ },
        }
    }

    /// The line on the row `y`.
    pub open spec fn drawing(self, y: int) -> Drawn {
        Drawn {
            y,
            x: 0,
            style: match self.status {
                Status::Info => Style::Regular,
                Status::Error => Style::StatusError,
            },
            text: self.text,
        }
    }
}

impl View for StatusLine {
    type V = Shown;

    open spec fn view(&self) -> Shown {
        Shown { status: self.status, text: self.text@ }
    }
}

impl StatusLine {
    /// An empty line.
    pub fn new() -> (line: StatusLine)
        ensures
            line@ == (Shown { status: Status::Info, text: Seq::empty() }),
    {
        StatusLine { status: Status::Info, text: String::new() }
    }

    /// Tells of a command line.
    pub fn update(&mut self, cmdline: &Option<Result<String, String>>)
        ensures
            final(self)@ == Shown::of(cmdline_view(*cmdline)),
    {
        match cmdline {
            Some(Ok(line)) => {
                self.text = line.clone();
                self.status = Status::Info;
            },
            Some(Err(error)) => {
                self.text = error.clone();
                self.status = Status::Error;
            },
            None => {
                self.text = "No match".to_owned();
                self.status = Status::Info;
            },
        }
    }

    /// The piece of text that shows the line on the row `y`.
    pub fn render(&self, y: usize) -> (draw: Draw)
        ensures
            draw@ == self@.drawing(y as int),
    {
        let style = match self.status {
            Status::Info => Style::Regular,
            Status::Error => Style::StatusError,
        };
        Draw { y, x: 0, style, text: self.text.clone() }
    }
}

} // verus!
