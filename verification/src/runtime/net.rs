//! What is remembered of requests to the world outside the game.

use vstd::prelude::*;
use crate::text_parts::join;

verus! {

/// The last request and how it ended.
#[derive(Debug)]
pub struct TnmNet {
    pub last_target: Option<String>,
    pub last_status: Option<u16>,
    pub last_error: Option<String>,
}

/// How the program that opens targets ended.
#[derive(Debug)]
pub enum OpenExit {
    Success,
    /// It could not be started.
    NotStarted,
    /// It ended with the status that the text shows.
    Failed(String),
    /// There is no such program on this platform.
    Unsupported,
}

/// Why a target could not be opened.
#[derive(Debug)]
pub enum NetError {
    NotStarted,
    /// The path of a file is no text.
    NonUtf8Path,
    Message(String),
}

pub open spec fn text_is(s: Option<String>, t: Seq<char>) -> bool {
    s matches Some(u) && u@ == t
}

/// The message for a program that ended with a status.
pub open spec fn exit_message(status: Seq<char>) -> Seq<char> {
    "external opener exited with status "@ + status
}

/// The message where there is no program.
pub open spec fn unsupported_message() -> Seq<char> {
    "external opener is not implemented on this platform"@
}

/// The message that is kept of an exit.
pub open spec fn kept_message(exit: OpenExit) -> Option<Seq<char>> {
    match exit {
        OpenExit::Failed(status) => Some(exit_message(status@)),
        OpenExit::Unsupported => Some(unsupported_message()),
        _ => None,
    }
}

impl TnmNet {
    pub fn new() -> (n: TnmNet)
        ensures
            n.last_target is None,
            n.last_status is None,
            n.last_error is None,
    {
        TnmNet { last_target: None, last_status: None, last_error: None }
    }

    /// Begins a request.
    pub fn clear_status(&mut self, target: &str)
        ensures
            text_is(final(self).last_target, target@),
            final(self).last_status is None,
            final(self).last_error is None,
    {
        self.last_target = Some(target.to_owned());
        self.last_status = None;
        self.last_error = None;
    }

    /// Ends a request with an error.
    pub fn set_error(&mut self, target: &str, err: &str)
        ensures
            text_is(final(self).last_target, target@),
            final(self).last_status is None,
            text_is(final(self).last_error, err@),
    {
        self.last_target = Some(target.to_owned());
        self.last_status = None;
        self.last_error = Some(err.to_owned());
    }

    /// Notes the status of an answer.
    pub fn note_status(&mut self, status: u16)
        ensures
            final(self).last_status == Some(status),
            final(self).last_target == old(self).last_target,
            final(self).last_error == old(self).last_error,
    {
        self.last_status = Some(status);
    }

    /// Ends the opening of a target, whose program ended with `exit`.
    pub fn open_target(&mut self, target: &str, exit: OpenExit) -> (r: Result<(), NetError>)
        ensures
            text_is(final(self).last_target, target@),
            final(self).last_status is None,
            match kept_message(exit) {
                Some(message) => text_is(final(self).last_error, message),
                None => final(self).last_error is None,
            },
            match r {
                Ok(_) => exit is Success,
                Err(NetError::NotStarted) => exit is NotStarted,
                Err(NetError::Message(m)) => kept_message(exit) == Some(m@),
                Err(NetError::NonUtf8Path) => false,
            },
    {
        self.clear_status(target);
        match exit {
            OpenExit::Success => Ok(()),
            OpenExit::NotStarted => Err(NetError::NotStarted),
            OpenExit::Failed(status) => {
                let message = join("external opener exited with status ", status.as_str());
                self.set_error(target, message.as_str());
                Err(NetError::Message(message))
            },
            OpenExit::Unsupported => {
                let message = "external opener is not implemented on this platform";
                self.set_error(target, message);
                Err(NetError::Message(message.to_owned()))
            },
        }
    }

    /// Ends the opening of a file, whose path may be no text. In that case
    /// nothing is opened or noted.
    pub fn open_file(&mut self, path: Option<&str>, exit: OpenExit) -> (r: Result<(), NetError>)
        ensures
            match path {
                None => r == Err::<(), NetError>(NetError::NonUtf8Path) && *final(self) == *old(self),
                Some(target) => {
                    &&& text_is(final(self).last_target, target@)
                    &&& final(self).last_status is None
                    &&& match kept_message(exit) {
                        Some(message) => text_is(final(self).last_error, message),
                        None => final(self).last_error is None,
                    }
                    &&& match r {
                        Ok(_) => exit is Success,
                        Err(NetError::NotStarted) => exit is NotStarted,
                        Err(NetError::Message(m)) => kept_message(exit) == Some(m@),
                        Err(NetError::NonUtf8Path) => false,
                    }
                },
            },
    {
        match path {
            Some(target) => self.open_target(target, exit),
            None => Err(NetError::NonUtf8Path),
        }
    }

    /// Ends the opening of a page.
    pub fn open_url(&mut self, url: &str, exit: OpenExit) -> (r: Result<(), NetError>)
        ensures
            text_is(final(self).last_target, url@),
            final(self).last_status is None,
            match kept_message(exit) {
                Some(message) => text_is(final(self).last_error, message),
                None => final(self).last_error is None,
            },
            match r {
                Ok(_) => exit is Success,
                Err(NetError::NotStarted) => exit is NotStarted,
                Err(NetError::Message(m)) => kept_message(exit) == Some(m@),
                Err(NetError::NonUtf8Path) => false,
            },
    {
        self.open_target(url, exit)
    }
}

} // verus!
