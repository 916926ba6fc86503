//! The ways in which resolving or launching a handler can fail.

use vstd::prelude::*;

verus! {

/// Why an operation failed.
#[derive(Debug, Clone, PartialEq, Eq)]
pub enum Error {
    /// No handler is known for the MIME type.
    NotFound(String),
    /// The file extension maps to no MIME type more specific than the generic fallback.
    AmbiguousExtension(String),
    /// The text is not a MIME type with a type and a subtype.
    InvalidMime(String),
    /// The desktop entry at this path lacks a required part.
    BadEntry(String),
    /// The pattern of a regex handler is not a valid regular expression.
    BadRegex(String),
    /// The selector command could not be started.
    Selector(String),
    /// The user made no valid selection.
    Cancelled,
    /// A terminal is needed and no terminal handler is set.
    NoTerminal,
    /// The text is not a usable path.
    BadPath(String),
    /// The command template of the named desktop entry cannot be split into words.
    BadExec(String, String),
    /// The command cannot be split into words.
    BadCmd(String),
}

/// An [`Error`] with its texts as sequences of characters.
pub ghost enum ErrorView {
    NotFound(Seq<char>),
    AmbiguousExtension(Seq<char>),
    InvalidMime(Seq<char>),
    BadEntry(Seq<char>),
    BadRegex(Seq<char>),
    Selector(Seq<char>),
    Cancelled,
    NoTerminal,
    BadPath(Seq<char>),
    BadExec(Seq<char>, Seq<char>),
    BadCmd(Seq<char>),
}

impl View for Error {
    type V = ErrorView;

    open spec fn view(&self) -> ErrorView {
        match self {
            Error::NotFound(m) => ErrorView::NotFound(m@),
            Error::AmbiguousExtension(e) => ErrorView::AmbiguousExtension(e@),
            Error::InvalidMime(m) => ErrorView::InvalidMime(m@),
            Error::BadEntry(p) => ErrorView::BadEntry(p@),
            Error::BadRegex(p) => ErrorView::BadRegex(p@),
            Error::Selector(c) => ErrorView::Selector(c@),
            Error::Cancelled => ErrorView::Cancelled,
            Error::NoTerminal => ErrorView::NoTerminal,
            Error::BadPath(p) => ErrorView::BadPath(p@),
            Error::BadExec(t, h) => ErrorView::BadExec(t@, h@),
            Error::BadCmd(c) => ErrorView::BadCmd(c@),
        }
    }
}

impl ErrorView {
    /// The sentence that describes the error to the user.
    pub open spec fn message(self) -> Seq<char> {
        match self {
            ErrorView::NotFound(m) => "No handlers found for '"@ + m + "'"@,
            ErrorView::AmbiguousExtension(e) =>
                "Could not find a mimetype associated with the file extension: '"@ + e + "'"@,
            ErrorView::InvalidMime(m) => "Bad mime: "@ + m,
            ErrorView::BadEntry(p) => "Malformed desktop entry at "@ + p,
            ErrorView::BadRegex(p) => "Bad regular expression: "@ + p,
            ErrorView::Selector(c) => "Error spawning selector process '"@ + c + "'"@,
            ErrorView::Cancelled => "Selection cancelled"@,
            ErrorView::NoTerminal =>
                "Please specify the default terminal with handlr set x-scheme-handler/terminal"@,
            ErrorView::BadPath(p) => "Bad path: "@ + p,
            ErrorView::BadExec(t, h) => "Could not split exec command '"@ + t
                + "' in desktop file '"@ + h + "' into shell words"@,
            ErrorView::BadCmd(c) => "Could not split command '"@ + c + "' into shell words"@,
        }
    }
}

/// `head`, then `body`, then `tail`.
fn framed(head: &str, body: &String, tail: &str) -> (r: String)
    ensures
        r@ == head@ + body@ + tail@,
{
    let mut r = head.to_owned();
    r.append(body.as_str());
    r.append(tail);
    r
}

impl Error {
    /// The sentence that describes the error to the user.
    pub fn message(&self) -> (r: String)
        ensures
            r@ == self@.message(),
    {
        match self {
            Error::NotFound(m) => framed("No handlers found for '", m, "'"),
            Error::AmbiguousExtension(e) => framed(
                "Could not find a mimetype associated with the file extension: '",
                e,
                "'",
            ),
            Error::InvalidMime(m) => {
                let r = framed("Bad mime: ", m, "");
                proof {
                    reveal_strlit("");
                    assert(r@ =~= "Bad mime: "@ + m@);
                }
                r
            },
            Error::BadEntry(p) => {
                let r = framed("Malformed desktop entry at ", p, "");
                proof {
                    reveal_strlit("");
                    assert(r@ =~= "Malformed desktop entry at "@ + p@);
                }
                r
            },
            Error::BadRegex(p) => {
                let r = framed("Bad regular expression: ", p, "");
                proof {
                    reveal_strlit("");
                    assert(r@ =~= "Bad regular expression: "@ + p@);
                }
                r
            },
            Error::Selector(c) => framed("Error spawning selector process '", c, "'"),
            Error::Cancelled => "Selection cancelled".to_owned(),
            Error::NoTerminal =>
                "Please specify the default terminal with handlr set x-scheme-handler/terminal".to_owned(),
            Error::BadPath(p) => {
                let r = framed("Bad path: ", p, "");
                proof {
                    reveal_strlit("");
                    assert(r@ =~= "Bad path: "@ + p@);
                }
                r
            },
            Error::BadExec(t, h) => {
                let mut r = framed("Could not split exec command '", t, "' in desktop file '");
                r.append(h.as_str());
                r.append("' into shell words");
                r
            },
            Error::BadCmd(c) => framed("Could not split command '", c, "' into shell words"),
        }
    }
}

} // verus!
