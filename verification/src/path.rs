//! What the user names to be opened: a URL or a file.

use crate::error::{Error, ErrorView};
use crate::mime_types::{canonical, outcome, scheme_mime, MimeKey, MimeType};
use crate::text::is;
use vstd::prelude::*;

verus! {

/// A path or URL as mathematics.
pub ghost enum UserPathView {
    Url { text: Seq<char>, scheme: Seq<char> },
    File(Seq<char>),
}

/// A URL or a file, as the user named it.
#[derive(Debug, Clone, PartialEq, Eq)]
pub enum UserPath {
    /// A URL in normal form, with its scheme.
    Url { text: String, scheme: String },
    /// The path of a file.
    File(String),
}

impl View for UserPath {
    type V = UserPathView;

    open spec fn view(&self) -> UserPathView {
        match self {
            UserPath::Url { text, scheme } => UserPathView::Url { text: text@, scheme: scheme@ },
            UserPath::File(path) => UserPathView::File(path@),
        }
    }
}

/// The URL that the `url` crate parses the text to, in its normal form, and the URL's
/// scheme; None where it rejects the text.
pub uninterp spec fn parsed_url(s: Seq<char>) -> Option<(Seq<char>, Seq<char>)>;

/// Parses `s` with `Url::parse` of the `url` crate and takes the result's `as_str` and
/// `scheme`. Trusted: the outcome is `parsed_url` of the text.
#[verifier::external_body]
fn parse_url(s: &str) -> (r: Option<(String, String)>)
    ensures
        match r {
            Some(parts) => parsed_url(s@) == Some((parts.0@, parts.1@)),
            None => parsed_url(s@) is None,
        },
{
    match url::Url::parse(s) {
        Ok(parsed) => Some((parsed.as_str().to_owned(), parsed.scheme().to_owned())),
        Err(_) => None,
    }
}

/// Parses `s` with `Url::parse` of the `url` crate and asks `Url::to_file_path` for the
/// path of the file that the URL names. Nothing is claimed of the outcome, which goes by
/// the platform's rules for paths.
#[verifier::external_body]
fn url_file_path(s: &str) -> (r: Option<String>) {
    match url::Url::parse(s) {
        Ok(parsed) => match parsed.to_file_path() {
            Ok(path) => path.into_os_string().into_string().ok(),
            Err(_) => None,
        },
        Err(_) => None,
    }
}

/// What the text `s` names, where `url` is what it parses to as a URL and `file_path` is
/// the path of the file that this URL names. Text that is no URL is the path of a file.
/// A URL of the scheme `file` stands for its file, and is a bad path where it names none.
pub open spec fn user_path(
    s: Seq<char>,
    url: Option<(Seq<char>, Seq<char>)>,
    file_path: Option<Seq<char>>,
) -> Result<UserPathView, ErrorView> {
    match url {
        None => Ok(UserPathView::File(s)),
        Some((text, scheme)) => if scheme == "file"@ {
            match file_path {
                Some(path) => Ok(UserPathView::File(path)),
                None => Err(ErrorView::BadPath(s)),
            }
        } else {
            Ok(UserPathView::Url { text, scheme })
        },
    }
}

/// A result with its parts as mathematics.
pub open spec fn named_path(r: Result<UserPath, Error>) -> Result<UserPathView, ErrorView> {
    match r {
        Ok(p) => Ok(p@),
        Err(e) => Err(e@),
    }
}

/// The MIME type of what the user named: for a URL that of its scheme, for a file the
/// one that was guessed for it.
pub open spec fn path_mime(path: UserPathView, guessed: Seq<char>) -> Result<MimeKey, ErrorView> {
    match path {
        UserPathView::Url { text, scheme } => scheme_mime(scheme),
        UserPathView::File(_) => match canonical(guessed) {
            Some(k) => Ok(k),
            None => Err(ErrorView::InvalidMime(guessed)),
        },
    }
}

impl UserPath {
    /// What the text `s` names, where `url` holds the normal form and the scheme of the
    /// URL it parses to, and `file_path` the path of the file that this URL names.
    pub fn from_parts(s: &str, url: Option<(String, String)>, file_path: Option<String>) -> (r:
        Result<UserPath, Error>)
        ensures
            named_path(r) == user_path(
                s@,
                match url {
                    Some(parts) => Some((parts.0@, parts.1@)),
                    None => None,
                },
                match file_path {
                    Some(path) => Some(path@),
                    None => None,
                },
            ),
    {
        match url {
            None => Ok(UserPath::File(s.to_owned())),
            Some(parts) => {
                let (text, scheme) = parts;
                if is(&scheme, "file") {
                    match file_path {
                        Some(path) => Ok(UserPath::File(path)),
                        None => Err(Error::BadPath(s.to_owned())),
                    }
                } else {
                    Ok(UserPath::Url { text, scheme })
                }
            },
        }
    }

    /// What the text `s` names. Text that is a URL stands for that URL, unless its scheme
    /// is `file`: then it stands for the file that it names. Any other text is the path
    /// of a file.
    ///
    /// Fails with `BadPath` where a URL of the scheme `file` names no file.
    pub fn from_str(s: &str) -> (r: Result<UserPath, Error>)
        ensures
            named_path(r) == user_path(s@, parsed_url(s@), None) || exists|path: Seq<char>|
                named_path(r) == user_path(s@, parsed_url(s@), Some(path)),
            parsed_url(s@) is None ==> named_path(r) == Ok::<UserPathView, ErrorView>(
                UserPathView::File(s@),
            ),
    {
        let url = parse_url(s);
        let file_path = match &url {
            Some(parts) => {
                if is(&parts.1, "file") {
                    url_file_path(s)
                } else {
                    None
                }
            },
            None => None,
        };
        let ghost given: Option<Seq<char>> = if file_path is Some {
            Some(file_path->Some_0@)
        } else {
            None
        };
        let r = UserPath::from_parts(s, url, file_path);
        proof {
            if given is Some {
                assert(named_path(r) == user_path(s@, parsed_url(s@), Some(given->Some_0)));
            }
        }
        r
    }

    /// The text by which a handler is told of the path or URL.
    pub fn to_string(&self) -> (r: String)
        ensures
            r@ == match self@ {
                UserPathView::Url { text, scheme } => text,
                UserPathView::File(path) => path,
            },
    {
        match self {
            UserPath::Url { text, scheme } => text.clone(),
            UserPath::File(path) => path.clone(),
        }
    }

    /// The MIME type of what the user named: for a URL, `x-scheme-handler/` and its
    /// scheme; for a file, the MIME type that was guessed for it, which `guessed` holds
    /// and which is read for a file only.
    pub fn get_mime(&self, guessed: &str) -> (r: Result<MimeType, Error>)
        ensures
            outcome(r) == path_mime(self@, guessed@),
    {
        match self {
            UserPath::Url { text, scheme } => MimeType::from_scheme(scheme.as_str()),
            UserPath::File(_) => MimeType::from_essence(guessed),
        }
    }
}

} // verus!
