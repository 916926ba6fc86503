//! Where the files of a distribution go, and how the manual pages are named.

use crate::error::{Error, ErrorView};
use crate::text::{chars_of, is};
use vstd::prelude::*;

verus! {

/// `text` with the first match of the regular expression `pattern` replaced by `with`,
/// in which `$name` stands for what the group `name` matched, as the `regex` crate does
/// it on bytes; None where it rejects the pattern.
pub uninterp spec fn replaced(pattern: Seq<char>, text: Seq<u8>, with: Seq<char>) -> Option<
    Seq<u8>,
>;

/// Compiles `pattern` with `regex::bytes::Regex::new` and has `Regex::replace` replace
/// its first match in `text`. Trusted: the outcome is `replaced` of the three.
#[verifier::external_body]
fn replace_first(pattern: &str, text: &Vec<u8>, with: &str) -> (r: Option<Vec<u8>>)
    ensures
        match r {
            Some(out) => replaced(pattern@, text@, with@) == Some(out@),
            None => replaced(pattern@, text@, with@) is None,
        },
{
    match regex::bytes::Regex::new(pattern) {
        Ok(compiled) => Some(compiled.replace(text, with.as_bytes()).into_owned()),
        Err(_) => None,
    }
}

/// What matches the program's name, with that of a command after it, before the dash of
/// a manual page's title line.
pub open spec fn title_pattern() -> Seq<char> {
    r"handlr(?P<name>\\-[[:alpha:]]+)? \\-"@
}

/// What the title is replaced with: the program's full name.
pub open spec fn title_with() -> Seq<char> {
    r"handlr-regex$name -"@
}

/// What matches the name of a command's manual page in its synopsis.
pub open spec fn synopsis_pattern() -> Seq<char> {
    r"handlr\\-(?P<name>[[:alpha:]]+)\\"@
}

/// What the synopsis name is replaced with: the program and the command as they are
/// typed.
pub open spec fn synopsis_with() -> Seq<char> {
    r"handlr $name\"@
}

/// A manual page as it is distributed: the title names the program in full, and the
/// synopsis shows the command as it is typed.
pub open spec fn fitted(page: Seq<u8>) -> Result<Seq<u8>, ErrorView> {
    match replaced(title_pattern(), page, title_with()) {
        None => Err(ErrorView::BadRegex(title_pattern())),
        Some(titled) => match replaced(synopsis_pattern(), titled, synopsis_with()) {
            None => Err(ErrorView::BadRegex(synopsis_pattern())),
            Some(done) => Ok(done),
        },
    }
}

/// A manual page as it is distributed, from the page as it was rendered.
pub fn fit_manpage(page: &Vec<u8>) -> (r: Result<Vec<u8>, Error>)
    ensures
        match fitted(page@) {
            Ok(done) => r matches Ok(out) && out@ == done,
            Err(e) => r matches Err(err) && err@ == e,
        },
{
    let titled = match replace_first(
        r"handlr(?P<name>\\-[[:alpha:]]+)? \\-",
        page,
        r"handlr-regex$name -",
    ) {
        Some(titled) => titled,
        None => {
            return Err(Error::BadRegex(r"handlr(?P<name>\\-[[:alpha:]]+)? \\-".to_owned()));
        },
    };
    match replace_first(r"handlr\\-(?P<name>[[:alpha:]]+)\\", &titled, r"handlr $name\") {
        Some(done) => Ok(done),
        None => Err(Error::BadRegex(r"handlr\\-(?P<name>[[:alpha:]]+)\\".to_owned())),
    }
}

/// The path of `rest` below the directory `base`. A slash is put between the two unless
/// `base` is empty or ends with one.
pub open spec fn joined_path(base: Seq<char>, rest: Seq<char>) -> Seq<char> {
    if base.len() == 0 {
        rest
    } else if base.last() == '/' {
        base + rest
    } else {
        base + seq!['/'] + rest
    }
}

/// The path of `rest` below the directory `base`.
pub fn join_path(base: &str, rest: &str) -> (r: String)
    ensures
        r@ == joined_path(base@, rest@),
{
    let chars = chars_of(base);
    let mut r = base.to_owned();
    if chars.len() == 0 {
        proof {
            assert(base@ + rest@ =~= rest@);
        }
    } else if chars[chars.len() - 1] != '/' {
        r.push('/');
        proof {
            assert(base@.push('/') =~= base@ + seq!['/']);
        }
    }
    r.append(rest);
    r
}

/// The directory that a distribution is put together in, for the project at `root`.
pub fn dist_dir(root: &str) -> (r: String)
    ensures
        r@ == joined_path(root@, "target/dist"@),
{
    join_path(root, "target/dist")
}

/// The name of the whole program as the command line knows it.
pub open spec fn program() -> Seq<char> {
    "handlr-regex"@
}

/// The name under which the manual page of the command `name` shows the command: that of
/// the program for the program itself, else the program's name, a hyphen and the
/// command's.
pub open spec fn manual_name(name: Seq<char>) -> Seq<char> {
    if name == program() {
        "handlr"@
    } else {
        "handlr-"@ + name
    }
}

/// The file name of the manual page of the command `name`.
pub open spec fn manual_file(name: Seq<char>) -> Seq<char> {
    manual_name(name) + ".1"@
}

/// The name under which the manual page of the command `name` shows the command.
pub fn manpage_name(name: &str) -> (r: String)
    ensures
        r@ == manual_name(name@),
{
    if is(&name.to_owned(), "handlr-regex") {
        "handlr".to_owned()
    } else {
        let mut r = "handlr-".to_owned();
        r.append(name);
        r
    }
}

/// The file name of the manual page of the command `name`.
pub fn manpage_file(name: &str) -> (r: String)
    ensures
        r@ == manual_file(name@),
{
    let mut r = manpage_name(name);
    r.append(".1");
    r
}

} // verus!
