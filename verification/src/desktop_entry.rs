//! Desktop entries: the records that describe the programs which can be launched, and
//! how they are read from the text of a desktop file.

use crate::error::{Error, ErrorView};
use crate::ini::{first_value, pairs_of, section_pairs, value_of};
use crate::mime_types::{keys_of, mimes_of, mimes_upto, MimeKey, MimeType};
use crate::text::{is, items, items_of};
use vstd::prelude::*;

verus! {

/// A desktop entry as mathematics.
pub ghost struct EntryView {
    pub id: Seq<char>,
    pub path: Seq<char>,
    pub name: Seq<char>,
    pub exec_template: Seq<char>,
    pub terminal: bool,
    pub mime_types: Seq<MimeKey>,
}

/// What a desktop file says of a program.
#[derive(Debug, Clone, PartialEq, Eq)]
pub struct DesktopEntry {
    /// The file's name, such as `vim.desktop`, by which associations name the handler.
    pub id: String,
    /// Where the file was read from.
    pub path: String,
    /// The program's name as shown to the user.
    pub name: String,
    /// The command template.
    pub exec_template: String,
    /// Whether the program runs in a terminal.
    pub terminal: bool,
    /// The MIME types that the program declares to handle.
    pub mime_types: Vec<MimeType>,
}

/// The desktop entries of a vector.
pub open spec fn entry_views(entries: Seq<DesktopEntry>) -> Seq<EntryView> {
    Seq::new(entries.len(), |i: int| entries[i]@)
}

impl View for DesktopEntry {
    type V = EntryView;

    open spec fn view(&self) -> EntryView {
        EntryView {
            id: self.id@,
            path: self.path@,
            name: self.name@,
            exec_template: self.exec_template@,
            terminal: self.terminal,
            mime_types: keys_of(self.mime_types@),
        }
    }
}

/// The MIME types that a list such as `text/plain;text/html;` declares.
pub open spec fn declared(value: Seq<char>) -> Seq<MimeKey> {
    mimes_upto(items(value, ';'), items(value, ';').len() as int)
}

/// The desktop entry that the text of a desktop file gives, for the file of the name
/// `id` at `path`. The section `Desktop Entry` is read: `Name` and `Exec` must be there
/// and not empty; `Terminal` counts where it is `true`; `MimeType` lists what the
/// program declares to handle.
pub open spec fn entry_from(id: Seq<char>, path: Seq<char>, content: Seq<char>) -> Result<
    EntryView,
    ErrorView,
> {
    let pairs = section_pairs(content, "Desktop Entry"@);
    match (first_value(pairs, "Name"@), first_value(pairs, "Exec"@)) {
        (Some(name), Some(exec_template)) if name.len() > 0 && exec_template.len() > 0 => Ok(
            EntryView {
                id,
                path,
                name,
                exec_template,
                terminal: first_value(pairs, "Terminal"@) == Some("true"@),
                mime_types: match first_value(pairs, "MimeType"@) {
                    Some(value) => declared(value),
                    None => Seq::empty(),
                },
            },
        ),
        _ => Err(ErrorView::BadEntry(path)),
    }
}

/// The MIME types that a list such as `text/plain;text/html;` declares.
pub fn declared_mimes(value: &str) -> (r: Vec<MimeType>)
    ensures
        keys_of(r@) == declared(value@),
{
    mimes_of(&items_of(value, ';'))
}

impl DesktopEntry {
    /// The desktop entry that the text of a desktop file gives, for the file of the name
    /// `id` at `path`.
    ///
    /// Fails with `BadEntry` where the section `Desktop Entry` lacks a name or a command.
    pub fn parse(id: &str, path: &str, content: &str) -> (r: Result<DesktopEntry, Error>)
        ensures
            match entry_from(id@, path@, content@) {
                Ok(e) => r matches Ok(entry) && entry@ == e,
                Err(e) => r matches Err(err) && err@ == e,
            },
    {
        let pairs = pairs_of(content, "Desktop Entry");
        let name = match value_of(&pairs, "Name") {
            Some(name) => name,
            None => {
                return Err(Error::BadEntry(path.to_owned()));
            },
        };
        let exec_template = match value_of(&pairs, "Exec") {
            Some(exec_template) => exec_template,
            None => {
                return Err(Error::BadEntry(path.to_owned()));
            },
        };
        if name.as_str().unicode_len() == 0 || exec_template.as_str().unicode_len() == 0 {
            return Err(Error::BadEntry(path.to_owned()));
        }
        let terminal = match value_of(&pairs, "Terminal") {
            Some(value) => is(value, "true"),
            None => false,
        };
        let mime_types = match value_of(&pairs, "MimeType") {
            Some(value) => declared_mimes(value.as_str()),
            None => {
                let none: Vec<MimeType> = Vec::new();
                proof {
                    assert(keys_of(none@) =~= Seq::<MimeKey>::empty());
                }
                none
            },
        };
        Ok(
            DesktopEntry {
                id: id.to_owned(),
                path: path.to_owned(),
                name: name.clone(),
                exec_template: exec_template.clone(),
                terminal,
                mime_types,
            },
        )
    }
}

} // verus!
