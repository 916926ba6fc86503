//! Which program handles a MIME type, a file or a URL, and how it is launched.
//!
//! User input is brought into canonical form as a [`mime_types::MimeType`] or a
//! [`path::UserPath`]. The user's associations ([`associations`], kept in [`layer`]s and
//! read and written by [`mimeapps`]), the system's defaults ([`system`]) and the regex
//! handlers give the candidates for a MIME type ([`resolver`]). Where there are several,
//! a selector may be asked ([`selector`]). The command of the chosen handler's desktop
//! entry ([`desktop_entry`]) is filled in and, where needed, wrapped in a terminal
//! ([`launcher`]). [`config`] holds all of this for one invocation and says, step by
//! step, what is to be run; running it is the caller's part.
//!
//! What holds of the commands and of resolution taken together is proved in
//! [`guarantees`], and that associations are read back as they were written in
//! [`written`].

pub mod associations;
pub mod cli;
pub mod config;
pub mod db;
pub mod dist;
pub mod desktop_entry;
pub mod error;
pub mod guarantees;
pub mod ini;
pub mod launcher;
pub mod layer;
pub mod logging;
pub mod lists;
pub mod mime_types;
pub mod mimeapps;
pub mod path;
pub mod resolver;
pub mod selector;
pub mod system;
pub mod testing;
pub mod text;
pub mod written;
