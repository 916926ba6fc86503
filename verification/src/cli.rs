//! The commands of the command line, and what its flags decide.

use crate::db::{extensions, known_extensions, known_types, mime_types};
use crate::desktop_entry::DesktopEntry;
use crate::ini::pair_views;
use crate::lists::{ascending, extend, lemma_deep_push, sorted_of};
use crate::mime_types::MimeType;
use crate::path::UserPath;
use crate::text::chars_of;
use vstd::prelude::*;

verus! {

/// Flags that override the configured selector for one command.
#[derive(Debug, Clone, PartialEq, Eq)]
pub struct SelectorArgs {
    /// The selector command to use in place of the configured one.
    pub selector: Option<String>,
    /// Whether the selector is enabled, in place of what is configured.
    pub enable_selector: Option<bool>,
}

/// A command.
#[derive(Debug, Clone, PartialEq, Eq)]
pub enum Cmd {
    /// List the default handlers.
    List { json: bool, all: bool },
    /// Open paths and URLs with their handlers.
    Open { paths: Vec<UserPath>, selector_args: SelectorArgs },
    /// Set the default handler of a MIME type.
    SetDefault { mime: MimeType, handler: String },
    /// Unset the default handler of a MIME type.
    Unset { mime: MimeType },
    /// Launch the handler of a MIME type with arguments.
    Launch { mime: MimeType, args: Vec<String>, selector_args: SelectorArgs },
    /// Show the handler of a MIME type.
    Get { json: bool, mime: MimeType, selector_args: SelectorArgs },
    /// Add a handler to a MIME type.
    Add { mime: MimeType, handler: String },
    /// Remove a handler from a MIME type.
    Remove { mime: MimeType, handler: String },
    /// Show the MIME types of paths and URLs.
    Mime { paths: Vec<UserPath>, json: bool },
}

/// The command line.
#[derive(Debug, Clone, PartialEq, Eq)]
pub struct Cli {
    /// The command.
    pub command: Cmd,
    /// Whether errors may be shown as desktop notifications.
    pub enable_notifications: bool,
    /// Whether to behave as if the output is an interactive terminal, where the user
    /// said so.
    pub terminal_output: Option<bool>,
}

/// Whether to behave as if the output is an interactive terminal: what the user said,
/// else what is found of the standard output.
pub open spec fn interactive(forced: Option<bool>, stdout_is_terminal: bool) -> bool {
    match forced {
        Some(said) => said,
        None => stdout_is_terminal,
    }
}

impl Cli {
    /// Whether to behave as if the output is an interactive terminal: what the user
    /// said, else what `stdout_is_terminal` says of the standard output.
    pub fn terminal_output(&self, stdout_is_terminal: bool) -> (r: bool)
        ensures
            r == interactive(self.terminal_output, stdout_is_terminal),
    {
        match self.terminal_output {
            Some(forced) => forced,
            None => stdout_is_terminal,
        }
    }

    /// Whether errors are to be shown as desktop notifications: only where they are
    /// enabled and the output is no interactive terminal.
    pub fn show_notifications(&self, stdout_is_terminal: bool) -> (r: bool)
        ensures
            r == (!interactive(self.terminal_output, stdout_is_terminal)
                && self.enable_notifications),
    {
        !self.terminal_output(stdout_is_terminal) && self.enable_notifications
    }
}

/// The test for starting with `prefix`.
pub open spec fn starts_with(prefix: Seq<char>) -> spec_fn(Seq<char>) -> bool {
    |s: Seq<char>| prefix.is_prefix_of(s)
}

/// Whether `s` starts with `prefix`.
pub fn begins(s: &String, prefix: &Vec<char>) -> (r: bool)
    ensures
        r == prefix@.is_prefix_of(s@),
{
    let chars = chars_of(s.as_str());
    if prefix.len() > chars.len() {
        return false;
    }
    let mut i: usize = 0;
    while i < prefix.len()
        invariant
            i <= prefix.len() <= chars.len(),
            chars@ == s@,
            forall|j: int| 0 <= j < i ==> prefix@[j] == chars@[j],
        decreases prefix.len() - i,
    {
        if prefix[i] != chars[i] {
            return false;
        }
        i += 1;
    }
    true
}

/// Those of `names` that start with `current`, in their order.
pub fn completions(names: &Vec<String>, current: &str) -> (r: Vec<String>)
    ensures
        r.deep_view() == names.deep_view().filter(starts_with(current@)),
{
    let prefix = chars_of(current);
    let mut r: Vec<String> = Vec::new();
    let mut i: usize = 0;
    let ghost pred = starts_with(current@);
    proof {
        reveal(Seq::filter);
        assert(names.deep_view().take(0) =~= Seq::<Seq<char>>::empty());
    }
    while i < names.len()
        invariant
            i <= names.len(),
            prefix@ == current@,
            pred == starts_with(current@),
            r.deep_view() == names.deep_view().take(i as int).filter(pred),
        decreases names.len() - i,
    {
        let ghost before = r;
        if begins(&names[i], &prefix) {
            r.push(names[i].clone());
            proof {
                lemma_deep_push(before, r, names@[i as int]);
            }
        }
        proof {
            names.deep_view().take(i as int).lemma_filter_push(names@[i as int]@, pred);
            assert(names.deep_view().take(i as int).push(names@[i as int]@)
                =~= names.deep_view().take(i + 1));
        }
        i += 1;
    }
    proof {
        assert(names.deep_view().take(names.len() as int) =~= names.deep_view());
    }
    r
}

/// What can be meant by `current` where a MIME type or a file extension is asked for,
/// before it is put in order: the known extensions, with their dots, and then the known
/// MIME types, as far as they start with `current`.
pub open spec fn mime_offers(current: Seq<char>) -> Seq<Seq<char>> {
    (known_extensions() + known_types()).filter(starts_with(current))
}

/// What can be meant by `current` where a MIME type or a file extension is asked for:
/// the known extensions, with their dots, and the known MIME types that start with it,
/// each as often as it is known, in the order of the dictionary.
pub fn autocomplete_mimes(current: &str) -> (r: Vec<String>)
    ensures
        ascending(r.deep_view()),
        r.deep_view().to_multiset() == mime_offers(current@).to_multiset(),
        forall|i: int|
            0 <= i < r.deep_view().len() ==> current@.is_prefix_of(#[trigger] r.deep_view()[i]),
{
    let mut all = extensions();
    let types = mime_types();
    extend(&mut all, &types);
    let found = completions(&all, current);
    let r = sorted_of(&found);
    proof {
        broadcast use vstd::seq_lib::group_to_multiset_ensures;
        assert forall|i: int| 0 <= i < r.deep_view().len() implies current@.is_prefix_of(
            #[trigger] r.deep_view()[i],
        ) by {
            let x = r.deep_view()[i];
            assert(r.deep_view().contains(x));
            assert(found.deep_view().to_multiset().count(x) > 0);
            assert(found.deep_view().contains(x));
            let j = choose|j: int| 0 <= j < found.deep_view().len() && found.deep_view()[j] == x;
            all.deep_view().lemma_filter_pred(starts_with(current@), j);
        }
    }
    r
}

/// The ids that start with `current` among those of the first `n` of `entries`, each
/// with the name of its entry, in their order.
pub open spec fn offers(entries: Seq<DesktopEntry>, n: int, current: Seq<char>) -> Seq<
    (Seq<char>, Seq<char>),
>
    decreases n,
{
    if n <= 0 || n > entries.len() {
        Seq::empty()
    } else if current.is_prefix_of(entries[n - 1].id@) {
        offers(entries, n - 1, current).push((entries[n - 1].id@, entries[n - 1].name@))
    } else {
        offers(entries, n - 1, current)
    }
}

/// What can be meant by `current` where a desktop file is asked for: the ids that start
/// with it among those of `entries`, each with the name of its entry, in their order.
pub fn autocomplete_desktop_files(entries: &Vec<DesktopEntry>, current: &str) -> (r: Vec<
    (String, String),
>)
    ensures
        pair_views(r@) == offers(entries@, entries@.len() as int, current@),
{
    let prefix = chars_of(current);
    let mut r: Vec<(String, String)> = Vec::new();
    let mut n: usize = 0;
    proof {
        assert(pair_views(r@) =~= Seq::<(Seq<char>, Seq<char>)>::empty());
    }
    while n < entries.len()
        invariant
            n <= entries.len(),
            prefix@ == current@,
            pair_views(r@) == offers(entries@, n as int, current@),
        decreases entries.len() - n,
    {
        if begins(&entries[n].id, &prefix) {
            let ghost before = r@;
            r.push((entries[n].id.clone(), entries[n].name.clone()));
            proof {
                assert(pair_views(r@) =~= pair_views(before).push(
                    (entries@[n as int].id@, entries@[n as int].name@),
                ));
            }
        }
        n += 1;
    }
    r
}

} // verus!
