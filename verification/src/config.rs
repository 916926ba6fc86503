//! Everything that one invocation knows, in one place: the user's associations, the
//! system's defaults, the regex handlers, the desktop entries and the settings. The
//! commands work on it, and it says what is to be run.

use crate::associations::{Associations, AssociationsFile};
use crate::cli::{Cmd, SelectorArgs};
use crate::desktop_entry::{entry_views, DesktopEntry, EntryView};
use crate::error::{Error, ErrorView};
use crate::launcher::{
    command, command_for, invocations, invocations_of, shell_words, split_words,
};
use crate::layer::Layer;
use crate::lists::{copy, extend};
use crate::mime_types::{keys_of, terminal_mime, MimeKey, MimeType};
use crate::resolver::{
    listing, regex_part, resolution, resolve, rules_of, RegexHandler, RegexRule,
};
use crate::selector::{chosen, choice, select, selected, selection, Selection, SelectionView};
use crate::text::{join, joined};
use vstd::prelude::*;

verus! {

/// What one invocation knows, as mathematics.
pub ghost struct ConfigView {
    pub associations: Associations,
    pub system_apps: Map<MimeKey, Seq<Seq<char>>>,
    pub rules: Seq<RegexRule>,
    pub entries: Seq<EntryView>,
    pub known: Seq<MimeKey>,
    pub enable_selector: bool,
    pub selector: Seq<char>,
    pub term_exec_args: Option<Seq<char>>,
    pub expand_wildcards: bool,
    pub terminal_output: bool,
}

/// What one invocation knows.
#[derive(Debug)]
pub struct Config {
    /// The user's associations.
    pub associations: AssociationsFile,
    /// The system's default handlers. Never changed.
    pub system_apps: Layer,
    /// The regex handlers, in the order in which they are tried.
    pub handlers: Vec<RegexHandler>,
    /// The desktop entries that were found.
    pub entries: Vec<DesktopEntry>,
    /// The MIME types that wildcards expand to.
    pub known_mimes: Vec<MimeType>,
    /// Whether the selector is asked where there are several candidates.
    pub enable_selector: bool,
    /// The selector's command.
    pub selector: String,
    /// What follows the terminal's own command when it is to run another.
    pub term_exec_args: Option<String>,
    /// Whether `set` and `add` of a wildcard work on the MIME types under it.
    pub expand_wildcards: bool,
    /// Whether the output is an interactive terminal.
    pub terminal_output: bool,
}

impl View for Config {
    type V = ConfigView;

    open spec fn view(&self) -> ConfigView {
        ConfigView {
            associations: self.associations@,
            system_apps: self.system_apps@,
            rules: rules_of(self.handlers@),
            entries: entry_views(self.entries@),
            known: keys_of(self.known_mimes@),
            enable_selector: self.enable_selector,
            selector: self.selector@,
            term_exec_args: match self.term_exec_args {
                Some(t) => Some(t@),
                None => None,
            },
            expand_wildcards: self.expand_wildcards,
            terminal_output: self.terminal_output,
        }
    }
}

/// Where the first entry of the id `id` stands at or after `from`, or the number of
/// entries if there is none.
pub open spec fn entry_place(entries: Seq<EntryView>, id: Seq<char>, from: int) -> int
    decreases entries.len() - from,
{
    if from < 0 || from >= entries.len() {
        entries.len() as int
    } else if entries[from].id == id {
        from
    } else {
        entry_place(entries, id, from + 1)
    }
}

/// The first entry of the id `id`, if there is one.
pub open spec fn entry_of(entries: Seq<EntryView>, id: Seq<char>) -> Option<EntryView> {
    if 0 <= entry_place(entries, id, 0) < entries.len() {
        Some(entries[entry_place(entries, id, 0)])
    } else {
        None
    }
}

/// The name under which a handler is shown: that of its entry, or its id where it has
/// none.
pub open spec fn shown_as(entries: Seq<EntryView>, id: Seq<char>) -> Seq<char> {
    match entry_of(entries, id) {
        Some(e) => e.name,
        None => id,
    }
}

/// The names under which the candidates are shown.
pub open spec fn names(entries: Seq<EntryView>, candidates: Seq<Seq<char>>) -> Seq<Seq<char>> {
    Seq::new(candidates.len(), |i: int| shown_as(entries, candidates[i]))
}

/// Each of the commands with `prefix` before it.
pub open spec fn wrapped(prefix: Seq<Seq<char>>, commands: Seq<Seq<Seq<char>>>) -> Seq<
    Seq<Seq<char>>,
> {
    Seq::new(commands.len(), |i: int| prefix + commands[i])
}

/// Whether one of the first `n` commands has no word.
pub open spec fn some_empty(commands: Seq<Seq<Seq<char>>>, n: int) -> bool {
    exists|i: int| 0 <= i < n && i < commands.len() && (#[trigger] commands[i]).len() == 0
}

impl ConfigView {
    /// The words of the command that opens a terminal to run another command: those of
    /// the first candidate for the terminal's MIME type, followed by the configured
    /// arguments. `NoTerminal` where no terminal handler is known.
    pub open spec fn terminal_words(self) -> Result<Seq<Seq<char>>, ErrorView> {
        match resolution(self.associations, self.system_apps, Seq::empty(), terminal_mime()) {
            Err(_) => Err(ErrorView::NoTerminal),
            Ok(found) => match entry_of(self.entries, found[0]) {
                None => Err(ErrorView::NoTerminal),
                Some(e) => match shell_words(e.exec_template) {
                    None => Err(ErrorView::BadExec(e.exec_template, e.id)),
                    Some(w) => match self.term_exec_args {
                        None => Ok(command(w, Seq::empty(), e.name, e.path)),
                        Some(t) => match shell_words(t) {
                            None => Err(ErrorView::BadCmd(t)),
                            Some(more) => Ok(command(w, Seq::empty(), e.name, e.path) + more),
                        },
                    },
                },
            },
        }
    }

    /// The commands that launch the entry `e` with `args`: those of its template, each
    /// wrapped in the terminal's command where the entry asks for a terminal and the
    /// output is none.
    pub open spec fn launch_plan(self, e: EntryView, args: Seq<Seq<char>>) -> Result<
        Seq<Seq<Seq<char>>>,
        ErrorView,
    > {
        match shell_words(e.exec_template) {
            None => Err(ErrorView::BadExec(e.exec_template, e.id)),
            Some(w) => {
                let commands = invocations(w, args, e.name, e.path);
                if some_empty(commands, commands.len() as int) {
                    Err(ErrorView::BadExec(e.exec_template, e.id))
                } else if e.terminal && !self.terminal_output {
                    match self.terminal_words() {
                        Err(x) => Err(x),
                        Ok(prefix) => Ok(wrapped(prefix, commands)),
                    }
                } else {
                    Ok(commands)
                }
            },
        }
    }

    /// The commands that launch the handler of the id `id` with `args`. `NotFound` where
    /// no entry has that id.
    pub open spec fn launch_of(self, id: Seq<char>, args: Seq<Seq<char>>) -> Result<
        Seq<Seq<Seq<char>>>,
        ErrorView,
    > {
        match entry_of(self.entries, id) {
            None => Err(ErrorView::NotFound(id)),
            Some(e) => self.launch_plan(e, args),
        }
    }

    /// What is shown of the handler of the id `id`: the first of the commands that launch
    /// it without arguments, the id, and the name of its entry.
    pub open spec fn shown(self, id: Seq<char>) -> Result<HandlerInfoView, ErrorView> {
        match entry_of(self.entries, id) {
            None => Err(ErrorView::NotFound(id)),
            Some(e) => match self.launch_plan(e, Seq::empty()) {
                Err(x) => Err(x),
                Ok(commands) => Ok(
                    HandlerInfoView {
                        cmd: if commands.len() > 0 {
                            joined(commands[0], ' ')
                        } else {
                            Seq::empty()
                        },
                        handler: id,
                        name: e.name,
                    },
                ),
            },
        }
    }

    /// The candidates for the MIME type `k` of the target `path`.
    pub open spec fn found(self, k: MimeKey, path: Option<Seq<char>>) -> Result<
        Seq<Seq<char>>,
        ErrorView,
    > {
        resolution(self.associations, self.system_apps, regex_part(self.rules, path), k)
    }

    /// How the handler for the MIME type `k` of the target `path` is to be chosen, given
    /// what has happened. At the beginning, the first candidate is taken where there is
    /// one only or selection is disabled, else the selector is to be asked. The
    /// selector's answer is read as `choice` says. A selector that could not be started
    /// is an error.
    pub open spec fn handler_for(self, k: MimeKey, path: Option<Seq<char>>, event: EventView) -> Result<
        SelectionView,
        ErrorView,
    > {
        match self.found(k, path) {
            Err(e) => Err(e),
            Ok(candidates) => match event {
                EventView::Begin => selection(
                    candidates,
                    names(self.entries, candidates),
                    self.enable_selector,
                    self.selector,
                    shell_words(self.selector),
                ),
                EventView::Answer { success, output } => match choice(
                    candidates,
                    names(self.entries, candidates),
                    success,
                    output,
                ) {
                    Ok(id) => Ok(SelectionView::Chosen(id)),
                    Err(e) => Err(e),
                },
                EventView::NoSelector => Err(ErrorView::Selector(self.selector)),
            },
        }
    }

    /// What is to be done next for a request to launch, given what has happened.
    pub open spec fn step(self, request: RequestView, event: EventView) -> ActionView {
        match self.handler_for(request.mime, request.path, event) {
            Err(e) => ActionView::Fail(e),
            Ok(SelectionView::Ask { command, input }) => ActionView::Ask { command, input },
            Ok(SelectionView::Chosen(id)) => match self.launch_of(id, request.args) {
                Ok(commands) => ActionView::Spawn(commands),
                Err(e) => ActionView::Fail(e),
            },
        }
    }

    /// The settings with the selector overridden by the flags that are given.
    pub open spec fn with_selector(self, selector: Option<Seq<char>>, enable: Option<bool>) -> ConfigView {
        ConfigView {
            selector: match selector {
                Some(s) => s,
                None => self.selector,
            },
            enable_selector: match enable {
                Some(e) => e,
                None => self.enable_selector,
            },
            ..self
        }
    }
}

/// What has happened in the course of a request, as mathematics.
pub ghost enum EventView {
    Begin,
    Answer { success: bool, output: Seq<char> },
    NoSelector,
}

/// What has happened in the course of a request.
#[derive(Debug, Clone, PartialEq, Eq)]
pub enum Event {
    /// Nothing yet.
    Begin,
    /// The selector ran: `success` says whether it ended with status zero, `output`
    /// holds what it wrote.
    Answer { success: bool, output: String },
    /// The selector could not be started.
    NoSelector,
}

impl View for Event {
    type V = EventView;

    open spec fn view(&self) -> EventView {
        match self {
            Event::Begin => EventView::Begin,
            Event::Answer { success, output } => EventView::Answer {
                success: *success,
                output: output@,
            },
            Event::NoSelector => EventView::NoSelector,
        }
    }
}

/// What is to be done next, as mathematics.
pub ghost enum ActionView {
    Ask { command: Seq<Seq<char>>, input: Seq<char> },
    Spawn(Seq<Seq<Seq<char>>>),
    Fail(ErrorView),
}

/// What is to be done next.
#[derive(Debug, Clone, PartialEq, Eq)]
pub enum Action {
    /// Run the selector as `command` with `input` on its standard input, and come back
    /// with its answer.
    Ask { command: Vec<String>, input: String },
    /// Start each of the commands, detached. The request is then done.
    Spawn(Vec<Vec<String>>),
    /// Give up with this error. Nothing is to be started.
    Fail(Error),
}

impl View for Action {
    type V = ActionView;

    open spec fn view(&self) -> ActionView {
        match self {
            Action::Ask { command, input } => ActionView::Ask {
                command: command.deep_view(),
                input: input@,
            },
            Action::Spawn(commands) => ActionView::Spawn(commands.deep_view()),
            Action::Fail(e) => ActionView::Fail(e@),
        }
    }
}

/// A request to launch a handler, as mathematics.
pub ghost struct RequestView {
    pub mime: MimeKey,
    pub path: Option<Seq<char>>,
    pub args: Seq<Seq<char>>,
}

/// A request to launch the handler of a MIME type.
#[derive(Debug, Clone, PartialEq, Eq)]
pub struct Request {
    /// The MIME type whose handler is wanted.
    pub mime: MimeType,
    /// The path or URL that the MIME type was derived from, if it was.
    pub path: Option<String>,
    /// The arguments for the handler.
    pub args: Vec<String>,
}

impl View for Request {
    type V = RequestView;

    open spec fn view(&self) -> RequestView {
        RequestView {
            mime: self.mime@,
            path: match self.path {
                Some(p) => Some(p@),
                None => None,
            },
            args: self.args.deep_view(),
        }
    }
}

/// What is shown of a handler, as mathematics.
pub ghost struct HandlerInfoView {
    pub cmd: Seq<char>,
    pub handler: Seq<char>,
    pub name: Seq<char>,
}

/// What is shown of a handler.
#[derive(Debug, Clone, PartialEq, Eq)]
pub struct HandlerInfo {
    /// The command that launches the handler, its words separated by spaces.
    pub cmd: String,
    /// The handler's id.
    pub handler: String,
    /// The name of the handler's entry.
    pub name: String,
}

impl View for HandlerInfo {
    type V = HandlerInfoView;

    open spec fn view(&self) -> HandlerInfoView {
        HandlerInfoView { cmd: self.cmd@, handler: self.handler@, name: self.name@ }
    }
}

/// A result with its parts as mathematics.
pub open spec fn planned(r: Result<Vec<Vec<String>>, Error>) -> Result<
    Seq<Seq<Seq<char>>>,
    ErrorView,
> {
    match r {
        Ok(commands) => Ok(commands.deep_view()),
        Err(e) => Err(e@),
    }
}

/// Each of the commands with `prefix` before it.
pub fn wrap(prefix: &Vec<String>, commands: &Vec<Vec<String>>) -> (r: Vec<Vec<String>>)
    ensures
        r.deep_view() == wrapped(prefix.deep_view(), commands.deep_view()),
{
    let mut r: Vec<Vec<String>> = Vec::new();
    let mut i: usize = 0;
    while i < commands.len()
        invariant
            i <= commands.len(),
            r@.len() == i,
            forall|j: int|
                0 <= j < i ==> (#[trigger] r@[j]).deep_view() == prefix.deep_view()
                    + commands@[j].deep_view(),
        decreases commands.len() - i,
    {
        let mut one = copy(prefix);
        extend(&mut one, &commands[i]);
        r.push(one);
        i += 1;
    }
    proof {
        assert(r.deep_view() =~= wrapped(prefix.deep_view(), commands.deep_view()));
    }
    r
}

/// Whether one of the commands has no word.
fn has_empty(commands: &Vec<Vec<String>>) -> (r: bool)
    ensures
        r == some_empty(commands.deep_view(), commands.len() as int),
{
    let mut i: usize = 0;
    while i < commands.len()
        invariant
            i <= commands.len(),
            !some_empty(commands.deep_view(), i as int),
        decreases commands.len() - i,
    {
        assert(commands.deep_view()[i as int] == commands@[i as int].deep_view());
        if commands[i].len() == 0 {
            return true;
        }
        i += 1;
    }
    false
}

impl Config {
    /// The first entry of the id `id`, if there is one.
    pub fn entry(&self, id: &String) -> (r: Option<&DesktopEntry>)
        ensures
            match r {
                Some(e) => entry_of(self@.entries, id@) == Some(e@),
                None => entry_of(self@.entries, id@) is None,
            },
    {
        let mut i: usize = 0;
        let ghost all = self@.entries;
        while i < self.entries.len()
            invariant
                i <= self.entries.len(),
                all == self@.entries,
                entry_place(all, id@, 0) == entry_place(all, id@, i as int),
            decreases self.entries.len() - i,
        {
            assert(all[i as int] == self.entries@[i as int]@);
            if self.entries[i].id == *id {
                return Some(&self.entries[i]);
            }
            i += 1;
        }
        None
    }

    /// The names under which the candidates are shown.
    pub fn names_of(&self, candidates: &Vec<String>) -> (r: Vec<String>)
        ensures
            r.deep_view() == names(self@.entries, candidates.deep_view()),
    {
        let mut r: Vec<String> = Vec::new();
        let mut i: usize = 0;
        while i < candidates.len()
            invariant
                i <= candidates.len(),
                r@.len() == i,
                forall|j: int|
                    0 <= j < i ==> (#[trigger] r@[j])@ == shown_as(
                        self@.entries,
                        candidates@[j]@,
                    ),
            decreases candidates.len() - i,
        {
            let name = match self.entry(&candidates[i]) {
                Some(e) => e.name.clone(),
                None => candidates[i].clone(),
            };
            r.push(name);
            i += 1;
        }
        proof {
            assert(r.deep_view() =~= names(self@.entries, candidates.deep_view()));
        }
        r
    }

    /// Takes over the selector flags of a command where they are given.
    pub fn override_selector(&mut self, selector_args: SelectorArgs)
        ensures
            final(self)@ == old(self)@.with_selector(
                match selector_args.selector {
                    Some(s) => Some(s@),
                    None => None,
                },
                selector_args.enable_selector,
            ),
    {
        match selector_args.enable_selector {
            Some(enable) => {
                self.enable_selector = enable;
            },
            None => {},
        }
        match selector_args.selector {
            Some(selector) => {
                self.selector = selector;
            },
            None => {},
        }
    }

    /// The candidates for `mime`, best first. Where the target is a path or URL, `path`
    /// holds it.
    ///
    /// Fails with `NotFound` where there is no candidate.
    pub fn candidates(&self, mime: &MimeType, path: Option<&str>) -> (r: Result<
        Vec<String>,
        Error,
    >)
        ensures
            listing(r) == self@.found(
                mime@,
                match path {
                    Some(p) => Some(p@),
                    None => None,
                },
            ),
    {
        resolve(&self.associations, &self.system_apps, &self.handlers, mime, path)
    }

    /// How the handler for `mime` is to be chosen, given what has happened.
    ///
    /// Fails with `NotFound` where there is no candidate, with `BadCmd` where the
    /// selector's command does not split, with `Selector` where the selector could not
    /// be started, and with `Cancelled` where the selector's answer names no candidate.
    pub fn get_handler(&self, mime: &MimeType, path: Option<&str>, event: &Event) -> (r: Result<
        Selection,
        Error,
    >)
        ensures
            selected(r) == self@.handler_for(
                mime@,
                match path {
                    Some(p) => Some(p@),
                    None => None,
                },
                event@,
            ),
            event@ matches EventView::Answer { success, output } && !success ==> !(r is Ok),
    {
        let candidates = match self.candidates(mime, path) {
            Ok(candidates) => candidates,
            Err(e) => {
                return Err(e);
            },
        };
        let names = self.names_of(&candidates);
        match event {
            Event::Begin => select(
                &candidates,
                &names,
                self.enable_selector,
                self.selector.as_str(),
            ),
            Event::Answer { success, output } => {
                match chosen(&candidates, &names, *success, output.as_str()) {
                    Ok(id) => Ok(Selection::Chosen(id)),
                    Err(e) => Err(e),
                }
            },
            Event::NoSelector => Err(Error::Selector(self.selector.clone())),
        }
    }

    /// The words of the command that opens a terminal to run another command.
    ///
    /// Fails with `NoTerminal` where no terminal handler is known.
    pub fn terminal_words(&self) -> (r: Result<Vec<String>, Error>)
        ensures
            listing(r) == self@.terminal_words(),
    {
        let none: Vec<String> = Vec::new();
        proof {
            assert(none.deep_view() =~= Seq::<Seq<char>>::empty());
        }
        let found = match self.candidates(&MimeType::terminal(), None) {
            Ok(found) => found,
            Err(_) => {
                return Err(Error::NoTerminal);
            },
        };
        assert(found.deep_view()[0] == found@[0]@);
        let entry = match self.entry(&found[0]) {
            Some(entry) => entry,
            None => {
                return Err(Error::NoTerminal);
            },
        };
        let words = match split_words(entry.exec_template.as_str()) {
            Some(words) => words,
            None => {
                return Err(Error::BadExec(entry.exec_template.clone(), entry.id.clone()));
            },
        };
        let mut prefix = command_for(&words, &none, &entry.name, &entry.path);
        match &self.term_exec_args {
            Some(more) => {
                match split_words(more.as_str()) {
                    Some(more_words) => {
                        extend(&mut prefix, &more_words);
                    },
                    None => {
                        return Err(Error::BadCmd(more.clone()));
                    },
                }
            },
            None => {},
        }
        Ok(prefix)
    }

    /// The commands that launch `entry` with `args`.
    ///
    /// Fails with `BadExec` where the entry's template does not split into words or
    /// yields a command without words, and as `terminal_words` does where the entry asks
    /// for a terminal and the output is none.
    pub fn launch_plan(&self, entry: &DesktopEntry, args: &Vec<String>) -> (r: Result<
        Vec<Vec<String>>,
        Error,
    >)
        ensures
            planned(r) == self@.launch_plan(entry@, args.deep_view()),
    {
        let words = match split_words(entry.exec_template.as_str()) {
            Some(words) => words,
            None => {
                return Err(Error::BadExec(entry.exec_template.clone(), entry.id.clone()));
            },
        };
        let commands = invocations_of(&words, args, &entry.name, &entry.path);
        if has_empty(&commands) {
            return Err(Error::BadExec(entry.exec_template.clone(), entry.id.clone()));
        }
        if entry.terminal && !self.terminal_output {
            match self.terminal_words() {
                Ok(prefix) => Ok(wrap(&prefix, &commands)),
                Err(e) => Err(e),
            }
        } else {
            Ok(commands)
        }
    }

    /// The commands that launch the handler of the id `id` with `args`.
    ///
    /// Fails with `NotFound` where no entry has that id, and as `launch_plan` does.
    pub fn launch_handler(&self, id: &String, args: &Vec<String>) -> (r: Result<
        Vec<Vec<String>>,
        Error,
    >)
        ensures
            planned(r) == self@.launch_of(id@, args.deep_view()),
    {
        match self.entry(id) {
            Some(entry) => self.launch_plan(entry, args),
            None => Err(Error::NotFound(id.clone())),
        }
    }

    /// What is shown of the handler of the id `id`: the command that launches it without
    /// arguments, the id, and the name of its entry.
    ///
    /// Fails as `launch_handler` does.
    pub fn show_handler(&self, id: &String) -> (r: Result<HandlerInfo, Error>)
        ensures
            match self@.shown(id@) {
                Ok(info) => r matches Ok(shown) && shown@ == info,
                Err(e) => r matches Err(err) && err@ == e,
            },
    {
        let entry = match self.entry(id) {
            Some(entry) => entry,
            None => {
                return Err(Error::NotFound(id.clone()));
            },
        };
        let none: Vec<String> = Vec::new();
        proof {
            assert(none.deep_view() =~= Seq::<Seq<char>>::empty());
        }
        let commands = match self.launch_plan(entry, &none) {
            Ok(commands) => commands,
            Err(e) => {
                return Err(e);
            },
        };
        let mut cmd = String::new();
        if commands.len() > 0 {
            assert(commands.deep_view()[0] == commands@[0].deep_view());
            cmd = join(&commands[0], ' ');
        }
        Ok(HandlerInfo { cmd, handler: id.clone(), name: entry.name.clone() })
    }

    /// What is to be done next for `request`, given what has happened. The caller starts
    /// with `Begin`, does what it is told, and comes back with what happened until it is
    /// told to spawn or to fail.
    ///
    /// After a selector that did not end well, or whose answer names no candidate,
    /// nothing is spawned.
    pub fn step(&self, request: &Request, event: &Event) -> (r: Action)
        ensures
            r@ == self@.step(request@, event@),
            event@ matches EventView::Answer { success, output } && !success ==> r@
                == ActionView::Fail(ErrorView::Cancelled) || r@ == ActionView::Fail(
                ErrorView::NotFound(request@.mime.text()),
            ),
            event is NoSelector ==> r is Fail,
    {
        let path: Option<&str> = match &request.path {
            Some(p) => Some(p.as_str()),
            None => None,
        };
        match self.get_handler(&request.mime, path, event) {
            Err(e) => Action::Fail(e),
            Ok(Selection::Ask { command, input }) => Action::Ask { command, input },
            Ok(Selection::Chosen(id)) => match self.launch_handler(&id, &request.args) {
                Ok(commands) => Action::Spawn(commands),
                Err(e) => Action::Fail(e),
            },
        }
    }

    /// Carries out a command that changes the associations, and says whether it was one:
    /// the associations are then to be saved.
    pub fn update(&mut self, command: &Cmd) -> (changed: bool)
        ensures
            final(self)@ == old(self)@.updated(command),
            changed == changes(command),
    {
        match command {
            Cmd::SetDefault { mime, handler } => {
                self.associations.set_handler(
                    mime,
                    handler,
                    self.expand_wildcards,
                    &self.known_mimes,
                );
                true
            },
            Cmd::Add { mime, handler } => {
                self.associations.add_handler(
                    &self.system_apps,
                    mime,
                    handler,
                    self.expand_wildcards,
                    &self.known_mimes,
                );
                true
            },
            Cmd::Unset { mime } => {
                self.associations.unset_handler(mime);
                true
            },
            Cmd::Remove { mime, handler } => {
                self.associations.remove_handler(mime, handler);
                true
            },
            _ => false,
        }
    }
}

/// Whether the command changes the associations.
pub open spec fn changes(command: &Cmd) -> bool {
    command is SetDefault || command is Add || command is Unset || command is Remove
}

impl ConfigView {
    /// What one invocation knows after a command.
    pub open spec fn updated(self, command: &Cmd) -> ConfigView {
        ConfigView {
            associations: match command {
                Cmd::SetDefault { mime, handler } => self.associations.set(
                    mime@,
                    handler@,
                    self.expand_wildcards,
                    self.known,
                ),
                Cmd::Add { mime, handler } => self.associations.add(
                    self.system_apps,
                    mime@,
                    handler@,
                    self.expand_wildcards,
                    self.known,
                ),
                Cmd::Unset { mime } => self.associations.unset(mime@),
                Cmd::Remove { mime, handler } => self.associations.remove(mime@, handler@),
                _ => self.associations,
            },
            ..self
        }
    }
}

} // verus!
