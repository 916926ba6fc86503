use handlr_regex::associations::AssociationsFile;
use handlr_regex::cli::{Cmd, SelectorArgs};
use handlr_regex::config::{wrap, Action, Config, Event, Request};
use handlr_regex::desktop_entry::DesktopEntry;
use handlr_regex::error::Error;
use handlr_regex::layer::Layer;
use handlr_regex::mime_types::MimeType;
use handlr_regex::resolver::RegexHandler;
use handlr_regex::selector::Selection;

fn mime(s: &str) -> MimeType {
    MimeType::from_essence(s).unwrap()
}

fn ids(list: &[&str]) -> Vec<String> {
    list.iter().map(|s| s.to_string()).collect()
}

fn entry(id: &str, name: &str, template: &str, terminal: bool) -> DesktopEntry {
    DesktopEntry {
        id: id.to_owned(),
        path: format!("/usr/share/applications/{}", id),
        name: name.to_owned(),
        exec_template: template.to_owned(),
        terminal,
        mime_types: Vec::new(),
    }
}

fn config() -> Config {
    Config {
        associations: AssociationsFile::new(),
        system_apps: Layer::new(),
        handlers: Vec::new(),
        entries: vec![
            entry("vim.desktop", "Vim", "vim %F", true),
            entry("gedit.desktop", "Text Editor", "gedit %U", false),
            entry("kitty.desktop", "kitty", "kitty", false),
            entry("mpv.desktop", "mpv Media Player", "mpv --player-operation-mode=pseudo-gui -- %U", false),
            entry("broken.desktop", "Broken", "sh -c 'unclosed", false),
            entry("vim.desktop", "Second Vim", "never", false),
        ],
        known_mimes: vec![mime("image/png"), mime("image/jpeg"), mime("text/plain")],
        enable_selector: false,
        selector: "rofi -dmenu -i -p 'Open With: '".to_owned(),
        term_exec_args: Some("-e".to_owned()),
        expand_wildcards: false,
        terminal_output: false,
    }
}

fn request(mime_type: &str, args: &[&str]) -> Request {
    Request { mime: mime(mime_type), path: None, args: ids(args) }
}

#[test]
fn empty_associations_resolve_to_the_system_default() {
    let mut c = config();
    c.system_apps.put(mime("text/plain"), ids(&["vim.desktop"]));
    assert_eq!(c.candidates(&mime("text/plain"), None), Ok(ids(&["vim.desktop"])));
    assert_eq!(
        c.get_handler(&mime("text/plain"), None, &Event::Begin),
        Ok(Selection::Chosen("vim.desktop".to_owned()))
    );
}

#[test]
fn set_of_an_expanded_wildcard_sets_each_known_subtype() {
    let mut c = config();
    c.expand_wildcards = true;
    let changed = c.update(&Cmd::SetDefault {
        mime: mime("image/*"),
        handler: "viewer.desktop".to_owned(),
    });
    assert!(changed);
    assert_eq!(c.associations.default_apps.listed(&mime("image/png")), ids(&["viewer.desktop"]));
    assert_eq!(c.associations.default_apps.listed(&mime("image/jpeg")), ids(&["viewer.desktop"]));
    assert!(!c.associations.default_apps.contains(&mime("image/*")));
    assert_eq!(c.associations.default_apps.len(), 2);
}

#[test]
fn terminal_program_without_terminal_handler_fails() {
    let c = config();
    let vim = c.entry(&"vim.desktop".to_owned()).unwrap().clone();
    assert_eq!(c.launch_plan(&vim, &ids(&["a.txt"])), Err(Error::NoTerminal));
    assert_eq!(c.launch_handler(&"vim.desktop".to_owned(), &ids(&["a.txt"])), Err(Error::NoTerminal));
    assert_eq!(c.terminal_words(), Err(Error::NoTerminal));
}

#[test]
fn terminal_program_is_wrapped_in_the_terminal() {
    let mut c = config();
    c.associations.set_handler(&MimeType::terminal(), &"kitty.desktop".to_owned(), false, &Vec::new());
    assert_eq!(c.terminal_words(), Ok(ids(&["kitty", "-e"])));
    assert_eq!(
        c.launch_handler(&"vim.desktop".to_owned(), &ids(&["a.txt", "b.txt"])),
        Ok(vec![ids(&["kitty", "-e", "vim", "a.txt", "b.txt"])])
    );
    c.term_exec_args = None;
    assert_eq!(
        c.launch_handler(&"vim.desktop".to_owned(), &ids(&["a.txt"])),
        Ok(vec![ids(&["kitty", "vim", "a.txt"])])
    );
    c.term_exec_args = Some("--hold -e".to_owned());
    assert_eq!(c.terminal_words(), Ok(ids(&["kitty", "--hold", "-e"])));
    c.term_exec_args = Some("'".to_owned());
    assert_eq!(c.terminal_words(), Err(Error::BadCmd("'".to_owned())));
}

#[test]
fn terminal_program_is_run_directly_in_a_terminal() {
    let mut c = config();
    c.terminal_output = true;
    assert_eq!(
        c.launch_handler(&"vim.desktop".to_owned(), &ids(&["a.txt"])),
        Ok(vec![ids(&["vim", "a.txt"])])
    );
}

#[test]
fn terminal_handler_without_entry_or_with_bad_template_fails() {
    let mut c = config();
    c.associations.set_handler(&MimeType::terminal(), &"ghost.desktop".to_owned(), false, &Vec::new());
    assert_eq!(c.terminal_words(), Err(Error::NoTerminal));
    c.associations.set_handler(&MimeType::terminal(), &"broken.desktop".to_owned(), false, &Vec::new());
    assert_eq!(
        c.terminal_words(),
        Err(Error::BadExec("sh -c 'unclosed".to_owned(), "broken.desktop".to_owned()))
    );
}

#[test]
fn bad_template_is_bad_exec() {
    let c = config();
    assert_eq!(
        c.launch_handler(&"broken.desktop".to_owned(), &Vec::new()),
        Err(Error::BadExec("sh -c 'unclosed".to_owned(), "broken.desktop".to_owned()))
    );
    let empty = entry("empty.desktop", "Empty", "", false);
    assert_eq!(
        c.launch_plan(&empty, &Vec::new()),
        Err(Error::BadExec("".to_owned(), "empty.desktop".to_owned()))
    );
    let icon_only = entry("icon.desktop", "Icon", "%i", false);
    assert_eq!(
        c.launch_plan(&icon_only, &Vec::new()),
        Err(Error::BadExec("%i".to_owned(), "icon.desktop".to_owned()))
    );
}

#[test]
fn handler_without_entry_is_not_found() {
    let c = config();
    assert_eq!(
        c.launch_handler(&"ghost.desktop".to_owned(), &Vec::new()),
        Err(Error::NotFound("ghost.desktop".to_owned()))
    );
    assert!(c.entry(&"ghost.desktop".to_owned()).is_none());
    assert_eq!(c.entry(&"vim.desktop".to_owned()).unwrap().name, "Vim");
}

#[test]
fn names_fall_back_to_the_id() {
    let c = config();
    assert_eq!(
        c.names_of(&ids(&["gedit.desktop", "ghost.desktop", "vim.desktop"])),
        ids(&["Text Editor", "ghost.desktop", "Vim"])
    );
}

#[test]
fn request_with_one_candidate_is_spawned_at_once() {
    let mut c = config();
    c.enable_selector = true;
    c.system_apps.put(mime("text/plain"), ids(&["gedit.desktop"]));
    assert_eq!(
        c.step(&request("text/plain", &["a.txt", "b.txt"]), &Event::Begin),
        Action::Spawn(vec![ids(&["gedit", "a.txt", "b.txt"])])
    );
}

#[test]
fn request_without_candidate_fails_with_not_found() {
    let c = config();
    assert_eq!(
        c.step(&request("text/plain", &[]), &Event::Begin),
        Action::Fail(Error::NotFound("text/plain".to_owned()))
    );
    assert_eq!(
        c.step(
            &request("text/plain", &[]),
            &Event::Answer { success: false, output: "".to_owned() }
        ),
        Action::Fail(Error::NotFound("text/plain".to_owned()))
    );
}

#[test]
fn request_with_several_candidates_takes_the_first_where_selection_is_disabled() {
    let mut c = config();
    c.associations.default_apps.put(mime("video/mp4"), ids(&["mpv.desktop", "gedit.desktop"]));
    assert_eq!(
        c.step(&request("video/mp4", &["a.mp4"]), &Event::Begin),
        Action::Spawn(vec![ids(&[
            "mpv",
            "--player-operation-mode=pseudo-gui",
            "--",
            "a.mp4"
        ])])
    );
}

#[test]
fn request_with_several_candidates_goes_through_the_selector() {
    let mut c = config();
    c.enable_selector = true;
    c.associations.default_apps.put(mime("text/plain"), ids(&["gedit.desktop", "mpv.desktop"]));
    let r = request("text/plain", &["a.txt"]);
    assert_eq!(
        c.step(&r, &Event::Begin),
        Action::Ask {
            command: ids(&["rofi", "-dmenu", "-i", "-p", "Open With: "]),
            input: "Text Editor\nmpv Media Player".to_owned(),
        }
    );
    assert_eq!(
        c.step(&r, &Event::Answer { success: true, output: "mpv Media Player\n".to_owned() }),
        Action::Spawn(vec![ids(&["mpv", "--player-operation-mode=pseudo-gui", "--", "a.txt"])])
    );
}

#[test]
fn cancelled_selection_spawns_nothing() {
    let mut c = config();
    c.enable_selector = true;
    c.associations.default_apps.put(mime("text/plain"), ids(&["gedit.desktop", "mpv.desktop"]));
    let r = request("text/plain", &["a.txt"]);
    assert_eq!(
        c.step(&r, &Event::Answer { success: false, output: "Text Editor\n".to_owned() }),
        Action::Fail(Error::Cancelled)
    );
    assert_eq!(
        c.step(&r, &Event::Answer { success: true, output: "Something Else\n".to_owned() }),
        Action::Fail(Error::Cancelled)
    );
    assert_eq!(
        c.step(&r, &Event::Answer { success: true, output: "".to_owned() }),
        Action::Fail(Error::Cancelled)
    );
    assert_eq!(
        c.step(&r, &Event::NoSelector),
        Action::Fail(Error::Selector("rofi -dmenu -i -p 'Open With: '".to_owned()))
    );
}

#[test]
fn request_for_a_path_takes_regex_handlers_in() {
    let mut c = config();
    c.system_apps.put(mime("x-scheme-handler/https"), ids(&["gedit.desktop"]));
    c.handlers.push(RegexHandler::new(r"youtu(be\.com|\.be)", "mpv.desktop").unwrap());
    let r = Request {
        mime: mime("x-scheme-handler/https"),
        path: Some("https://youtu.be/x".to_owned()),
        args: ids(&["https://youtu.be/x"]),
    };
    assert_eq!(
        c.step(&r, &Event::Begin),
        Action::Spawn(vec![ids(&[
            "mpv",
            "--player-operation-mode=pseudo-gui",
            "--",
            "https://youtu.be/x"
        ])])
    );
}

#[test]
fn selector_flags_override_the_settings() {
    let mut c = config();
    c.override_selector(SelectorArgs { selector: None, enable_selector: None });
    assert!(!c.enable_selector);
    assert_eq!(c.selector, "rofi -dmenu -i -p 'Open With: '");
    c.override_selector(SelectorArgs { selector: Some("fzf".to_owned()), enable_selector: None });
    assert!(!c.enable_selector);
    assert_eq!(c.selector, "fzf");
    c.override_selector(SelectorArgs { selector: None, enable_selector: Some(true) });
    assert!(c.enable_selector);
    assert_eq!(c.selector, "fzf");
}

#[test]
fn commands_that_change_the_associations_are_carried_out() {
    let mut c = config();
    c.system_apps.put(mime("text/plain"), ids(&["system.desktop"]));
    assert!(c.update(&Cmd::SetDefault { mime: mime("text/plain"), handler: "vim.desktop".to_owned() }));
    assert!(c.update(&Cmd::Add { mime: mime("text/plain"), handler: "gedit.desktop".to_owned() }));
    assert!(c.update(&Cmd::Add { mime: mime("text/plain"), handler: "system.desktop".to_owned() }));
    assert_eq!(
        c.candidates(&mime("text/plain"), None),
        Ok(ids(&["vim.desktop", "gedit.desktop", "system.desktop"]))
    );
    assert_eq!(c.associations.added_associations.listed(&mime("text/plain")), ids(&["gedit.desktop"]));
    assert!(c.update(&Cmd::Remove { mime: mime("text/plain"), handler: "vim.desktop".to_owned() }));
    assert_eq!(
        c.candidates(&mime("text/plain"), None),
        Ok(ids(&["gedit.desktop", "system.desktop"]))
    );
    assert!(c.update(&Cmd::Unset { mime: mime("text/plain") }));
    assert_eq!(c.candidates(&mime("text/plain"), None), Ok(ids(&["system.desktop"])));
}

#[test]
fn other_commands_change_nothing() {
    let mut c = config();
    assert!(!c.update(&Cmd::List { json: false, all: true }));
    assert!(!c.update(&Cmd::Mime { paths: Vec::new(), json: true }));
    assert!(!c.update(&Cmd::Open {
        paths: Vec::new(),
        selector_args: SelectorArgs { selector: None, enable_selector: None },
    }));
    assert!(!c.update(&Cmd::Get {
        json: false,
        mime: mime("text/plain"),
        selector_args: SelectorArgs { selector: None, enable_selector: None },
    }));
    assert!(!c.update(&Cmd::Launch {
        mime: mime("text/plain"),
        args: Vec::new(),
        selector_args: SelectorArgs { selector: None, enable_selector: None },
    }));
    assert_eq!(c.associations.default_apps.len(), 0);
    assert_eq!(c.associations.added_associations.len(), 0);
}

#[test]
fn prefix_goes_before_each_command() {
    assert_eq!(
        wrap(&ids(&["kitty", "-e"]), &vec![ids(&["vim", "a"]), ids(&["vim", "b"])]),
        vec![ids(&["kitty", "-e", "vim", "a"]), ids(&["kitty", "-e", "vim", "b"])]
    );
    assert!(wrap(&ids(&["kitty"]), &Vec::new()).is_empty());
}
