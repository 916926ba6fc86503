use handlr_regex::associations::AssociationsFile;
use handlr_regex::config::{Config, HandlerInfo};
use handlr_regex::desktop_entry::DesktopEntry;
use handlr_regex::error::Error;
use handlr_regex::layer::Layer;
use handlr_regex::mime_types::MimeType;
use handlr_regex::system::{absorb, note, system_apps};

fn mime(s: &str) -> MimeType {
    MimeType::from_essence(s).unwrap()
}

fn ids(list: &[&str]) -> Vec<String> {
    list.iter().map(|s| s.to_string()).collect()
}

fn entry(id: &str, template: &str, terminal: bool, mimes: &[&str]) -> DesktopEntry {
    DesktopEntry {
        id: id.to_owned(),
        path: id.to_owned(),
        name: id.trim_end_matches(".desktop").to_uppercase(),
        exec_template: template.to_owned(),
        terminal,
        mime_types: mimes.iter().map(|m| mime(m)).collect(),
    }
}

#[test]
fn system_defaults_are_what_the_entries_declare() {
    let entries = vec![
        entry("vim.desktop", "vim %F", true, &["text/plain", "text/x-c", "text/plain"]),
        entry("gedit.desktop", "gedit %U", false, &["text/plain"]),
        entry("imv.desktop", "imv %F", false, &[]),
        entry("vim.desktop", "vim %F", true, &["text/plain", "text/x-rust"]),
    ];
    let layer = system_apps(&entries);
    assert_eq!(layer.len(), 3);
    assert_eq!(layer.listed(&mime("text/plain")), ids(&["vim.desktop", "gedit.desktop"]));
    assert_eq!(layer.listed(&mime("text/x-c")), ids(&["vim.desktop"]));
    assert_eq!(layer.listed(&mime("text/x-rust")), ids(&["vim.desktop"]));
    assert_eq!(system_apps(&Vec::new()).len(), 0);
}

#[test]
fn a_handler_is_noted_once() {
    let mut layer = Layer::new();
    note(&mut layer, &mime("a/b"), &"x.desktop".to_owned());
    note(&mut layer, &mime("a/b"), &"y.desktop".to_owned());
    note(&mut layer, &mime("a/b"), &"x.desktop".to_owned());
    assert_eq!(layer.listed(&mime("a/b")), ids(&["x.desktop", "y.desktop"]));
}

#[test]
fn layers_are_taken_together() {
    let mut first = Layer::new();
    first.put(mime("text/plain"), ids(&["a.desktop", "b.desktop"]));
    first.put(mime("text/html"), ids(&["c.desktop"]));
    let mut second = Layer::new();
    second.put(mime("text/plain"), ids(&["b.desktop", "d.desktop", "a.desktop"]));
    second.put(mime("image/png"), ids(&["e.desktop", "e.desktop"]));
    absorb(&mut first, &second);
    assert_eq!(first.len(), 3);
    assert_eq!(
        first.listed(&mime("text/plain")),
        ids(&["a.desktop", "b.desktop", "d.desktop"])
    );
    assert_eq!(first.listed(&mime("text/html")), ids(&["c.desktop"]));
    assert_eq!(first.listed(&mime("image/png")), ids(&["e.desktop"]));
    absorb(&mut first, &Layer::new());
    assert_eq!(first.len(), 3);
}

#[test]
fn rows_give_the_entries_as_text() {
    let mut layer = Layer::new();
    layer.put(mime("text/plain"), ids(&["a.desktop", "b.desktop"]));
    layer.put(mime("image/*"), ids(&["c.desktop"]));
    assert_eq!(
        layer.rows(),
        vec![
            ("image/*".to_owned(), ids(&["c.desktop"])),
            ("text/plain".to_owned(), ids(&["a.desktop", "b.desktop"]))
        ]
    );
    assert!(Layer::new().rows().is_empty());
}

#[test]
fn handler_is_shown_with_its_command() {
    let mut c = Config {
        associations: AssociationsFile::new(),
        system_apps: Layer::new(),
        handlers: Vec::new(),
        entries: vec![
            entry("helix.desktop", "hx %F", true, &[]),
            entry("gedit.desktop", "gedit --new-window %U", false, &[]),
            entry("kitty.desktop", "kitty", false, &[]),
        ],
        known_mimes: Vec::new(),
        enable_selector: false,
        selector: "rofi".to_owned(),
        term_exec_args: Some("-e".to_owned()),
        expand_wildcards: false,
        terminal_output: false,
    };
    assert_eq!(
        c.show_handler(&"gedit.desktop".to_owned()),
        Ok(HandlerInfo {
            cmd: "gedit --new-window".to_owned(),
            handler: "gedit.desktop".to_owned(),
            name: "GEDIT".to_owned(),
        })
    );
    assert_eq!(c.show_handler(&"helix.desktop".to_owned()), Err(Error::NoTerminal));
    c.associations.set_handler(&MimeType::terminal(), &"kitty.desktop".to_owned(), false, &Vec::new());
    assert_eq!(
        c.show_handler(&"helix.desktop".to_owned()),
        Ok(HandlerInfo {
            cmd: "kitty -e hx".to_owned(),
            handler: "helix.desktop".to_owned(),
            name: "HELIX".to_owned(),
        })
    );
    assert_eq!(
        c.show_handler(&"ghost.desktop".to_owned()),
        Err(Error::NotFound("ghost.desktop".to_owned()))
    );
}
