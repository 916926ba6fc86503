use handlr_regex::associations::AssociationsFile;
use handlr_regex::desktop_entry::{declared_mimes, DesktopEntry};
use handlr_regex::error::Error;
use handlr_regex::ini::{line_of, pairs_of, value_of, Line};
use handlr_regex::mime_types::MimeType;
use handlr_regex::mimeapps::layer_from;

fn mime(s: &str) -> MimeType {
    MimeType::from_essence(s).unwrap()
}

fn ids(list: &[&str]) -> Vec<String> {
    list.iter().map(|s| s.to_string()).collect()
}

fn pair(k: &str, v: &str) -> (String, String) {
    (k.to_owned(), v.to_owned())
}

const HELIX: &str = "[Desktop Entry]
Name=Helix
GenericName=Text Editor
Name[fr]=Hélix
Comment=Edit text files
# a comment
Exec=hx %F
Terminal=true
Type=Application
Icon=helix
MimeType=text/english;text/plain;nonsense;text/x-makefile;;Text/X-Rust;

[Desktop Action new]
Name=New Window
Exec=hx --new
";

#[test]
fn desktop_entry_is_read_from_its_section() {
    let entry = DesktopEntry::parse("Helix.desktop", "/apps/Helix.desktop", HELIX).unwrap();
    assert_eq!(entry.id, "Helix.desktop");
    assert_eq!(entry.path, "/apps/Helix.desktop");
    assert_eq!(entry.name, "Helix");
    assert_eq!(entry.exec_template, "hx %F");
    assert!(entry.terminal);
    let mimes: Vec<String> = entry.mime_types.iter().map(|m| m.to_string()).collect();
    assert_eq!(mimes, ids(&["text/english", "text/plain", "text/x-makefile", "text/x-rust"]));
}

#[test]
fn desktop_entry_without_terminal_or_mimes() {
    let entry =
        DesktopEntry::parse("a.desktop", "a.desktop", "[Desktop Entry]\nExec = a \nName = A\n")
            .unwrap();
    assert_eq!(entry.name, "A");
    assert_eq!(entry.exec_template, "a");
    assert!(!entry.terminal);
    assert!(entry.mime_types.is_empty());
    let other = DesktopEntry::parse(
        "a.desktop",
        "a.desktop",
        "[Desktop Entry]\nExec=a\nName=A\nTerminal=True\n",
    )
    .unwrap();
    assert!(!other.terminal);
}

#[test]
fn desktop_entry_without_name_or_command_is_malformed() {
    let bad = Err(Error::BadEntry("/apps/x.desktop".to_owned()));
    assert_eq!(DesktopEntry::parse("x.desktop", "/apps/x.desktop", ""), bad);
    assert_eq!(DesktopEntry::parse("x.desktop", "/apps/x.desktop", "[Desktop Entry]\nName=X\n"), bad);
    assert_eq!(DesktopEntry::parse("x.desktop", "/apps/x.desktop", "[Desktop Entry]\nExec=x\n"), bad);
    assert_eq!(
        DesktopEntry::parse("x.desktop", "/apps/x.desktop", "[Desktop Entry]\nName=\nExec=x\n"),
        bad
    );
    assert_eq!(
        DesktopEntry::parse("x.desktop", "/apps/x.desktop", "[Desktop Entry]\nName=X\nExec=\n"),
        bad
    );
    assert_eq!(DesktopEntry::parse("x.desktop", "/apps/x.desktop", "Name=X\nExec=x\n"), bad);
    assert_eq!(
        DesktopEntry::parse("x.desktop", "/apps/x.desktop", "[Other]\nName=X\nExec=x\n"),
        bad
    );
}

#[test]
fn first_value_of_a_key_counts() {
    let entry = DesktopEntry::parse(
        "x.desktop",
        "x.desktop",
        "[Desktop Entry]\nName=One\nName=Two\nExec=one\n[Desktop Entry]\nExec=two\n",
    )
    .unwrap();
    assert_eq!(entry.name, "One");
    assert_eq!(entry.exec_template, "one");
}

#[test]
fn declared_mimes_pass_over_what_is_none() {
    let mimes: Vec<String> =
        declared_mimes(";a/b;;c; D/E ;/;f/").iter().map(|m| m.to_string()).collect();
    assert_eq!(mimes, ids(&["a/b", "d/e"]));
    assert!(declared_mimes("").is_empty());
}

#[test]
fn lines_are_told_apart() {
    assert_eq!(line_of(&"[Desktop Entry]".to_owned()), Line::Header("Desktop Entry".to_owned()));
    assert_eq!(line_of(&"  [A]  ".to_owned()), Line::Header("A".to_owned()));
    assert_eq!(line_of(&"[]".to_owned()), Line::Header("".to_owned()));
    assert_eq!(line_of(&"[".to_owned()), Line::Other);
    assert_eq!(line_of(&"[A".to_owned()), Line::Other);
    assert_eq!(line_of(&"# [A]".to_owned()), Line::Other);
    assert_eq!(line_of(&"".to_owned()), Line::Other);
    assert_eq!(line_of(&"   ".to_owned()), Line::Other);
    assert_eq!(line_of(&"word".to_owned()), Line::Other);
    assert_eq!(line_of(&"a=b".to_owned()), Line::Pair("a".to_owned(), "b".to_owned()));
    assert_eq!(line_of(&" a = b = c ".to_owned()), Line::Pair("a".to_owned(), "b = c".to_owned()));
    assert_eq!(line_of(&"a=".to_owned()), Line::Pair("a".to_owned(), "".to_owned()));
    assert_eq!(line_of(&"=b".to_owned()), Line::Pair("".to_owned(), "b".to_owned()));
}

#[test]
fn pairs_of_a_section_come_in_order() {
    let text = "a=0\n[S]\nb=1\n\n#c=2\n[T]\nd=3\n[S]\ne=4\r\nb=5";
    assert_eq!(pairs_of(text, "S"), vec![pair("b", "1"), pair("e", "4"), pair("b", "5")]);
    assert_eq!(pairs_of(text, "T"), vec![pair("d", "3")]);
    assert!(pairs_of(text, "U").is_empty());
    assert!(pairs_of(text, "").is_empty());
    let pairs = pairs_of(text, "S");
    assert_eq!(value_of(&pairs, "b"), Some(&"1".to_owned()));
    assert_eq!(value_of(&pairs, "e"), Some(&"4".to_owned()));
    assert_eq!(value_of(&pairs, "d"), None);
}

const MIMEAPPS: &str = "[Default Applications]
text/plain=helix.desktop;
x-scheme-handler/https=firefox.desktop; nyxt.desktop ; ;firefox.desktop
Text/HTML = firefox.desktop ;
broken=never.desktop;
empty/list=

[Added Associations]
text/plain=nvim.desktop;helix.desktop;
text/plain=emacs.desktop;

[Removed Associations]
image/png=gimp.desktop;
";

#[test]
fn association_file_is_read_into_its_layers() {
    let a = AssociationsFile::parse(MIMEAPPS);
    assert_eq!(a.default_apps.len(), 4);
    assert_eq!(a.default_apps.listed(&mime("text/plain")), ids(&["helix.desktop"]));
    assert_eq!(
        a.default_apps.listed(&mime("x-scheme-handler/https")),
        ids(&["firefox.desktop", "nyxt.desktop"])
    );
    assert_eq!(a.default_apps.listed(&mime("text/html")), ids(&["firefox.desktop"]));
    assert!(a.default_apps.contains(&mime("empty/list")));
    assert!(a.default_apps.listed(&mime("empty/list")).is_empty());
    assert_eq!(a.added_associations.len(), 1);
    assert_eq!(a.added_associations.listed(&mime("text/plain")), ids(&["emacs.desktop"]));
    assert_eq!(a.removed_associations.listed(&mime("image/png")), ids(&["gimp.desktop"]));
}

#[test]
fn empty_file_gives_empty_associations() {
    let a = AssociationsFile::parse("");
    assert_eq!(a.default_apps.len(), 0);
    assert_eq!(a.added_associations.len(), 0);
    assert_eq!(a.removed_associations.len(), 0);
}

#[test]
fn associations_are_written_section_by_section() {
    let mut a = AssociationsFile::new();
    a.default_apps.put(mime("text/plain"), ids(&["helix.desktop"]));
    a.default_apps.put(mime("x-scheme-handler/https"), ids(&["firefox.desktop", "nyxt.desktop"]));
    a.added_associations.put(mime("text/*"), ids(&["nvim.desktop"]));
    assert_eq!(
        a.render(),
        "[Added Associations]\ntext/*=nvim.desktop;\n\n[Default Applications]\n\
         text/plain=helix.desktop;\nx-scheme-handler/https=firefox.desktop;nyxt.desktop;\n\n\
         [Removed Associations]\n\n"
    );
    assert_eq!(
        AssociationsFile::new().render(),
        "[Added Associations]\n\n[Default Applications]\n\n[Removed Associations]\n\n"
    );
}

#[test]
fn what_is_written_is_read_back() {
    let mut a = AssociationsFile::new();
    a.default_apps.put(mime("text/plain"), ids(&["helix.desktop"]));
    a.default_apps.put(mime("image/*"), ids(&["imv.desktop", "gimp.desktop"]));
    a.added_associations.put(mime("text/plain"), ids(&["nvim.desktop"]));
    a.removed_associations.put(mime("text/plain"), ids(&["ed.desktop"]));
    let b = AssociationsFile::parse(&a.render());
    assert_eq!(b.render(), a.render());
    assert_eq!(b.default_apps.listed(&mime("image/*")), ids(&["imv.desktop", "gimp.desktop"]));
    assert_eq!(b.removed_associations.listed(&mime("text/plain")), ids(&["ed.desktop"]));
}

#[test]
fn system_defaults_are_read_from_any_section() {
    let cache = "[MIME Cache]\napplication/pdf=zathura.desktop;evince.desktop;\n";
    let layer = layer_from(cache, "MIME Cache");
    assert_eq!(layer.listed(&mime("application/pdf")), ids(&["zathura.desktop", "evince.desktop"]));
    assert_eq!(layer_from(cache, "Default Applications").len(), 0);
}
