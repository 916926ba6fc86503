use handlr_regex::associations::AssociationsFile;
use handlr_regex::error::Error;
use handlr_regex::layer::Layer;
use handlr_regex::lists::{
    allowed_of, contains, copy, distinct_of, extend, index_of, sorted_of, without_id,
};
use handlr_regex::mime_types::MimeType;
use handlr_regex::resolver::{
    candidates_of, matching_handlers, resolve, resolve_with, RegexHandler,
};

fn mime(s: &str) -> MimeType {
    MimeType::from_essence(s).unwrap()
}

fn ids(list: &[&str]) -> Vec<String> {
    list.iter().map(|s| s.to_string()).collect()
}

#[test]
fn system_default_is_found_where_the_user_set_nothing() {
    let a = AssociationsFile::new();
    let mut system = Layer::new();
    system.put(mime("text/plain"), ids(&["vim.desktop"]));
    let found = resolve(&a, &system, &Vec::new(), &mime("text/plain"), None).unwrap();
    assert_eq!(found, ids(&["vim.desktop"]));
}

#[test]
fn nothing_known_is_not_found() {
    let a = AssociationsFile::new();
    let system = Layer::new();
    assert_eq!(
        resolve(&a, &system, &Vec::new(), &mime("text/plain"), None),
        Err(Error::NotFound("text/plain".to_owned()))
    );
}

#[test]
fn defaults_come_before_added_and_both_before_the_rest() {
    let mut a = AssociationsFile::new();
    let mut system = Layer::new();
    a.added_associations.put(mime("text/plain"), ids(&["added.desktop"]));
    a.default_apps.put(mime("text/plain"), ids(&["first.desktop", "second.desktop"]));
    a.default_apps.put(mime("text/*"), ids(&["wide.desktop"]));
    system.put(mime("text/plain"), ids(&["system.desktop"]));
    let found = candidates_of(&a, &system, &ids(&["regex.desktop"]), &mime("text/plain"));
    assert_eq!(
        found,
        ids(&["first.desktop", "second.desktop", "added.desktop", "regex.desktop", "system.desktop"])
    );
}

#[test]
fn wildcard_entries_stand_in_where_there_are_no_literal_ones() {
    let mut a = AssociationsFile::new();
    let mut system = Layer::new();
    a.default_apps.put(mime("text/*"), ids(&["wide.desktop"]));
    a.added_associations.put(mime("text/*"), ids(&["wider.desktop"]));
    system.put(mime("text/plain"), ids(&["system.desktop"]));
    system.put(mime("text/*"), ids(&["never.desktop"]));
    let found = candidates_of(&a, &system, &Vec::new(), &mime("text/plain"));
    assert_eq!(found, ids(&["wide.desktop", "wider.desktop", "system.desktop"]));
    let wild = candidates_of(&a, &system, &Vec::new(), &mime("text/*"));
    assert_eq!(wild, ids(&["wide.desktop", "wider.desktop", "never.desktop"]));
    assert!(candidates_of(&a, &system, &Vec::new(), &mime("image/png")).is_empty());
}

#[test]
fn removed_handlers_are_left_out_of_every_source() {
    let mut a = AssociationsFile::new();
    let mut system = Layer::new();
    a.default_apps.put(mime("text/plain"), ids(&["gone.desktop"]));
    a.default_apps.put(mime("text/*"), ids(&["gone.desktop", "wide.desktop"]));
    a.removed_associations.put(mime("text/plain"), ids(&["gone.desktop"]));
    a.removed_associations.put(mime("text/html"), ids(&["wide.desktop"]));
    system.put(mime("text/plain"), ids(&["gone.desktop", "system.desktop"]));
    let found =
        candidates_of(&a, &system, &ids(&["gone.desktop", "regex.desktop"]), &mime("text/plain"));
    assert_eq!(found, ids(&["wide.desktop", "regex.desktop", "system.desktop"]));
}

#[test]
fn a_handler_counts_where_it_comes_first() {
    let mut a = AssociationsFile::new();
    let mut system = Layer::new();
    a.default_apps.put(mime("text/plain"), ids(&["a.desktop", "b.desktop"]));
    a.added_associations.put(mime("text/plain"), ids(&["b.desktop", "c.desktop", "a.desktop"]));
    system.put(mime("text/plain"), ids(&["c.desktop", "d.desktop"]));
    let found = candidates_of(&a, &system, &ids(&["d.desktop", "a.desktop"]), &mime("text/plain"));
    assert_eq!(found, ids(&["a.desktop", "b.desktop", "c.desktop", "d.desktop"]));
}

#[test]
fn regex_handlers_take_part_where_a_path_is_at_hand() {
    let a = AssociationsFile::new();
    let mut system = Layer::new();
    system.put(mime("x-scheme-handler/https"), ids(&["firefox.desktop"]));
    let handlers = vec![
        RegexHandler::new(r"(https://)?(www\.)?youtu(be\.com|\.be)/*", "mpv.desktop").unwrap(),
        RegexHandler::new(r"^https://.*\.pdf$", "zathura.desktop").unwrap(),
    ];
    let target = mime("x-scheme-handler/https");
    assert_eq!(
        resolve(&a, &system, &handlers, &target, Some("https://youtu.be/abc")).unwrap(),
        ids(&["mpv.desktop", "firefox.desktop"])
    );
    assert_eq!(
        resolve(&a, &system, &handlers, &target, Some("https://example.org/a.pdf")).unwrap(),
        ids(&["zathura.desktop", "firefox.desktop"])
    );
    assert_eq!(
        resolve(&a, &system, &handlers, &target, Some("https://example.org/")).unwrap(),
        ids(&["firefox.desktop"])
    );
    assert_eq!(
        resolve(&a, &system, &handlers, &target, None).unwrap(),
        ids(&["firefox.desktop"])
    );
}

#[test]
fn regex_match_alone_is_enough() {
    let a = AssociationsFile::new();
    let system = Layer::new();
    let handlers = vec![RegexHandler::new(r"\.txt$", "vim.desktop").unwrap()];
    assert_eq!(
        resolve(&a, &system, &handlers, &mime("text/plain"), Some("notes.txt")).unwrap(),
        ids(&["vim.desktop"])
    );
    assert!(resolve_with(&a, &system, &Vec::new(), &mime("text/plain")).is_err());
}

#[test]
fn bad_pattern_is_refused_and_matches_nothing() {
    assert_eq!(
        RegexHandler::new("(unclosed", "x.desktop"),
        Err(Error::BadRegex("(unclosed".to_owned()))
    );
    let broken = RegexHandler { pattern: "(unclosed".to_owned(), handler: "x.desktop".to_owned() };
    assert!(!broken.hits("(unclosed"));
    let fine = RegexHandler::new("^a+$", "a.desktop").unwrap();
    assert!(fine.hits("aaa"));
    assert!(!fine.hits("aab"));
    assert_eq!(matching_handlers(&vec![broken, fine], "aa"), ids(&["a.desktop"]));
}

#[test]
fn lists_are_filtered_and_freed_of_repetitions_in_order() {
    let list = ids(&["a", "b", "a", "c", "b", "d"]);
    assert_eq!(distinct_of(&list), ids(&["a", "b", "c", "d"]));
    assert_eq!(allowed_of(&list, &ids(&["b", "x"])), ids(&["a", "a", "c", "d"]));
    assert_eq!(without_id(&list, &"a".to_owned()), ids(&["b", "c", "b", "d"]));
    assert!(contains(&list, &"d".to_owned()));
    assert!(!contains(&list, &"e".to_owned()));
    assert_eq!(index_of(&list, &"b".to_owned()), 1);
    assert_eq!(index_of(&list, &"z".to_owned()), 6);
    assert_eq!(copy(&list), list);
    let mut grown = ids(&["x"]);
    extend(&mut grown, &ids(&["y", "z"]));
    assert_eq!(grown, ids(&["x", "y", "z"]));
    assert!(distinct_of(&Vec::new()).is_empty());
    assert_eq!(
        sorted_of(&ids(&["b", "a", "c", "a", "", "ab", "B"])),
        ids(&["", "B", "a", "a", "ab", "b", "c"])
    );
    assert!(sorted_of(&Vec::new()).is_empty());
}
