use handlr_regex::associations::{expand, AssociationsFile};
use handlr_regex::layer::Layer;
use handlr_regex::mime_types::MimeType;
use handlr_regex::resolver::resolve_with;

fn mime(s: &str) -> MimeType {
    MimeType::from_essence(s).unwrap()
}

fn id(s: &str) -> String {
    s.to_owned()
}

fn ids(list: &[&str]) -> Vec<String> {
    list.iter().map(|s| s.to_string()).collect()
}

fn known() -> Vec<MimeType> {
    vec![mime("image/png"), mime("text/plain"), mime("image/jpeg"), mime("image/*")]
}

#[test]
fn set_writes_the_sole_default() {
    let mut a = AssociationsFile::new();
    a.default_apps.put(mime("text/plain"), ids(&["old.desktop", "older.desktop"]));
    a.set_handler(&mime("text/plain"), &id("vim.desktop"), false, &known());
    assert_eq!(a.default_apps.listed(&mime("text/plain")), ids(&["vim.desktop"]));
    assert_eq!(a.default_apps.len(), 1);
    assert_eq!(a.added_associations.len(), 0);
}

#[test]
fn set_takes_the_handler_out_of_the_removed_ones() {
    let mut a = AssociationsFile::new();
    a.removed_associations.put(mime("text/plain"), ids(&["vim.desktop", "nano.desktop"]));
    a.removed_associations.put(mime("text/html"), ids(&["vim.desktop"]));
    a.set_handler(&mime("text/plain"), &id("vim.desktop"), false, &known());
    assert_eq!(a.removed_associations.listed(&mime("text/plain")), ids(&["nano.desktop"]));
    assert_eq!(a.removed_associations.listed(&mime("text/html")), ids(&["vim.desktop"]));
    a.set_handler(&mime("text/plain"), &id("nano.desktop"), false, &known());
    assert!(!a.removed_associations.contains(&mime("text/plain")));
}

#[test]
fn set_then_resolve_yields_the_handler_first() {
    let mut a = AssociationsFile::new();
    let mut system = Layer::new();
    system.put(mime("text/plain"), ids(&["system.desktop"]));
    a.default_apps.put(mime("text/plain"), ids(&["old.desktop"]));
    a.added_associations.put(mime("text/plain"), ids(&["extra.desktop", "vim.desktop"]));
    a.removed_associations.put(mime("text/plain"), ids(&["vim.desktop"]));
    a.set_handler(&mime("text/plain"), &id("vim.desktop"), false, &known());
    let found = resolve_with(&a, &system, &ids(&["regex.desktop"]), &mime("text/plain")).unwrap();
    assert_eq!(
        found,
        ids(&["vim.desktop", "extra.desktop", "regex.desktop", "system.desktop"])
    );
}

#[test]
fn set_of_a_wildcard_is_stored_as_it_is_without_expansion() {
    let mut a = AssociationsFile::new();
    a.set_handler(&mime("image/*"), &id("viewer.desktop"), false, &known());
    assert_eq!(a.default_apps.listed(&mime("image/*")), ids(&["viewer.desktop"]));
    assert!(!a.default_apps.contains(&mime("image/png")));
}

#[test]
fn set_of_a_wildcard_with_expansion_sets_each_known_subtype() {
    let mut a = AssociationsFile::new();
    a.set_handler(&mime("image/*"), &id("viewer.desktop"), true, &known());
    assert_eq!(a.default_apps.listed(&mime("image/png")), ids(&["viewer.desktop"]));
    assert_eq!(a.default_apps.listed(&mime("image/jpeg")), ids(&["viewer.desktop"]));
    assert!(!a.default_apps.contains(&mime("image/*")));
    assert!(!a.default_apps.contains(&mime("text/plain")));
    assert_eq!(a.default_apps.len(), 2);
}

#[test]
fn expansion_keeps_the_known_order_and_leaves_wildcards_out() {
    let expanded = expand(&mime("image/*"), &known());
    let texts: Vec<String> = expanded.iter().map(|m| m.to_string()).collect();
    assert_eq!(texts, ids(&["image/png", "image/jpeg"]));
    assert!(expand(&mime("video/*"), &known()).is_empty());
}

#[test]
fn add_appends_after_what_was_added() {
    let mut a = AssociationsFile::new();
    let system = Layer::new();
    a.default_apps.put(mime("text/plain"), ids(&["vim.desktop"]));
    a.add_handler(&system, &mime("text/plain"), &id("nano.desktop"), false, &known());
    a.add_handler(&system, &mime("text/plain"), &id("emacs.desktop"), false, &known());
    assert_eq!(a.default_apps.listed(&mime("text/plain")), ids(&["vim.desktop"]));
    assert_eq!(
        a.added_associations.listed(&mime("text/plain")),
        ids(&["nano.desktop", "emacs.desktop"])
    );
}

#[test]
fn add_twice_lists_the_handler_once() {
    let mut a = AssociationsFile::new();
    let system = Layer::new();
    a.add_handler(&system, &mime("text/plain"), &id("nano.desktop"), false, &known());
    a.add_handler(&system, &mime("text/plain"), &id("nano.desktop"), false, &known());
    assert_eq!(a.added_associations.listed(&mime("text/plain")), ids(&["nano.desktop"]));
    let found = resolve_with(&a, &system, &Vec::new(), &mime("text/plain")).unwrap();
    assert_eq!(found.iter().filter(|h| *h == "nano.desktop").count(), 1);
}

#[test]
fn add_leaves_alone_what_stands_for_the_mime_already() {
    let mut a = AssociationsFile::new();
    let mut system = Layer::new();
    system.put(mime("text/plain"), ids(&["system.desktop"]));
    a.default_apps.put(mime("text/*"), ids(&["wide.desktop"]));
    a.add_handler(&system, &mime("text/plain"), &id("system.desktop"), false, &known());
    a.add_handler(&system, &mime("text/plain"), &id("wide.desktop"), false, &known());
    assert!(!a.added_associations.contains(&mime("text/plain")));
}

#[test]
fn add_of_a_removed_handler_is_stored_once_and_stays_excluded() {
    let mut a = AssociationsFile::new();
    let system = Layer::new();
    a.removed_associations.put(mime("text/plain"), ids(&["nano.desktop"]));
    a.add_handler(&system, &mime("text/plain"), &id("nano.desktop"), false, &known());
    a.add_handler(&system, &mime("text/plain"), &id("nano.desktop"), false, &known());
    assert_eq!(a.added_associations.listed(&mime("text/plain")), ids(&["nano.desktop"]));
    assert!(resolve_with(&a, &system, &Vec::new(), &mime("text/plain")).is_err());
}

#[test]
fn add_of_a_wildcard_with_expansion_adds_to_each_known_subtype() {
    let mut a = AssociationsFile::new();
    let system = Layer::new();
    a.add_handler(&system, &mime("image/*"), &id("viewer.desktop"), true, &known());
    assert_eq!(a.added_associations.listed(&mime("image/png")), ids(&["viewer.desktop"]));
    assert_eq!(a.added_associations.listed(&mime("image/jpeg")), ids(&["viewer.desktop"]));
    assert!(!a.added_associations.contains(&mime("image/*")));
}

#[test]
fn unset_after_set_falls_through() {
    let mut a = AssociationsFile::new();
    let mut system = Layer::new();
    a.set_handler(&mime("text/plain"), &id("vim.desktop"), false, &known());
    a.unset_handler(&mime("text/plain"));
    assert!(!a.has_literal(&mime("text/plain")));
    assert_eq!(
        resolve_with(&a, &system, &Vec::new(), &mime("text/plain")),
        Err(handlr_regex::error::Error::NotFound("text/plain".to_owned()))
    );
    system.put(mime("text/plain"), ids(&["system.desktop"]));
    assert_eq!(
        resolve_with(&a, &system, &Vec::new(), &mime("text/plain")).unwrap(),
        ids(&["system.desktop"])
    );
    a.default_apps.put(mime("text/*"), ids(&["wide.desktop"]));
    assert_eq!(
        resolve_with(&a, &system, &Vec::new(), &mime("text/plain")).unwrap(),
        ids(&["wide.desktop", "system.desktop"])
    );
}

#[test]
fn unset_takes_the_entry_from_both_layers() {
    let mut a = AssociationsFile::new();
    a.default_apps.put(mime("text/plain"), ids(&["vim.desktop"]));
    a.added_associations.put(mime("text/plain"), ids(&["nano.desktop"]));
    a.added_associations.put(mime("text/html"), ids(&["firefox.desktop"]));
    a.removed_associations.put(mime("text/plain"), ids(&["ed.desktop"]));
    a.unset_handler(&mime("text/plain"));
    assert!(!a.default_apps.contains(&mime("text/plain")));
    assert!(!a.added_associations.contains(&mime("text/plain")));
    assert_eq!(a.added_associations.listed(&mime("text/html")), ids(&["firefox.desktop"]));
    assert_eq!(a.removed_associations.listed(&mime("text/plain")), ids(&["ed.desktop"]));
}

#[test]
fn unset_of_a_wildcard_takes_the_literal_row_first() {
    let mut a = AssociationsFile::new();
    a.default_apps.put(mime("text/*"), ids(&["wide.desktop"]));
    a.default_apps.put(mime("text/plain"), ids(&["vim.desktop"]));
    a.added_associations.put(mime("text/html"), ids(&["firefox.desktop"]));
    a.unset_handler(&mime("text/*"));
    assert!(!a.default_apps.contains(&mime("text/*")));
    assert_eq!(a.default_apps.listed(&mime("text/plain")), ids(&["vim.desktop"]));
    assert_eq!(a.added_associations.listed(&mime("text/html")), ids(&["firefox.desktop"]));
    a.unset_handler(&mime("text/*"));
    assert!(!a.default_apps.contains(&mime("text/plain")));
    assert!(!a.added_associations.contains(&mime("text/html")));
}

#[test]
fn unset_of_a_wildcard_without_literal_row_takes_what_is_under_it() {
    let mut a = AssociationsFile::new();
    a.default_apps.put(mime("text/plain"), ids(&["vim.desktop"]));
    a.default_apps.put(mime("image/png"), ids(&["viewer.desktop"]));
    a.added_associations.put(mime("text/html"), ids(&["firefox.desktop"]));
    a.unset_handler(&mime("text/*"));
    assert_eq!(a.default_apps.len(), 1);
    assert_eq!(a.default_apps.listed(&mime("image/png")), ids(&["viewer.desktop"]));
    assert_eq!(a.added_associations.len(), 0);
}

#[test]
fn unset_of_a_concrete_mime_without_entry_changes_nothing() {
    let mut a = AssociationsFile::new();
    a.default_apps.put(mime("text/*"), ids(&["wide.desktop"]));
    a.default_apps.put(mime("text/html"), ids(&["firefox.desktop"]));
    a.unset_handler(&mime("text/plain"));
    assert_eq!(a.default_apps.len(), 2);
}

#[test]
fn remove_takes_the_handler_from_both_layers_and_promotes_the_next() {
    let mut a = AssociationsFile::new();
    let system = Layer::new();
    a.default_apps.put(mime("text/plain"), ids(&["vim.desktop", "nano.desktop"]));
    a.added_associations.put(mime("text/plain"), ids(&["vim.desktop", "emacs.desktop"]));
    a.remove_handler(&mime("text/plain"), &id("vim.desktop"));
    assert_eq!(a.default_apps.listed(&mime("text/plain")), ids(&["nano.desktop"]));
    assert_eq!(a.added_associations.listed(&mime("text/plain")), ids(&["emacs.desktop"]));
    let found = resolve_with(&a, &system, &Vec::new(), &mime("text/plain")).unwrap();
    assert_eq!(found, ids(&["nano.desktop", "emacs.desktop"]));
}

#[test]
fn remove_of_the_last_handler_takes_the_row() {
    let mut a = AssociationsFile::new();
    a.default_apps.put(mime("text/plain"), ids(&["vim.desktop"]));
    a.added_associations.put(mime("text/plain"), ids(&["nano.desktop"]));
    a.remove_handler(&mime("text/plain"), &id("vim.desktop"));
    assert!(!a.default_apps.contains(&mime("text/plain")));
    assert_eq!(a.added_associations.listed(&mime("text/plain")), ids(&["nano.desktop"]));
}

#[test]
fn remove_of_a_wildcard_takes_the_literal_row_first() {
    let mut a = AssociationsFile::new();
    a.default_apps.put(mime("text/*"), ids(&["vim.desktop", "nano.desktop"]));
    a.default_apps.put(mime("text/plain"), ids(&["vim.desktop"]));
    a.remove_handler(&mime("text/*"), &id("vim.desktop"));
    assert_eq!(a.default_apps.listed(&mime("text/*")), ids(&["nano.desktop"]));
    assert_eq!(a.default_apps.listed(&mime("text/plain")), ids(&["vim.desktop"]));
}

#[test]
fn remove_of_a_wildcard_without_literal_row_works_on_what_is_under_it() {
    let mut a = AssociationsFile::new();
    a.default_apps.put(mime("text/plain"), ids(&["vim.desktop"]));
    a.default_apps.put(mime("text/html"), ids(&["vim.desktop", "firefox.desktop"]));
    a.default_apps.put(mime("image/png"), ids(&["vim.desktop"]));
    a.added_associations.put(mime("text/css"), ids(&["nano.desktop", "vim.desktop"]));
    a.remove_handler(&mime("text/*"), &id("vim.desktop"));
    assert!(!a.default_apps.contains(&mime("text/plain")));
    assert_eq!(a.default_apps.listed(&mime("text/html")), ids(&["firefox.desktop"]));
    assert_eq!(a.default_apps.listed(&mime("image/png")), ids(&["vim.desktop"]));
    assert_eq!(a.added_associations.listed(&mime("text/css")), ids(&["nano.desktop"]));
}

#[test]
fn layer_keeps_one_entry_for_each_mime_in_sorted_order() {
    let mut layer = Layer::new();
    assert_eq!(layer.len(), 0);
    layer.put(mime("text/plain"), ids(&["a.desktop"]));
    layer.put(mime("image/png"), ids(&["b.desktop"]));
    layer.put(mime("text/plain"), ids(&["c.desktop", "d.desktop"]));
    layer.put(mime("text/html"), ids(&["e.desktop"]));
    layer.put(mime("x-scheme-handler/https"), ids(&["f.desktop"]));
    layer.put(mime("application/pdf"), ids(&["g.desktop"]));
    layer.put(mime("text/*"), ids(&["h.desktop"]));
    let keys: Vec<String> = (0..layer.len()).map(|i| layer.key(i).to_string()).collect();
    assert_eq!(
        keys,
        ids(&[
            "application/pdf",
            "image/png",
            "text/*",
            "text/html",
            "text/plain",
            "x-scheme-handler/https"
        ])
    );
    layer.delete(&mime("text/html"));
    layer.delete(&mime("x-scheme-handler/https"));
    layer.delete(&mime("application/pdf"));
    layer.delete(&mime("text/*"));
    assert_eq!(layer.len(), 2);
    assert_eq!(layer.key(1).to_string(), "text/plain");
    assert_eq!(layer.list(1), &ids(&["c.desktop", "d.desktop"]));
    assert_eq!(layer.key(0).to_string(), "image/png");
    assert_eq!(layer.get(&mime("image/png")), Some(&ids(&["b.desktop"])));
    assert_eq!(layer.get(&mime("image/gif")), None);
    assert!(layer.listed(&mime("image/gif")).is_empty());
    layer.delete(&mime("text/plain"));
    layer.delete(&mime("text/plain"));
    assert_eq!(layer.len(), 1);
    assert!(!layer.contains(&mime("text/plain")));
    assert!(layer.contains(&mime("image/png")));
}

#[test]
fn layer_strips_and_deletes_under_a_pattern() {
    let mut layer = Layer::new();
    layer.put(mime("text/plain"), ids(&["a.desktop", "b.desktop", "a.desktop"]));
    layer.put(mime("text/html"), ids(&["a.desktop"]));
    layer.put(mime("image/png"), ids(&["a.desktop"]));
    let covered: Vec<String> =
        layer.covered(&mime("text/*")).iter().map(|m| m.to_string()).collect();
    assert_eq!(covered, ids(&["text/html", "text/plain"]));
    layer.strip(&mime("image/gif"), &id("a.desktop"));
    assert_eq!(layer.len(), 3);
    layer.strip_covered(&mime("text/*"), &id("a.desktop"));
    assert_eq!(layer.listed(&mime("text/plain")), ids(&["b.desktop"]));
    assert!(!layer.contains(&mime("text/html")));
    assert_eq!(layer.listed(&mime("image/png")), ids(&["a.desktop"]));
    layer.delete_covered(&mime("text/*"));
    assert_eq!(layer.len(), 1);
    layer.delete_covered(&mime("image/png"));
    assert_eq!(layer.len(), 0);
}
