use handlr_regex::cli::{
    autocomplete_desktop_files, autocomplete_mimes, begins, completions, Cli, Cmd,
};
use handlr_regex::db::{extensions, mime_types};
use handlr_regex::desktop_entry::DesktopEntry;
use handlr_regex::dist::{dist_dir, fit_manpage, join_path, manpage_file, manpage_name};
use handlr_regex::error::Error;
use handlr_regex::logging::{is_message, notice_for, Level, Urgency, NOTICE_TIMEOUT};
use handlr_regex::mime_types::{mimes_of, MimeType};
use handlr_regex::path::UserPath;
use handlr_regex::testing::timestamp_filter;
use handlr_regex::text::{
    chars_of, find, first_line_trimmed, is, items_of, join, lowered, part, precedes, slice,
    split, string_of, to_lower, trim,
};

fn ids(list: &[&str]) -> Vec<String> {
    list.iter().map(|s| s.to_string()).collect()
}

#[test]
fn test_show_notifications() {
    let mut cli = Cli {
        command: Cmd::Unset { mime: MimeType::from_str("fake/mime", &Vec::new()).unwrap() },
        enable_notifications: true,
        terminal_output: Some(false),
    };

    assert!(cli.show_notifications(true));

    cli.terminal_output = Some(true);
    assert!(!cli.show_notifications(false));

    cli.enable_notifications = false;
    assert!(!cli.show_notifications(false));

    cli.terminal_output = Some(true);
    assert!(!cli.show_notifications(false));
}

#[test]
fn terminal_output_goes_by_the_flag_then_by_the_output() {
    let mut cli = Cli {
        command: Cmd::List { json: false, all: false },
        enable_notifications: true,
        terminal_output: None,
    };
    assert!(cli.terminal_output(true));
    assert!(!cli.terminal_output(false));
    assert!(!cli.show_notifications(true));
    assert!(cli.show_notifications(false));
    cli.terminal_output = Some(true);
    assert!(cli.terminal_output(false));
    cli.terminal_output = Some(false);
    assert!(!cli.terminal_output(true));
}

#[test]
fn completions_start_with_what_was_typed() {
    let names = ids(&[".pdf", "text/plain", ".png", "text/html", "image/png", "tex"]);
    assert_eq!(completions(&names, "text/"), ids(&["text/plain", "text/html"]));
    assert_eq!(completions(&names, ".p"), ids(&[".pdf", ".png"]));
    assert_eq!(completions(&names, ""), names);
    assert!(completions(&names, "video").is_empty());
    assert!(begins(&"text/plain".to_owned(), &chars_of("text")));
    assert!(begins(&"text".to_owned(), &chars_of("text")));
    assert!(!begins(&"tex".to_owned(), &chars_of("text")));
    assert!(!begins(&"next".to_owned(), &chars_of("text")));
}

#[test]
fn mime_completions_hold_extensions_and_types() {
    let all = autocomplete_mimes("");
    assert!(all.contains(&".pdf".to_owned()));
    assert!(all.contains(&"application/pdf".to_owned()));
    assert!(all.contains(&"x-scheme-handler/terminal".to_owned()));
    let some = autocomplete_mimes("x-scheme-handler/");
    assert_eq!(
        some,
        ids(&["x-scheme-handler/http", "x-scheme-handler/https", "x-scheme-handler/terminal"])
    );
    assert!(autocomplete_mimes(".pd").iter().all(|s| s.starts_with(".pd")));
    let mut sorted = all.clone();
    sorted.sort();
    assert_eq!(all, sorted);
    assert!(autocomplete_mimes(".pd").contains(&".pdf".to_owned()));
}

#[test]
fn desktop_file_completions_carry_the_names() {
    let entry = |id: &str, name: &str| DesktopEntry {
        id: id.to_owned(),
        path: id.to_owned(),
        name: name.to_owned(),
        exec_template: "x".to_owned(),
        terminal: false,
        mime_types: Vec::new(),
    };
    let entries = vec![entry("vim.desktop", "Vim"), entry("gedit.desktop", "Text Editor"), entry("vlc.desktop", "VLC")];
    assert_eq!(
        autocomplete_desktop_files(&entries, "v"),
        vec![
            ("vim.desktop".to_owned(), "Vim".to_owned()),
            ("vlc.desktop".to_owned(), "VLC".to_owned())
        ]
    );
    assert_eq!(autocomplete_desktop_files(&entries, "").len(), 3);
    assert!(autocomplete_desktop_files(&entries, "x").is_empty());
}

#[test]
fn known_types_start_with_the_custom_ones() {
    let all = mime_types();
    assert_eq!(
        all[..4].to_vec(),
        ids(&["inode/directory", "x-scheme-handler/http", "x-scheme-handler/https", "x-scheme-handler/terminal"])
    );
    assert!(all.len() > 900);
    assert!(all.contains(&"image/png".to_owned()));
    let known = mimes_of(&all);
    assert_eq!(known.len(), all.len());
    assert_eq!(known[0].to_string(), "inode/directory");
    let dotted = extensions();
    assert!(dotted.len() > 1000);
    assert!(dotted.iter().all(|e| e.starts_with('.')));
    assert!(dotted.contains(&".json".to_owned()));
    let some: Vec<String> =
        mimes_of(&ids(&["a/b", "bad", "C/D"])).iter().map(|m| m.to_string()).collect();
    assert_eq!(some, ids(&["a/b", "c/d"]));
}

#[test]
fn known_types_and_extensions_are_those_of_the_tables() {
    let types: Vec<String> = mime_db::TYPES.iter().map(|row| row.0.to_owned()).collect();
    assert_eq!(mime_types()[4..].to_vec(), types);
    let dotted: Vec<String> = mime_db::EXTENSIONS.iter().map(|row| format!(".{}", row.0)).collect();
    assert_eq!(extensions(), dotted);
}

#[test]
fn mime_completions_are_the_sorted_offers() {
    let mut offers: Vec<String> = extensions();
    offers.extend(mime_types());
    let mut expected: Vec<String> =
        offers.into_iter().filter(|offer| offer.starts_with("application/x")).collect();
    expected.sort();
    assert!(!expected.is_empty());
    assert_eq!(autocomplete_mimes("application/x"), expected);
    assert!(autocomplete_mimes("no such thing").is_empty());
}

#[test]
fn paths_and_urls_are_told_apart() {
    assert_eq!(UserPath::from_str("notes.txt"), Ok(UserPath::File("notes.txt".to_owned())));
    assert_eq!(UserPath::from_str("/tmp/a b"), Ok(UserPath::File("/tmp/a b".to_owned())));
    assert_eq!(UserPath::from_str(""), Ok(UserPath::File("".to_owned())));
    assert_eq!(
        UserPath::from_str("https://Example.org"),
        Ok(UserPath::Url { text: "https://example.org/".to_owned(), scheme: "https".to_owned() })
    );
    assert_eq!(
        UserPath::from_str("mailto:someone@example.org"),
        Ok(UserPath::Url {
            text: "mailto:someone@example.org".to_owned(),
            scheme: "mailto".to_owned()
        })
    );
    assert_eq!(
        UserPath::from_str("file:///tmp/a%20b.txt"),
        Ok(UserPath::File("/tmp/a b.txt".to_owned()))
    );
    assert_eq!(
        UserPath::from_str("file://remote/tmp/a.txt"),
        Err(Error::BadPath("file://remote/tmp/a.txt".to_owned()))
    );
}

#[test]
fn path_parts_decide_what_is_named() {
    let url = Some(("file:///x".to_owned(), "file".to_owned()));
    assert_eq!(
        UserPath::from_parts("file:///x", url.clone(), Some("/x".to_owned())),
        Ok(UserPath::File("/x".to_owned()))
    );
    assert_eq!(
        UserPath::from_parts("file:///x", url, None),
        Err(Error::BadPath("file:///x".to_owned()))
    );
    assert_eq!(
        UserPath::from_parts("x", None, Some("/never".to_owned())),
        Ok(UserPath::File("x".to_owned()))
    );
    assert_eq!(
        UserPath::from_parts("a:b", Some(("a:b".to_owned(), "a".to_owned())), Some("/n".to_owned())),
        Ok(UserPath::Url { text: "a:b".to_owned(), scheme: "a".to_owned() })
    );
}

#[test]
fn mime_of_a_url_is_its_scheme_handler() {
    let url = UserPath::from_str("https://duckduckgo.com/").unwrap();
    assert_eq!(url.get_mime("ignored").unwrap().to_string(), "x-scheme-handler/https");
    assert_eq!(url.to_string(), "https://duckduckgo.com/");
    let file = UserPath::from_str("README.md").unwrap();
    assert_eq!(file.get_mime("text/markdown").unwrap().to_string(), "text/markdown");
    assert_eq!(file.get_mime("nothing"), Err(Error::InvalidMime("nothing".to_owned())));
    assert_eq!(file.to_string(), "README.md");
}

#[test]
fn errors_describe_themselves() {
    assert_eq!(Error::NotFound("text/plain".to_owned()).message(), "No handlers found for 'text/plain'");
    assert_eq!(
        Error::AmbiguousExtension(".xyz".to_owned()).message(),
        "Could not find a mimetype associated with the file extension: '.xyz'"
    );
    assert_eq!(Error::InvalidMime("audio/".to_owned()).message(), "Bad mime: audio/");
    assert_eq!(Error::BadEntry("/a/b.desktop".to_owned()).message(), "Malformed desktop entry at /a/b.desktop");
    assert_eq!(Error::BadRegex("(".to_owned()).message(), "Bad regular expression: (");
    assert_eq!(Error::Selector("rofi".to_owned()).message(), "Error spawning selector process 'rofi'");
    assert_eq!(Error::Cancelled.message(), "Selection cancelled");
    assert_eq!(
        Error::NoTerminal.message(),
        "Please specify the default terminal with handlr set x-scheme-handler/terminal"
    );
    assert_eq!(Error::BadPath("file://x".to_owned()).message(), "Bad path: file://x");
    assert_eq!(
        Error::BadExec("sh '".to_owned(), "sh.desktop".to_owned()).message(),
        "Could not split exec command 'sh '' in desktop file 'sh.desktop' into shell words"
    );
    assert_eq!(Error::BadCmd("'".to_owned()).message(), "Could not split command ''' into shell words");
}

#[test]
fn notices_go_by_the_level() {
    let error = notice_for(Level::Error, "boom");
    assert_eq!(error.summary, "handlr error");
    assert_eq!(error.body, "boom");
    assert_eq!(error.icon, "dialog-error");
    assert_eq!(error.appname, "handlr");
    assert_eq!(error.timeout, 10_000);
    assert_eq!(error.timeout, NOTICE_TIMEOUT);
    assert_eq!(error.urgency, Urgency::Critical);
    let warn = notice_for(Level::Warn, "");
    assert_eq!(warn.summary, "handlr warning");
    assert_eq!(warn.body, "No message, see ~/.cache/handlr/handlr.log for details");
    assert_eq!(warn.icon, "dialog-warning");
    assert_eq!(warn.urgency, Urgency::Normal);
    let info = notice_for(Level::Info, "fine");
    assert_eq!(info.summary, "handlr info");
    assert_eq!(info.icon, "dialog-information");
    assert_eq!(info.urgency, Urgency::Low);
    assert_eq!(notice_for(Level::Debug, "x").summary, "handlr debug");
    assert_eq!(notice_for(Level::Trace, "x").summary, "handlr trace");
    assert_eq!(notice_for(Level::Trace, "x").urgency, Urgency::Low);
    assert!(is_message("message"));
    assert!(!is_message("Message"));
    assert!(!is_message(""));
}

#[test]
fn distribution_paths_are_put_together() {
    assert_eq!(dist_dir("/home/me/handlr"), "/home/me/handlr/target/dist");
    assert_eq!(dist_dir("/home/me/handlr/"), "/home/me/handlr/target/dist");
    assert_eq!(dist_dir(""), "target/dist");
    assert_eq!(join_path("/a", "man1"), "/a/man1");
    assert_eq!(manpage_name("handlr-regex"), "handlr");
    assert_eq!(manpage_name("open"), "handlr-open");
    assert_eq!(manpage_file("handlr-regex"), "handlr.1");
    assert_eq!(manpage_file("open"), "handlr-open.1");
}

#[test]
fn manual_pages_name_the_program_in_full() {
    let page = b".TH handlr\\-open 1 \"handlr-open\"\n.SH NAME\nhandlr\\-open \\- Open a path\n\
.SH SYNOPSIS\n\\fBhandlr\\-open\\fR [\\fB\\-h\\fR] <\\fIPATHS\\fR>\n"
        .to_vec();
    let fitted = String::from_utf8(fit_manpage(&page).unwrap()).unwrap();
    assert_eq!(
        fitted,
        ".TH handlr\\-open 1 \"handlr-open\"\n.SH NAME\nhandlr-regex\\-open - Open a path\n\
.SH SYNOPSIS\n\\fBhandlr open\\fR [\\fB\\-h\\fR] <\\fIPATHS\\fR>\n"
    );
    let main = b".SH NAME\nhandlr \\- A better xdg\\-utils\n".to_vec();
    assert_eq!(
        String::from_utf8(fit_manpage(&main).unwrap()).unwrap(),
        ".SH NAME\nhandlr-regex - A better xdg\\-utils\n"
    );
    assert_eq!(fit_manpage(&b"nothing".to_vec()).unwrap(), b"nothing".to_vec());
}

#[test]
fn timestamps_are_filtered() {
    let filters = timestamp_filter();
    assert_eq!(filters, vec![(r"\d{4}-\d{2}-\d{2}T\d{2}:\d{2}:\d*\.\d*Z", "[TIMESTAMP]")]);
    let pattern = regex::Regex::new(filters[0].0).unwrap();
    assert_eq!(
        pattern.replace_all("2024-05-06T07:08:09.123456Z  INFO started", filters[0].1),
        "[TIMESTAMP]  INFO started"
    );
}

#[test]
fn text_is_taken_apart_and_put_together() {
    let v = chars_of("A/b C;;d;");
    assert_eq!(v.len(), 9);
    assert_eq!(string_of(&v), "A/b C;;d;");
    assert_eq!(string_of(&chars_of("héllo €")), "héllo €");
    assert_eq!(to_lower('Q'), 'q');
    assert_eq!(to_lower('q'), 'q');
    assert_eq!(to_lower('É'), 'É');
    assert_eq!(to_lower('@'), '@');
    assert_eq!(to_lower('['), '[');
    assert_eq!(lowered(&v, 0, 5), "a/b c");
    assert_eq!(slice(&v, 2, 5), "b C");
    assert_eq!(part(&v, 2, 5), chars_of("b C"));
    assert_eq!(find(&v, ';', 0), 5);
    assert_eq!(find(&v, ';', 6), 6);
    assert_eq!(find(&v, 'x', 0), 9);
    assert_eq!(split(&v, ';'), ids(&["A/b C", "d"]));
    assert_eq!(split(&chars_of(";;"), ';'), Vec::<String>::new());
    assert_eq!(split(&chars_of("a"), ';'), ids(&["a"]));
    assert_eq!(items_of(" a ;; b c;  ;d", ';'), ids(&["a", "b c", "d"]));
    assert!(items_of(" ; ", ';').is_empty());
    assert_eq!(join(&ids(&["a", "b", "c"]), ' '), "a b c");
    assert_eq!(join(&ids(&["a"]), ' '), "a");
    assert_eq!(join(&Vec::new(), ' '), "");
    assert_eq!(trim(&chars_of(" \t a b \r\n")), "a b");
    assert_eq!(trim(&chars_of("   ")), "");
    assert_eq!(trim(&chars_of("")), "");
    assert_eq!(first_line_trimmed(&chars_of(" one \ntwo\n")), "one");
    assert_eq!(first_line_trimmed(&chars_of("\ntwo")), "");
    assert!(precedes(&chars_of("abc"), &chars_of("abd")));
    assert!(precedes(&chars_of("ab"), &chars_of("abc")));
    assert!(precedes(&chars_of(""), &chars_of("a")));
    assert!(!precedes(&chars_of("abc"), &chars_of("abc")));
    assert!(!precedes(&chars_of("b"), &chars_of("abc")));
    assert!(!precedes(&chars_of(""), &chars_of("")));
    assert!(precedes(&chars_of("Z"), &chars_of("a")));
    assert!(precedes(&chars_of("z"), &chars_of("é")));
    assert!(is(&"abc".to_owned(), "abc"));
    assert!(!is(&"abc".to_owned(), "abd"));
}
