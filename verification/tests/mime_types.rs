use handlr_regex::error::Error;
use handlr_regex::mime_types::MimeType;

/// What the shared MIME database lists for a file name, best match first.
fn lookup(name: &str) -> Vec<String> {
    xdg_mime::SharedMimeInfo::new()
        .get_mime_types_from_file_name(name)
        .iter()
        .map(|mime| mime.essence_str().to_owned())
        .collect()
}

fn parse(s: &str) -> Result<MimeType, Error> {
    let candidates = if MimeType::is_extension(s) { lookup(s) } else { Vec::new() };
    MimeType::from_str(s, &candidates)
}

#[test]
fn user_input() {
    assert_eq!(parse(".pdf").unwrap().to_string(), mime::APPLICATION_PDF.as_ref());
    assert_eq!(parse("image/jpeg").unwrap().to_string(), mime::IMAGE_JPEG.as_ref());

    assert!(parse("image//jpg").is_err());
    assert!(parse("image").is_err());
}

#[test]
fn from_str() {
    assert_eq!(parse(".mp3").unwrap().to_string(), "audio/mpeg");
    assert_eq!(parse("audio/mpeg").unwrap().to_string(), "audio/mpeg");
    assert!(parse(".").is_err());
    assert!(parse("audio/").is_err());
    assert_eq!(
        parse("application/octet-stream").unwrap().to_string(),
        "application/octet-stream"
    );
}

#[test]
fn literal_is_taken_in_lower_case_without_parameters() {
    let mime = parse("Text/HTML; charset=utf-8").unwrap();
    assert_eq!(mime.type_(), "text");
    assert_eq!(mime.subtype(), "html");
    assert_eq!(mime.to_string(), "text/html");
}

#[test]
fn literal_without_subtype_is_invalid() {
    assert_eq!(parse("audio/"), Err(Error::InvalidMime("audio/".to_owned())));
    assert_eq!(parse("image"), Err(Error::InvalidMime("image".to_owned())));
    assert_eq!(parse(""), Err(Error::InvalidMime("".to_owned())));
    assert_eq!(parse("/plain"), Err(Error::InvalidMime("/plain".to_owned())));
}

#[test]
fn extension_yields_mime_or_ambiguous() {
    let none: Vec<String> = Vec::new();
    assert_eq!(
        MimeType::from_str(".xyz", &none),
        Err(Error::AmbiguousExtension(".xyz".to_owned()))
    );
    let generic = vec!["application/octet-stream".to_owned()];
    assert_eq!(
        MimeType::from_str(".bin", &generic),
        Err(Error::AmbiguousExtension(".bin".to_owned()))
    );
    let malformed = vec!["nonsense".to_owned()];
    assert_eq!(
        MimeType::from_ext(".odd", &malformed),
        Err(Error::AmbiguousExtension(".odd".to_owned()))
    );
    let listed = vec!["application/pdf".to_owned(), "application/x-pdf".to_owned()];
    assert_eq!(MimeType::from_str(".pdf", &listed).unwrap().to_string(), "application/pdf");
}

#[test]
fn candidates_are_not_read_for_a_literal() {
    let listed = vec!["application/pdf".to_owned()];
    assert_eq!(MimeType::from_str("text/plain", &listed).unwrap().to_string(), "text/plain");
}

#[test]
fn essence_splits_at_the_first_slash() {
    let mime = MimeType::from_essence("A/b/C").unwrap();
    assert_eq!(mime.type_(), "a");
    assert_eq!(mime.subtype(), "b/c");
    assert_eq!(MimeType::from_essence("a/"), Err(Error::InvalidMime("a/".to_owned())));
    assert_eq!(MimeType::from_essence("/a"), Err(Error::InvalidMime("/a".to_owned())));
    assert_eq!(MimeType::from_essence("/"), Err(Error::InvalidMime("/".to_owned())));
    assert_eq!(MimeType::from_essence("abc"), Err(Error::InvalidMime("abc".to_owned())));
}

#[test]
fn scheme_gives_the_scheme_handler() {
    assert_eq!(MimeType::from_scheme("https").unwrap().to_string(), "x-scheme-handler/https");
    assert!(MimeType::from_scheme("").is_err());
    assert!(MimeType::from_scheme("a b").is_err());
}

#[test]
fn wildcards_cover_their_type() {
    let wild = parse("text/*").unwrap();
    let plain = parse("text/plain").unwrap();
    let png = parse("image/png").unwrap();
    assert!(wild.is_wildcard());
    assert!(!plain.is_wildcard());
    assert!(wild.covers(&plain));
    assert!(wild.covers(&wild));
    assert!(!wild.covers(&png));
    assert!(plain.covers(&plain));
    assert!(!plain.covers(&wild));
    assert!(plain.wildcard().same(&wild));
    assert_eq!(png.wildcard().to_string(), "image/*");
}

#[test]
fn special_mime_types_are_told_apart() {
    assert!(parse("application/octet-stream").unwrap().is_octet_stream());
    assert!(!parse("application/pdf").unwrap().is_octet_stream());
    assert!(parse("application/x-zerosize").unwrap().is_zero_size());
    assert!(!parse("application/octet-stream").unwrap().is_zero_size());
    assert_eq!(MimeType::terminal().to_string(), "x-scheme-handler/terminal");
    let copy = MimeType::terminal().clone();
    assert!(copy.same(&MimeType::terminal()));
}

#[test]
fn mime_types_are_ordered_as_their_texts() {
    let plain = parse("text/plain").unwrap();
    let html = parse("text/html").unwrap();
    let wild = parse("text/*").unwrap();
    let png = parse("image/png").unwrap();
    let tex = parse("tex/t").unwrap();
    let dashed = parse("text-x/a").unwrap();
    assert!(html.precedes(&plain));
    assert!(!plain.precedes(&html));
    assert!(!plain.precedes(&plain));
    assert!(wild.precedes(&html));
    assert!(png.precedes(&wild));
    assert!(tex.precedes(&plain));
    assert!(!plain.precedes(&tex));
    assert!(dashed.precedes(&plain));
    assert_eq!(dashed.precedes(&plain), "text-x/a" < "text/plain");
    assert_eq!(tex.precedes(&wild), "tex/t" < "text/*");
}

#[test]
fn extensions_start_with_a_dot() {
    assert!(MimeType::is_extension(".pdf"));
    assert!(MimeType::is_extension("."));
    assert!(!MimeType::is_extension("pdf"));
    assert!(!MimeType::is_extension(""));
    assert!(!MimeType::is_extension("text/.plain"));
}
