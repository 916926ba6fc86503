//! MIME types in canonical form, and how user input is turned into one.

use crate::error::{Error, ErrorView};
use crate::text::{
    before, chars_of, find, lemma_position, lemma_position_is, lowercase, lowered, position,
    precedes,
};
use vstd::prelude::*;

verus! {

/// A MIME type as mathematics: its type and its subtype.
pub ghost struct MimeKey {
    pub type_: Seq<char>,
    pub subtype: Seq<char>,
}

impl MimeKey {
    /// The text `type/subtype`.
    pub open spec fn text(self) -> Seq<char> {
        self.type_ + seq!['/'] + self.subtype
    }

    /// Whether this is a wildcard `type/*`, which stands for every subtype of its type.
    pub open spec fn is_wildcard(self) -> bool {
        self.subtype == seq!['*']
    }

    /// The wildcard of this MIME type's type.
    pub open spec fn wildcard(self) -> MimeKey {
        MimeKey { type_: self.type_, subtype: seq!['*'] }
    }

    /// Whether `other` falls under this MIME type read as a pattern: it is the same, or
    /// this is the wildcard of its type.
    pub open spec fn covers(self, other: MimeKey) -> bool {
        self == other || (self.is_wildcard() && self.type_ == other.type_)
    }

    /// Both parts are non-empty and in lower case, and the type holds no slash.
    pub open spec fn well_formed(self) -> bool {
        &&& self.type_.len() > 0
        &&& self.subtype.len() > 0
        &&& !self.type_.contains('/')
        &&& lowercase(self.type_) == self.type_
        &&& lowercase(self.subtype) == self.subtype
    }
}

/// The MIME type that the text `e` denotes: what precedes its first slash is the type,
/// what follows is the subtype, both taken in lower case. None where either would be
/// empty.
pub open spec fn canonical(e: Seq<char>) -> Option<MimeKey> {
    let slash = position(e, '/', 0);
    if 0 < slash && slash + 1 < e.len() {
        Some(MimeKey { type_: lowercase(e.take(slash)), subtype: lowercase(e.skip(slash + 1)) })
    } else {
        None
    }
}

/// What `canonical` yields is well formed.
pub proof fn lemma_canonical_well_formed(e: Seq<char>)
    ensures
        canonical(e) matches Some(k) ==> k.well_formed(),
{
    lemma_position(e, '/', 0);
    let slash = position(e, '/', 0);
    if 0 < slash && slash + 1 < e.len() {
        let k = canonical(e)->Some_0;
        assert(lowercase(k.type_) =~= k.type_);
        assert(lowercase(k.subtype) =~= k.subtype);
        assert forall|i: int| 0 <= i < k.type_.len() implies k.type_[i] != '/' by {
            assert(e[i] != '/');
        }
    }
}

/// The text of a well-formed MIME type denotes that MIME type.
pub proof fn lemma_canonical_of_text(k: MimeKey)
    requires
        k.well_formed(),
    ensures
        canonical(k.text()) == Some(k),
{
    let n = k.type_.len() as int;
    let text = k.text();
    assert(text[n] == '/');
    assert forall|j: int| 0 <= j < n implies text[j] != '/' by {
        assert(text[j] == k.type_[j]);
        assert(k.type_.contains(k.type_[j]));
    }
    lemma_position_is(text, '/', 0, n);
    assert(text.take(n) =~= k.type_);
    assert(text.skip(n + 1) =~= k.subtype);
}

/// Two well-formed MIME types with the same text are the same.
pub proof fn lemma_text_injective(a: MimeKey, b: MimeKey)
    requires
        a.well_formed(),
        b.well_formed(),
        a.text() == b.text(),
    ensures
        a == b,
{
    let n = a.type_.len() as int;
    let m = b.type_.len() as int;
    assert(a.text()[n] == '/');
    assert(b.text()[m] == '/');
    if n < m {
        assert(b.text()[n] == b.type_[n]);
        assert(b.type_.contains(b.type_[n]));
    }
    if m < n {
        assert(a.text()[m] == a.type_[m]);
        assert(a.type_.contains(a.type_[m]));
    }
    assert(a.type_ =~= a.text().take(n));
    assert(b.type_ =~= b.text().take(n));
    assert(a.subtype =~= a.text().skip(n + 1));
    assert(b.subtype =~= b.text().skip(n + 1));
}

/// The generic fallback `application/octet-stream`, which says nothing of the content.
pub open spec fn octet_stream() -> MimeKey {
    MimeKey { type_: "application"@, subtype: "octet-stream"@ }
}

/// The MIME type of a file without content, `application/x-zerosize`.
pub open spec fn zero_size() -> MimeKey {
    MimeKey { type_: "application"@, subtype: "x-zerosize"@ }
}

/// The MIME type under which the terminal emulator is registered,
/// `x-scheme-handler/terminal`.
pub open spec fn terminal_mime() -> MimeKey {
    MimeKey { type_: "x-scheme-handler"@, subtype: "terminal"@ }
}

/// Whether the text names a file extension: it starts with a dot.
pub open spec fn is_extension(s: Seq<char>) -> bool {
    s.len() > 0 && s[0] == '.'
}

/// The essence (type, slash and subtype, in lower case, without parameters) of the media
/// type that the `mime` crate parses the text to; None where it rejects the text.
pub uninterp spec fn mime_essence(s: Seq<char>) -> Option<Seq<char>>;

/// The MIME type that a file extension stands for, given the MIME types that the
/// extension table lists for it, best match first: the first of them, unless there is
/// none, or it is malformed or the generic fallback.
pub open spec fn extension_mime(ext: Seq<char>, candidates: Seq<Seq<char>>) -> Result<
    MimeKey,
    ErrorView,
> {
    if candidates.len() > 0 && canonical(candidates[0]) is Some && canonical(candidates[0])
        != Some(octet_stream()) {
        Ok(canonical(candidates[0])->Some_0)
    } else {
        Err(ErrorView::AmbiguousExtension(ext))
    }
}

/// The MIME type that a literal such as `text/plain` stands for.
pub open spec fn literal_mime(s: Seq<char>) -> Result<MimeKey, ErrorView> {
    match mime_essence(s) {
        None => Err(ErrorView::InvalidMime(s)),
        Some(e) => match canonical(e) {
            Some(k) => Ok(k),
            None => Err(ErrorView::InvalidMime(e)),
        },
    }
}

/// The MIME type that user input stands for: that of the extension where the input
/// starts with a dot, else that of the literal.
pub open spec fn user_mime(s: Seq<char>, candidates: Seq<Seq<char>>) -> Result<
    MimeKey,
    ErrorView,
> {
    if is_extension(s) {
        extension_mime(s, candidates)
    } else {
        literal_mime(s)
    }
}

/// The MIME type under which the handler of a URL scheme is registered.
pub open spec fn scheme_mime(scheme: Seq<char>) -> Result<MimeKey, ErrorView> {
    literal_mime("x-scheme-handler/"@ + scheme)
}

/// The MIME types of a vector.
pub open spec fn keys_of(mimes: Seq<MimeType>) -> Seq<MimeKey> {
    Seq::new(mimes.len(), |i: int| mimes[i]@)
}

/// A result with its parts as mathematics.
pub open spec fn outcome(r: Result<MimeType, Error>) -> Result<MimeKey, ErrorView> {
    match r {
        Ok(m) => Ok(m@),
        Err(e) => Err(e@),
    }
}

/// The error with which `Mime::from_str` of the `mime` crate rejects a text. Nothing is
/// known of what it holds.
#[verifier::external_type_specification]
#[verifier::external_body]
pub struct ExFromStrError(mime::FromStrError);

/// Parses `s` with `Mime::from_str` of the `mime` crate and, where that succeeds, takes
/// the result's `essence_str`. Trusted: the outcome is `mime_essence` of the text.
#[verifier::external_body]
fn parse_essence(s: &str) -> (r: Result<String, mime::FromStrError>)
    ensures
        match r {
            Ok(e) => mime_essence(s@) == Some(e@),
            Err(_) => mime_essence(s@) is None,
        },
{
    let mime = s.parse::<mime::Mime>()?;
    Ok(mime.essence_str().to_owned())
}

/// A MIME type in canonical form.
#[derive(Debug, PartialEq, Eq, Hash)]
pub struct MimeType {
    type_: String,
    subtype: String,
}

impl View for MimeType {
    type V = MimeKey;

    closed spec fn view(&self) -> MimeKey {
        MimeKey { type_: self.type_@, subtype: self.subtype@ }
    }
}

impl Clone for MimeType {
    fn clone(&self) -> (r: Self)
        ensures
            r@ == self@,
    {
        proof {
            use_type_invariant(self);
        }
        MimeType { type_: self.type_.clone(), subtype: self.subtype.clone() }
    }
}

impl MimeType {
    #[verifier::type_invariant]
    spec fn inv(self) -> bool {
        self@.well_formed()
    }

    /// The MIME type that the text `e` denotes.
    ///
    /// Fails with `InvalidMime` where `e` has no slash, or nothing before or after its
    /// first slash.
    pub fn from_essence(e: &str) -> (r: Result<MimeType, Error>)
        ensures
            match canonical(e@) {
                Some(k) => r matches Ok(m) && m@ == k,
                None => r matches Err(err) && err@ == ErrorView::InvalidMime(e@),
            },
    {
        let chars = chars_of(e);
        let slash = find(&chars, '/', 0);
        if 0 < slash && slash < chars.len() - 1 {
            let type_ = lowered(&chars, 0, slash);
            let subtype = lowered(&chars, slash + 1, chars.len());
            proof {
                lemma_canonical_well_formed(e@);
                assert(e@.subrange(0, slash as int) =~= e@.take(slash as int));
                assert(e@.subrange(slash + 1, e@.len() as int) =~= e@.skip(slash + 1));
            }
            Ok(MimeType { type_, subtype })
        } else {
            Err(Error::InvalidMime(e.to_owned()))
        }
    }

    /// The MIME type of a file extension such as `.pdf`, given the MIME types that the
    /// extension table lists for it, best match first.
    ///
    /// Fails with `AmbiguousExtension` where the table gives nothing more specific than the
    /// generic fallback.
    pub fn from_ext(ext: &str, candidates: &Vec<String>) -> (r: Result<MimeType, Error>)
        ensures
            outcome(r) == extension_mime(ext@, candidates.deep_view()),
    {
        if candidates.len() > 0 {
            assert(candidates.deep_view()[0] == candidates@[0]@);
            match MimeType::from_essence(candidates[0].as_str()) {
                Ok(mime) => {
                    if !mime.is_octet_stream() {
                        return Ok(mime);
                    }
                },
                Err(_) => {},
            }
        }
        Err(Error::AmbiguousExtension(ext.to_owned()))
    }

    /// The MIME type of a literal such as `text/plain`.
    ///
    /// Fails with `InvalidMime` where the text is not a media type, or lacks a subtype.
    pub fn from_literal(s: &str) -> (r: Result<MimeType, Error>)
        ensures
            outcome(r) == literal_mime(s@),
    {
        match parse_essence(s) {
            Ok(essence) => MimeType::from_essence(essence.as_str()),
            Err(_) => Err(Error::InvalidMime(s.to_owned())),
        }
    }

    /// The MIME type that user input stands for. Input that starts with a dot is a file
    /// extension, for which `candidates` holds what the extension table lists; any other
    /// input is a literal, and `candidates` is not read.
    ///
    /// An extension yields a MIME type or `AmbiguousExtension`, nothing else.
    pub fn from_str(s: &str, candidates: &Vec<String>) -> (r: Result<MimeType, Error>)
        ensures
            outcome(r) == user_mime(s@, candidates.deep_view()),
            is_extension(s@) ==> r is Ok || outcome(r) == Err::<MimeKey, ErrorView>(
                ErrorView::AmbiguousExtension(s@),
            ),
    {
        if MimeType::is_extension(s) {
            MimeType::from_ext(s, candidates)
        } else {
            MimeType::from_literal(s)
        }
    }

    /// Whether the text names a file extension: it starts with a dot.
    pub fn is_extension(s: &str) -> (r: bool)
        ensures
            r == is_extension(s@),
    {
        let chars = chars_of(s);
        chars.len() > 0 && chars[0] == '.'
    }

    /// The MIME type under which the handler of a URL scheme is registered:
    /// `x-scheme-handler/` and the scheme.
    pub fn from_scheme(scheme: &str) -> (r: Result<MimeType, Error>)
        ensures
            outcome(r) == scheme_mime(scheme@),
    {
        let mut text = "x-scheme-handler/".to_owned();
        text.append(scheme);
        MimeType::from_literal(text.as_str())
    }

    /// The MIME type under which the terminal emulator is registered.
    pub fn terminal() -> (r: MimeType)
        ensures
            r@ == terminal_mime(),
    {
        proof {
            reveal_strlit("x-scheme-handler");
            reveal_strlit("terminal");
            assert(lowercase("x-scheme-handler"@) =~= "x-scheme-handler"@);
            assert(lowercase("terminal"@) =~= "terminal"@);
            assert(!"x-scheme-handler"@.contains('/'));
        }
        MimeType { type_: "x-scheme-handler".to_owned(), subtype: "terminal".to_owned() }
    }

    /// Whether this is the generic fallback `application/octet-stream`.
    pub fn is_octet_stream(&self) -> (r: bool)
        ensures
            r == (self@ == octet_stream()),
    {
        self.type_ == "application".to_owned() && self.subtype == "octet-stream".to_owned()
    }

    /// Whether this is the MIME type of a file without content. A guess from the file's
    /// name that yields it is to be followed by a look at the file itself.
    pub fn is_zero_size(&self) -> (r: bool)
        ensures
            r == (self@ == zero_size()),
    {
        self.type_ == "application".to_owned() && self.subtype == "x-zerosize".to_owned()
    }

    /// Whether this is a wildcard `type/*`.
    pub fn is_wildcard(&self) -> (r: bool)
        ensures
            r == self@.is_wildcard(),
    {
        proof {
            reveal_strlit("*");
            assert("*"@ =~= seq!['*']);
        }
        self.subtype == "*".to_owned()
    }

    /// The wildcard of this MIME type's type.
    pub fn wildcard(&self) -> (r: MimeType)
        ensures
            r@ == self@.wildcard(),
    {
        proof {
            use_type_invariant(self);
            reveal_strlit("*");
            assert("*"@ =~= seq!['*']);
            assert(lowercase(seq!['*']) =~= seq!['*']);
        }
        MimeType { type_: self.type_.clone(), subtype: "*".to_owned() }
    }

    /// Whether the two are the same MIME type.
    pub fn same(&self, other: &MimeType) -> (r: bool)
        ensures
            r == (self@ == other@),
    {
        self.type_ == other.type_ && self.subtype == other.subtype
    }

    /// Whether `other` falls under this MIME type read as a pattern: it is the same, or
    /// this is the wildcard of its type.
    pub fn covers(&self, other: &MimeType) -> (r: bool)
        ensures
            r == self@.covers(other@),
    {
        self.same(other) || (self.is_wildcard() && self.type_ == other.type_)
    }

    /// Whether this MIME type comes before `other`: MIME types are ordered as their
    /// texts are in the dictionary.
    pub fn precedes(&self, other: &MimeType) -> (r: bool)
        ensures
            r == before(self@.text(), other@.text()),
    {
        precedes(&chars_of(self.to_string().as_str()), &chars_of(other.to_string().as_str()))
    }

    /// The text `type/subtype`.
    pub fn to_string(&self) -> (r: String)
        ensures
            r@ == self@.text(),
            self@.well_formed(),
    {
        proof {
            use_type_invariant(self);
        }
        let mut r = self.type_.clone();
        r.push('/');
        r.append(self.subtype.as_str());
        proof {
            assert(self@.type_.push('/') =~= self@.type_ + seq!['/']);
        }
        r
    }

    /// The type, such as `text` in `text/plain`.
    pub fn type_(&self) -> (r: &String)
        ensures
            r@ == self@.type_,
    {
        &self.type_
    }

    /// The subtype, such as `plain` in `text/plain`.
    pub fn subtype(&self) -> (r: &String)
        ensures
            r@ == self@.subtype,
    {
        &self.subtype
    }
}

/// The MIME types that the first `n` of `items` denote, in their order; an item that
/// denotes none is passed over.
pub open spec fn mimes_upto(items: Seq<Seq<char>>, n: int) -> Seq<MimeKey>
    decreases n,
{
    if n <= 0 || n > items.len() {
        Seq::empty()
    } else {
        match canonical(items[n - 1]) {
            Some(k) => mimes_upto(items, n - 1).push(k),
            None => mimes_upto(items, n - 1),
        }
    }
}

/// The MIME types that the texts denote, in their order; a text that denotes none is
/// passed over.
pub fn mimes_of(texts: &Vec<String>) -> (r: Vec<MimeType>)
    ensures
        keys_of(r@) == mimes_upto(texts.deep_view(), texts.len() as int),
{
    let mut r: Vec<MimeType> = Vec::new();
    let mut n: usize = 0;
    proof {
        assert(keys_of(r@) =~= Seq::<MimeKey>::empty());
    }
    while n < texts.len()
        invariant
            n <= texts.len(),
            keys_of(r@) == mimes_upto(texts.deep_view(), n as int),
        decreases texts.len() - n,
    {
        assert(texts.deep_view()[n as int] == texts@[n as int]@);
        let ghost before = r@;
        match MimeType::from_essence(texts[n].as_str()) {
            Ok(mime) => {
                r.push(mime);
                proof {
                    assert(keys_of(r@) =~= keys_of(before).push(mime@));
                }
            },
            Err(_) => {},
        }
        n += 1;
    }
    r
}

} // verus!
