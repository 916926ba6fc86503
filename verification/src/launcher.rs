//! From a desktop entry's command template and the arguments at hand to the commands
//! that are to be run.
//!
//! The template is split into words as a shell would. In the words, field codes stand
//! for what is only known at launch: `%f` and `%u` for one argument, `%F` and `%U` for
//! all of them, `%c` for the entry's name, `%k` for the path of its file, `%%` for a
//! percent sign. `%i` stands for an icon option; no icon is kept, so it goes, and with it
//! a flag that directly precedes it. Any other code goes too. Arguments are handed on as
//! they were given, for the codes that ask for files as for those that ask for URLs.

use crate::lists::{copy, extend};
use crate::text::{chars_of, is, join, joined};
use vstd::prelude::*;

verus! {

/// The words that the `shlex` crate splits the text into, as a POSIX shell would; None
/// where it finds the text erroneous, as with an unclosed quote.
pub uninterp spec fn shell_words(s: Seq<char>) -> Option<Seq<Seq<char>>>;

/// Splits `s` with `shlex::split`. Trusted: the outcome is `shell_words` of the text.
#[verifier::external_body]
pub(crate) fn split_words(s: &str) -> (r: Option<Vec<String>>)
    ensures
        match r {
            Some(words) => shell_words(s@) == Some(words.deep_view()),
            None => shell_words(s@) is None,
        },
{
    shlex::split(s)
}

/// What the field code of the letter `c` stands for inside a word.
pub open spec fn code_text(
    c: char,
    args: Seq<Seq<char>>,
    name: Seq<char>,
    source: Seq<char>,
) -> Seq<char> {
    if c == '%' {
        seq!['%']
    } else if c == 'f' || c == 'u' {
        if args.len() > 0 {
            args[0]
        } else {
            Seq::empty()
        }
    } else if c == 'F' || c == 'U' {
        joined(args, ' ')
    } else if c == 'c' {
        name
    } else if c == 'k' {
        source
    } else {
        Seq::empty()
    }
}

/// The word `w` with each field code replaced by what it stands for.
pub open spec fn filled(
    w: Seq<char>,
    args: Seq<Seq<char>>,
    name: Seq<char>,
    source: Seq<char>,
) -> Seq<char>
    decreases w.len(),
{
    if w.len() == 0 {
        Seq::empty()
    } else if w[0] != '%' {
        seq![w[0]] + filled(w.skip(1), args, name, source)
    } else if w.len() == 1 {
        Seq::empty()
    } else {
        code_text(w[1], args, name, source) + filled(w.skip(2), args, name, source)
    }
}

/// Whether the word `w` holds the field code of the letter `c`.
pub open spec fn uses(w: Seq<char>, c: char) -> bool
    decreases w.len(),
{
    if w.len() < 2 {
        false
    } else if w[0] != '%' {
        uses(w.skip(1), c)
    } else {
        w[1] == c || uses(w.skip(2), c)
    }
}

/// Whether one of the first `n` words holds the field code of the letter `c`.
pub open spec fn any_uses(words: Seq<Seq<char>>, n: int, c: char) -> bool {
    exists|i: int| 0 <= i < n && i < words.len() && uses(#[trigger] words[i], c)
}

/// Whether the template takes all arguments in one command: it holds `%F` or `%U`.
pub open spec fn takes_all(words: Seq<Seq<char>>) -> bool {
    any_uses(words, words.len() as int, 'F') || any_uses(words, words.len() as int, 'U')
}

/// Whether the template says where one argument goes: it holds `%f` or `%u`.
pub open spec fn takes_one(words: Seq<Seq<char>>) -> bool {
    any_uses(words, words.len() as int, 'f') || any_uses(words, words.len() as int, 'u')
}

/// Whether the word is a field code by itself that stands for nothing: `%i`, or a code
/// that is not known.
pub open spec fn is_void(w: Seq<char>) -> bool {
    w.len() == 2 && w[0] == '%' && w[1] != '%' && w[1] != 'c' && w[1] != 'k' && w[1] != 'f'
        && w[1] != 'F' && w[1] != 'u' && w[1] != 'U'
}

/// Whether the word is `%F` or `%U`.
pub open spec fn is_all(w: Seq<char>) -> bool {
    w.len() == 2 && w[0] == '%' && (w[1] == 'F' || w[1] == 'U')
}

/// Whether the word is `%f` or `%u`.
pub open spec fn is_one(w: Seq<char>) -> bool {
    w.len() == 2 && w[0] == '%' && (w[1] == 'f' || w[1] == 'u')
}

/// The words that the word `w` of a template becomes: all arguments for `%F` and `%U`,
/// the first for `%f` and `%u`, nothing for a void code, else the word filled in.
pub open spec fn pieces(
    w: Seq<char>,
    args: Seq<Seq<char>>,
    name: Seq<char>,
    source: Seq<char>,
) -> Seq<Seq<char>> {
    if is_all(w) {
        args
    } else if is_one(w) {
        if args.len() > 0 {
            seq![args[0]]
        } else {
            Seq::empty()
        }
    } else if is_void(w) {
        Seq::empty()
    } else {
        seq![filled(w, args, name, source)]
    }
}

/// Whether the word at `i` is a flag that goes with the icon code after it.
pub open spec fn icon_flag(words: Seq<Seq<char>>, i: int) -> bool {
    &&& 0 <= i
    &&& i + 1 < words.len()
    &&& words[i].len() > 0
    &&& words[i][0] == '-'
    &&& words[i + 1] == seq!['%', 'i']
}

/// The words that the first `n` words of a template become.
pub open spec fn built(
    words: Seq<Seq<char>>,
    n: int,
    args: Seq<Seq<char>>,
    name: Seq<char>,
    source: Seq<char>,
) -> Seq<Seq<char>>
    decreases n,
{
    if n <= 0 {
        Seq::empty()
    } else if icon_flag(words, n - 1) {
        built(words, n - 1, args, name, source)
    } else {
        built(words, n - 1, args, name, source) + pieces(words[n - 1], args, name, source)
    }
}

/// The command that a template becomes for the arguments `args`. Where the template
/// names no place for arguments, they follow at its end.
pub open spec fn command(
    words: Seq<Seq<char>>,
    args: Seq<Seq<char>>,
    name: Seq<char>,
    source: Seq<char>,
) -> Seq<Seq<char>> {
    if takes_all(words) || takes_one(words) {
        built(words, words.len() as int, args, name, source)
    } else {
        built(words, words.len() as int, args, name, source) + args
    }
}

/// The commands that a template becomes: one for all arguments where it holds `%F` or
/// `%U` or there is at most one argument, else one for each argument.
pub open spec fn invocations(
    words: Seq<Seq<char>>,
    args: Seq<Seq<char>>,
    name: Seq<char>,
    source: Seq<char>,
) -> Seq<Seq<Seq<char>>> {
    if takes_all(words) || args.len() <= 1 {
        seq![command(words, args, name, source)]
    } else {
        Seq::new(args.len(), |i: int| command(words, seq![args[i]], name, source))
    }
}

/// Whether the word holds the field code of the letter `c`.
fn word_uses(w: &Vec<char>, c: char) -> (r: bool)
    ensures
        r == uses(w@, c),
{
    let mut i: usize = 0;
    proof {
        assert(w@.skip(0) =~= w@);
    }
    while i < w.len()
        invariant
            i <= w.len(),
            uses(w@, c) == uses(w@.skip(i as int), c),
        decreases w.len() - i,
    {
        let ghost rest = w@.skip(i as int);
        if w.len() - i < 2 {
            return false;
        }
        if w[i] != '%' {
            proof {
                assert(rest.skip(1) =~= w@.skip(i + 1));
            }
            i += 1;
        } else {
            if w[i + 1] == c {
                return true;
            }
            proof {
                assert(rest.skip(2) =~= w@.skip(i + 2));
            }
            i += 2;
        }
    }
    false
}

/// Whether one of the words holds the field code of the letter `c`.
fn template_uses(words: &Vec<String>, c: char) -> (r: bool)
    ensures
        r == any_uses(words.deep_view(), words.len() as int, c),
{
    let mut i: usize = 0;
    while i < words.len()
        invariant
            i <= words.len(),
            !any_uses(words.deep_view(), i as int, c),
        decreases words.len() - i,
    {
        let w = chars_of(words[i].as_str());
        if word_uses(&w, c) {
            assert(uses(words.deep_view()[i as int], c));
            return true;
        }
        i += 1;
    }
    false
}

/// What the field code of the letter `c` stands for inside a word.
fn code(c: char, args: &Vec<String>, name: &String, source: &String) -> (r: String)
    ensures
        r@ == code_text(c, args.deep_view(), name@, source@),
{
    if c == '%' {
        let mut r = String::new();
        r.push('%');
        proof {
            assert(r@ =~= seq!['%']);
        }
        r
    } else if c == 'f' || c == 'u' {
        if args.len() > 0 {
            assert(args.deep_view()[0] == args@[0]@);
            args[0].clone()
        } else {
            String::new()
        }
    } else if c == 'F' || c == 'U' {
        join(args, ' ')
    } else if c == 'c' {
        name.clone()
    } else if c == 'k' {
        source.clone()
    } else {
        String::new()
    }
}

/// The word with each field code replaced by what it stands for.
fn fill(w: &Vec<char>, args: &Vec<String>, name: &String, source: &String) -> (r: String)
    ensures
        r@ == filled(w@, args.deep_view(), name@, source@),
{
    let mut out = String::new();
    let mut i: usize = 0;
    let ghost a = args.deep_view();
    proof {
        assert(w@.skip(0) =~= w@);
        assert(out@ + filled(w@, a, name@, source@) =~= filled(w@, a, name@, source@));
    }
    while i < w.len()
        invariant
            i <= w.len(),
            a == args.deep_view(),
            filled(w@, a, name@, source@) == out@ + filled(w@.skip(i as int), a, name@, source@),
        decreases w.len() - i,
    {
        let ghost rest = w@.skip(i as int);
        let ghost before = out@;
        if w[i] != '%' {
            out.push(w[i]);
            proof {
                assert(rest.skip(1) =~= w@.skip(i + 1));
                assert(before.push(w@[i as int]) + filled(w@.skip(i + 1), a, name@, source@)
                    =~= before + (seq![rest[0]] + filled(rest.skip(1), a, name@, source@)));
            }
            i += 1;
        } else if w.len() - i == 1 {
            proof {
                assert(w@.skip(i + 1).len() == 0);
                assert(before + filled(w@.skip(i + 1), a, name@, source@) =~= before + filled(
                    rest,
                    a,
                    name@,
                    source@,
                ));
            }
            i += 1;
        } else {
            let text = code(w[i + 1], args, name, source);
            out.append(text.as_str());
            proof {
                assert(rest.skip(2) =~= w@.skip(i + 2));
                assert((before + text@) + filled(w@.skip(i + 2), a, name@, source@) =~= before + (
                code_text(rest[1], a, name@, source@) + filled(rest.skip(2), a, name@, source@)));
            }
            i += 2;
        }
    }
    proof {
        assert(out@ + filled(w@.skip(w.len() as int), a, name@, source@) =~= out@);
    }
    out
}

/// The words that one word of a template becomes.
fn pieces_of(word: &String, args: &Vec<String>, name: &String, source: &String) -> (r: Vec<
    String,
>)
    ensures
        r.deep_view() == pieces(word@, args.deep_view(), name@, source@),
{
    let w = chars_of(word.as_str());
    let lone = w.len() == 2 && w[0] == '%';
    if lone && (w[1] == 'F' || w[1] == 'U') {
        copy(args)
    } else if lone && (w[1] == 'f' || w[1] == 'u') {
        let mut r: Vec<String> = Vec::new();
        if args.len() > 0 {
            r.push(args[0].clone());
            proof {
                assert(r.deep_view() =~= seq![args.deep_view()[0]]);
            }
        } else {
            proof {
                assert(r.deep_view() =~= Seq::<Seq<char>>::empty());
            }
        }
        r
    } else if lone && w[1] != '%' && w[1] != 'c' && w[1] != 'k' {
        let r: Vec<String> = Vec::new();
        proof {
            assert(r.deep_view() =~= Seq::<Seq<char>>::empty());
        }
        r
    } else {
        let mut r: Vec<String> = Vec::new();
        r.push(fill(&w, args, name, source));
        proof {
            assert(r.deep_view() =~= seq![filled(word@, args.deep_view(), name@, source@)]);
        }
        r
    }
}

/// Whether the word at `i` is a flag that goes with the icon code after it.
fn is_icon_flag(words: &Vec<String>, i: usize) -> (r: bool)
    requires
        i < words.len(),
    ensures
        r == icon_flag(words.deep_view(), i as int),
{
    if words.len() - i < 2 {
        return false;
    }
    let w = chars_of(words[i].as_str());
    proof {
        reveal_strlit("%i");
        assert("%i"@ =~= seq!['%', 'i']);
        assert(words.deep_view()[i as int] == words@[i as int]@);
        assert(words.deep_view()[i + 1] == words@[i + 1]@);
    }
    w.len() > 0 && w[0] == '-' && is(&words[i + 1], "%i")
}

/// The words that a template becomes, without arguments that follow at its end.
fn build(words: &Vec<String>, args: &Vec<String>, name: &String, source: &String) -> (r: Vec<
    String,
>)
    ensures
        r.deep_view() == built(
            words.deep_view(),
            words.len() as int,
            args.deep_view(),
            name@,
            source@,
        ),
{
    let mut r: Vec<String> = Vec::new();
    let mut n: usize = 0;
    proof {
        assert(r.deep_view() =~= Seq::<Seq<char>>::empty());
    }
    while n < words.len()
        invariant
            n <= words.len(),
            r.deep_view() == built(words.deep_view(), n as int, args.deep_view(), name@, source@),
        decreases words.len() - n,
    {
        if !is_icon_flag(words, n) {
            let more = pieces_of(&words[n], args, name, source);
            extend(&mut r, &more);
        }
        n += 1;
    }
    r
}

/// The command that a template becomes for the arguments `args`.
fn command_of(
    words: &Vec<String>,
    places: bool,
    args: &Vec<String>,
    name: &String,
    source: &String,
) -> (r: Vec<String>)
    requires
        places == (takes_all(words.deep_view()) || takes_one(words.deep_view())),
    ensures
        r.deep_view() == command(words.deep_view(), args.deep_view(), name@, source@),
{
    let mut r = build(words, args, name, source);
    if !places {
        extend(&mut r, args);
    }
    r
}

/// The one command that the words of a template become for all of the arguments `args`,
/// for an entry of the name `name` read from the file `source`.
pub fn command_for(words: &Vec<String>, args: &Vec<String>, name: &String, source: &String) -> (r:
    Vec<String>)
    ensures
        r.deep_view() == command(words.deep_view(), args.deep_view(), name@, source@),
{
    let places = template_uses(words, 'F') || template_uses(words, 'U') || template_uses(
        words,
        'f',
    ) || template_uses(words, 'u');
    command_of(words, places, args, name, source)
}

/// The commands that the words of a template become for the arguments `args`, for an
/// entry of the name `name` read from the file `source`.
pub fn invocations_of(words: &Vec<String>, args: &Vec<String>, name: &String, source: &String) -> (r:
    Vec<Vec<String>>)
    ensures
        r.deep_view() == invocations(words.deep_view(), args.deep_view(), name@, source@),
{
    let all = template_uses(words, 'F') || template_uses(words, 'U');
    let places = all || template_uses(words, 'f') || template_uses(words, 'u');
    let mut r: Vec<Vec<String>> = Vec::new();
    if all || args.len() <= 1 {
        r.push(command_of(words, places, args, name, source));
        proof {
            assert(r.deep_view() =~= seq![
                command(words.deep_view(), args.deep_view(), name@, source@),
            ]);
        }
    } else {
        let mut i: usize = 0;
        let ghost w = words.deep_view();
        let ghost a = args.deep_view();
        proof {
            assert(r.deep_view() =~= Seq::new(0, |j: int| command(w, seq![a[j]], name@, source@)));
        }
        while i < args.len()
            invariant
                i <= args.len(),
                w == words.deep_view(),
                a == args.deep_view(),
                places == (takes_all(w) || takes_one(w)),
                r.deep_view() == Seq::new(i as nat, |j: int| command(w, seq![a[j]], name@, source@)),
            decreases args.len() - i,
        {
            let mut single: Vec<String> = Vec::new();
            single.push(args[i].clone());
            proof {
                assert(single.deep_view() =~= seq![a[i as int]]);
            }
            let ghost before = r.deep_view();
            let one = command_of(words, places, &single, name, source);
            r.push(one);
            proof {
                assert(r.deep_view() =~= before.push(one.deep_view()));
                assert(r.deep_view() =~= Seq::new(
                    (i + 1) as nat,
                    |j: int| command(w, seq![a[j]], name@, source@),
                ));
            }
            i += 1;
        }
    }
    r
}

} // verus!
