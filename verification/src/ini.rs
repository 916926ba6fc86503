//! The line format that desktop files and association files share: sections that a
//! line `[Name]` opens, and in them lines `key=value`. Empty lines and lines that start
//! with `#` say nothing, and neither does a line of any other form.

use crate::text::{chars_of, fields, find, is, part, position, slice, split, trim, trimmed};
use vstd::prelude::*;

verus! {

/// What a line says, as mathematics.
pub ghost enum LineView {
    Header(Seq<char>),
    Pair(Seq<char>, Seq<char>),
    Other,
}

/// What a line says.
#[derive(Debug, Clone, PartialEq, Eq)]
pub enum Line {
    /// A section starts; its name.
    Header(String),
    /// A key and its value.
    Pair(String, String),
    /// Nothing.
    Other,
}

impl View for Line {
    type V = LineView;

    open spec fn view(&self) -> LineView {
        match self {
            Line::Header(name) => LineView::Header(name@),
            Line::Pair(key, value) => LineView::Pair(key@, value@),
            Line::Other => LineView::Other,
        }
    }
}

/// What the line `l` says. White space around the line, the key and the value does not
/// count.
pub open spec fn read_line(l: Seq<char>) -> LineView {
    let t = trimmed(l);
    if t.len() == 0 || t[0] == '#' {
        LineView::Other
    } else if t[0] == '[' {
        if t.len() >= 2 && t[t.len() - 1] == ']' {
            LineView::Header(t.subrange(1, t.len() - 1))
        } else {
            LineView::Other
        }
    } else {
        let eq = position(t, '=', 0);
        if 0 <= eq < t.len() {
            LineView::Pair(trimmed(t.subrange(0, eq)), trimmed(t.subrange(eq + 1, t.len() as int)))
        } else {
            LineView::Other
        }
    }
}

/// The section that the line at `n` stands in: the name of the last header before it.
pub open spec fn section_before(lines: Seq<Seq<char>>, n: int) -> Option<Seq<char>>
    decreases n,
{
    if n <= 0 || n > lines.len() {
        None
    } else {
        match read_line(lines[n - 1]) {
            LineView::Header(name) => Some(name),
            _ => section_before(lines, n - 1),
        }
    }
}

/// The keys and values that the first `n` lines give in the section `section`, in their
/// order.
pub open spec fn pairs_upto(lines: Seq<Seq<char>>, n: int, section: Seq<char>) -> Seq<
    (Seq<char>, Seq<char>),
>
    decreases n,
{
    if n <= 0 || n > lines.len() {
        Seq::empty()
    } else {
        match read_line(lines[n - 1]) {
            LineView::Pair(key, value) if section_before(lines, n - 1) == Some(section) =>
                pairs_upto(lines, n - 1, section).push((key, value)),
            _ => pairs_upto(lines, n - 1, section),
        }
    }
}

/// The keys and values that the text gives in the section `section`, in their order.
pub open spec fn section_pairs(content: Seq<char>, section: Seq<char>) -> Seq<
    (Seq<char>, Seq<char>),
> {
    pairs_upto(fields(content, '\n', 0), fields(content, '\n', 0).len() as int, section)
}

/// Pairs of strings as pairs of texts.
pub open spec fn pair_views(pairs: Seq<(String, String)>) -> Seq<(Seq<char>, Seq<char>)> {
    Seq::new(pairs.len(), |i: int| (pairs[i].0@, pairs[i].1@))
}

/// Where the first pair with the key `key` stands at or after `from`, or the number of
/// pairs if there is none.
pub open spec fn key_place(pairs: Seq<(Seq<char>, Seq<char>)>, key: Seq<char>, from: int) -> int
    decreases pairs.len() - from,
{
    if from < 0 || from >= pairs.len() {
        pairs.len() as int
    } else if pairs[from].0 == key {
        from
    } else {
        key_place(pairs, key, from + 1)
    }
}

/// The value of the first pair with the key `key`, if there is one.
pub open spec fn first_value(pairs: Seq<(Seq<char>, Seq<char>)>, key: Seq<char>) -> Option<
    Seq<char>,
> {
    if 0 <= key_place(pairs, key, 0) < pairs.len() {
        Some(pairs[key_place(pairs, key, 0)].1)
    } else {
        None
    }
}

/// What the line says.
pub fn line_of(line: &String) -> (r: Line)
    ensures
        r@ == read_line(line@),
{
    let t = chars_of(trim(&chars_of(line.as_str())).as_str());
    if t.len() == 0 || t[0] == '#' {
        Line::Other
    } else if t[0] == '[' {
        if t.len() >= 2 && t[t.len() - 1] == ']' {
            Line::Header(slice(&t, 1, t.len() - 1))
        } else {
            Line::Other
        }
    } else {
        let eq = find(&t, '=', 0);
        if eq < t.len() {
            let key = trim(&part(&t, 0, eq));
            let value = trim(&part(&t, eq + 1, t.len()));
            Line::Pair(key, value)
        } else {
            Line::Other
        }
    }
}

/// The keys and values that the text gives in the section `section`, in their order.
pub fn pairs_of(content: &str, section: &str) -> (r: Vec<(String, String)>)
    ensures
        pair_views(r@) == section_pairs(content@, section@),
{
    let lines = split(&chars_of(content), '\n');
    let mut r: Vec<(String, String)> = Vec::new();
    let mut inside = false;
    let mut n: usize = 0;
    let ghost all = lines.deep_view();
    proof {
        assert(pair_views(r@) =~= Seq::<(Seq<char>, Seq<char>)>::empty());
    }
    while n < lines.len()
        invariant
            n <= lines.len(),
            all == lines.deep_view(),
            inside == (section_before(all, n as int) == Some(section@)),
            pair_views(r@) == pairs_upto(all, n as int, section@),
        decreases lines.len() - n,
    {
        assert(all[n as int] == lines@[n as int]@);
        let ghost before = r@;
        match line_of(&lines[n]) {
            Line::Header(name) => {
                inside = is(&name, section);
            },
            Line::Pair(key, value) => {
                if inside {
                    r.push((key, value));
                    proof {
                        assert(pair_views(r@) =~= pair_views(before).push((key@, value@)));
                    }
                }
            },
            Line::Other => {},
        }
        n += 1;
    }
    r
}

/// The value of the first pair with the key `key`, if there is one.
pub fn value_of<'a>(pairs: &'a Vec<(String, String)>, key: &str) -> (r: Option<&'a String>)
    ensures
        match r {
            Some(value) => first_value(pair_views(pairs@), key@) == Some(value@),
            None => first_value(pair_views(pairs@), key@) is None,
        },
{
    let mut i: usize = 0;
    let ghost all = pair_views(pairs@);
    while i < pairs.len()
        invariant
            i <= pairs.len(),
            all == pair_views(pairs@),
            key_place(all, key@, 0) == key_place(all, key@, i as int),
        decreases pairs.len() - i,
    {
        if is(&pairs[i].0, key) {
            return Some(&pairs[i].1);
        }
        i += 1;
    }
    None
}

} // verus!
