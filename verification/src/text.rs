//! Text as sequences of characters: the operations on strings that the rest of the
//! library is built from.

use vstd::prelude::*;

verus! {

/// `String::push` appends one character.
pub assume_specification[ String::push ](s: &mut String, c: char)
    ensures
        final(s)@ == old(s)@.push(c),
;

/// The characters of `s`, in order.
pub fn chars_of(s: &str) -> (v: Vec<char>)
    ensures
        v@ == s@,
{
    let mut v: Vec<char> = Vec::new();
    for c in it: s.chars()
        invariant
            v@ == it.seq().take(it.index() as int),
            it.seq() == s@,
    {
        v.push(c);
    }
    v
}

/// The string made of the characters of `v`, in order.
pub fn string_of(v: &Vec<char>) -> (s: String)
    ensures
        s@ == v@,
{
    let mut s = String::new();
    let mut i: usize = 0;
    while i < v.len()
        invariant
            i <= v.len(),
            s@ == v@.take(i as int),
        decreases v.len() - i,
    {
        s.push(v[i]);
        i += 1;
    }
    s
}

/// The lower-case form of an ASCII capital letter; any other character unchanged.
pub open spec fn lower(c: char) -> char {
    if 'A' <= c && c <= 'Z' {
        ((c as u8) + 32) as char
    } else {
        c
    }
}

/// `s` with every ASCII capital letter replaced by its lower-case form.
pub open spec fn lowercase(s: Seq<char>) -> Seq<char> {
    Seq::new(s.len(), |i: int| lower(s[i]))
}

pub fn to_lower(c: char) -> (r: char)
    ensures
        r == lower(c),
{
    if c >= 'A' && c <= 'Z' {
        ((c as u8) + 32) as char
    } else {
        c
    }
}

/// The characters of `v` from `from` up to `to`, in lower case, as a string.
pub fn lowered(v: &Vec<char>, from: usize, to: usize) -> (s: String)
    requires
        from <= to <= v.len(),
    ensures
        s@ == lowercase(v@.subrange(from as int, to as int)),
{
    let mut s = String::new();
    let mut i: usize = from;
    while i < to
        invariant
            from <= i <= to <= v.len(),
            s@ == lowercase(v@.subrange(from as int, i as int)),
        decreases to - i,
    {
        s.push(to_lower(v[i]));
        proof {
            assert(lowercase(v@.subrange(from as int, i as int)).push(lower(v@[i as int]))
                =~= lowercase(v@.subrange(from as int, i + 1)));
        }
        i += 1;
    }
    proof {
        assert(v@.subrange(from as int, from as int) =~= Seq::<char>::empty());
    }
    s
}

/// The characters of `v` from `from` up to `to`, as a string.
pub fn slice(v: &Vec<char>, from: usize, to: usize) -> (s: String)
    requires
        from <= to <= v.len(),
    ensures
        s@ == v@.subrange(from as int, to as int),
{
    let mut s = String::new();
    let mut i: usize = from;
    while i < to
        invariant
            from <= i <= to <= v.len(),
            s@ == v@.subrange(from as int, i as int),
        decreases to - i,
    {
        s.push(v[i]);
        proof {
            assert(v@.subrange(from as int, i as int).push(v@[i as int]) =~= v@.subrange(
                from as int,
                i + 1,
            ));
        }
        i += 1;
    }
    s
}

/// Where `c` first occurs in `s` at or after `from`, or the length of `s` if it does not.
pub open spec fn position(s: Seq<char>, c: char, from: int) -> int
    decreases s.len() - from,
{
    if from < 0 || from >= s.len() {
        s.len() as int
    } else if s[from] == c {
        from
    } else {
        position(s, c, from + 1)
    }
}

/// `position` is the least index at or after `from` that holds `c`.
pub proof fn lemma_position(s: Seq<char>, c: char, from: int)
    requires
        0 <= from <= s.len(),
    ensures
        from <= position(s, c, from) <= s.len(),
        position(s, c, from) < s.len() ==> s[position(s, c, from)] == c,
        forall|j: int| from <= j < position(s, c, from) ==> s[j] != c,
    decreases s.len() - from,
{
    if from < s.len() && s[from] != c {
        lemma_position(s, c, from + 1);
    }
}

/// An index at or after `from` that holds `c`, before which no index from `from` on holds
/// it, is where `c` is found.
pub proof fn lemma_position_is(s: Seq<char>, c: char, from: int, at: int)
    requires
        0 <= from <= at <= s.len(),
        at < s.len() ==> s[at] == c,
        forall|j: int| from <= j < at ==> s[j] != c,
    ensures
        position(s, c, from) == at,
    decreases at - from,
{
    if from < at {
        lemma_position_is(s, c, from + 1, at);
    }
}

/// Where `c` first occurs in `v` at or after `from`, or the length of `v` if it does not.
pub fn find(v: &Vec<char>, c: char, from: usize) -> (i: usize)
    requires
        from <= v.len(),
    ensures
        i == position(v@, c, from as int),
        from <= i <= v.len(),
{
    let mut i: usize = from;
    while i < v.len() && v[i] != c
        invariant
            from <= i <= v.len(),
            position(v@, c, from as int) == position(v@, c, i as int),
        decreases v.len() - i,
    {
        i += 1;
    }
    i
}

/// Whether `a` comes before `b` in the order of the dictionary, where the two are the
/// same before `from`: at the first place where they differ `a` has the lesser
/// character, or `a` ends where `b` goes on.
pub open spec fn before_from(a: Seq<char>, b: Seq<char>, from: int) -> bool
    decreases b.len() - from,
{
    if from < 0 || from >= b.len() {
        false
    } else if from >= a.len() {
        true
    } else if a[from] != b[from] {
        a[from] < b[from]
    } else {
        before_from(a, b, from + 1)
    }
}

/// Whether `a` comes before `b` in the order of the dictionary, characters taken by
/// their code points.
pub open spec fn before(a: Seq<char>, b: Seq<char>) -> bool {
    before_from(a, b, 0)
}

/// Of two texts that differ, one comes before the other.
pub proof fn lemma_before_connected(a: Seq<char>, b: Seq<char>, from: int)
    requires
        0 <= from <= a.len(),
        from <= b.len(),
        a != b,
        forall|j: int| 0 <= j < from ==> a[j] == b[j],
    ensures
        before_from(a, b, from) || before_from(b, a, from),
    decreases a.len() + b.len() - from - from,
{
    if from < a.len() && from < b.len() {
        if a[from] == b[from] {
            lemma_before_connected(a, b, from + 1);
        }
    } else if from == a.len() && from == b.len() {
        assert(a =~= b);
    }
}

/// No text comes before itself, and of two texts not each comes before the other.
pub proof fn lemma_before_asymmetric(a: Seq<char>, b: Seq<char>, from: int)
    requires
        0 <= from,
    ensures
        !(before_from(a, b, from) && before_from(b, a, from)),
    decreases a.len() + b.len() - from - from,
{
    if from < a.len() && from < b.len() && a[from] == b[from] {
        lemma_before_asymmetric(a, b, from + 1);
    }
}

/// What comes before a text comes before what the text comes before.
pub proof fn lemma_before_transitive(a: Seq<char>, b: Seq<char>, c: Seq<char>, from: int)
    requires
        0 <= from,
        before_from(a, b, from),
        before_from(b, c, from),
    ensures
        before_from(a, c, from),
    decreases c.len() - from,
{
    if from < a.len() && from < b.len() && from < c.len() {
        if a[from] == b[from] && b[from] == c[from] {
            lemma_before_transitive(a, b, c, from + 1);
        }
    }
}

/// Whether `a` comes before `b` in the order of the dictionary.
pub fn precedes(a: &Vec<char>, b: &Vec<char>) -> (r: bool)
    ensures
        r == before(a@, b@),
{
    let mut i: usize = 0;
    while i < a.len() && i < b.len()
        invariant
            i <= a.len(),
            i <= b.len(),
            before(a@, b@) == before_from(a@, b@, i as int),
        decreases a.len() - i,
    {
        if a[i] != b[i] {
            return a[i] < b[i];
        }
        i += 1;
    }
    i < b.len()
}

/// The texts of `items` in a row, with `sep` between each two.
pub open spec fn joined(items: Seq<Seq<char>>, sep: char) -> Seq<char>
    decreases items.len(),
{
    if items.len() == 0 {
        Seq::empty()
    } else if items.len() == 1 {
        items[0]
    } else {
        joined(items.drop_last(), sep) + seq![sep] + items.last()
    }
}

/// The texts of `items` in a row, each followed by `sep`.
pub open spec fn terminated(items: Seq<Seq<char>>, sep: char) -> Seq<char>
    decreases items.len(),
{
    if items.len() == 0 {
        Seq::empty()
    } else {
        terminated(items.drop_last(), sep) + items.last() + seq![sep]
    }
}

/// The strings of `items` in a row, with `sep` between each two.
pub fn join(items: &Vec<String>, sep: char) -> (r: String)
    ensures
        r@ == joined(items.deep_view(), sep),
{
    let mut r = String::new();
    let mut i: usize = 0;
    proof {
        assert(items.deep_view().take(0) =~= Seq::<Seq<char>>::empty());
    }
    while i < items.len()
        invariant
            i <= items.len(),
            r@ == joined(items.deep_view().take(i as int), sep),
        decreases items.len() - i,
    {
        proof {
            let upto = items.deep_view().take(i + 1);
            assert(upto.drop_last() =~= items.deep_view().take(i as int));
            assert(upto.last() == items@[i as int]@);
            if i == 0 {
                assert(r@ + items@[i as int]@ =~= items@[i as int]@);
            } else {
                assert(r@.push(sep) + items@[i as int]@ =~= r@ + seq![sep] + items@[i as int]@);
            }
        }
        if i > 0 {
            r.push(sep);
        }
        r.append(items[i].as_str());
        i += 1;
    }
    proof {
        assert(items.deep_view().take(items.len() as int) =~= items.deep_view());
    }
    r
}

/// The characters of `v` from `from` up to `to`.
pub fn part(v: &Vec<char>, from: usize, to: usize) -> (r: Vec<char>)
    requires
        from <= to <= v.len(),
    ensures
        r@ == v@.subrange(from as int, to as int),
{
    let mut r: Vec<char> = Vec::new();
    let mut i: usize = from;
    while i < to
        invariant
            from <= i <= to <= v.len(),
            r@ == v@.subrange(from as int, i as int),
        decreases to - i,
    {
        r.push(v[i]);
        proof {
            assert(v@.subrange(from as int, i as int).push(v@[i as int]) =~= v@.subrange(
                from as int,
                i + 1,
            ));
        }
        i += 1;
    }
    r
}

/// The non-empty stretches of `s` at or after `from` that hold no `sep`, in their order:
/// what stands between two separators, before the first and after the last.
pub open spec fn fields(s: Seq<char>, sep: char, from: int) -> Seq<Seq<char>>
    decreases s.len() - from,
{
    if from < 0 || from >= s.len() {
        Seq::empty()
    } else {
        let end = position(s, sep, from);
        if end < from || end > s.len() {
            Seq::empty()
        } else if end == s.len() {
            seq![s.subrange(from, end)]
        } else if end > from {
            seq![s.subrange(from, end)] + fields(s, sep, end + 1)
        } else {
            fields(s, sep, end + 1)
        }
    }
}

/// The non-empty stretches of `v` that hold no `sep`, in their order.
pub fn split(v: &Vec<char>, sep: char) -> (r: Vec<String>)
    ensures
        r.deep_view() == fields(v@, sep, 0),
{
    let mut r: Vec<String> = Vec::new();
    let mut from: usize = 0;
    proof {
        assert(r.deep_view() + fields(v@, sep, 0) =~= fields(v@, sep, 0));
    }
    while from < v.len()
        invariant
            from <= v.len(),
            fields(v@, sep, 0) == r.deep_view() + fields(v@, sep, from as int),
        decreases v.len() - from,
    {
        let end = find(v, sep, from);
        let ghost before = r.deep_view();
        if end > from {
            let piece = slice(v, from, end);
            r.push(piece);
            proof {
                assert(r.deep_view() =~= before.push(v@.subrange(from as int, end as int)));
                if end < v.len() {
                    assert(before.push(v@.subrange(from as int, end as int)) + fields(
                        v@,
                        sep,
                        end + 1,
                    ) =~= before + (seq![v@.subrange(from as int, end as int)] + fields(
                        v@,
                        sep,
                        end + 1,
                    )));
                } else {
                    assert(before.push(v@.subrange(from as int, end as int)) + fields(
                        v@,
                        sep,
                        end as int,
                    ) =~= before + seq![v@.subrange(from as int, end as int)]);
                }
            }
        }
        if end < v.len() {
            from = end + 1;
        } else {
            from = end;
        }
    }
    proof {
        assert(r.deep_view() + fields(v@, sep, from as int) =~= r.deep_view());
    }
    r
}

/// Whether the character is ASCII white space.
pub open spec fn is_space(c: char) -> bool {
    c == ' ' || c == '\t' || c == '\n' || c == '\r'
}

/// How many characters of white space `s` starts with, looked at from `from`.
pub open spec fn leading(s: Seq<char>, from: int) -> int
    decreases s.len() - from,
{
    if 0 <= from < s.len() && is_space(s[from]) {
        leading(s, from + 1)
    } else {
        from
    }
}

/// Where the white space at the end of `s` starts, looked at from `to` downwards and not
/// below `from`.
pub open spec fn trailing(s: Seq<char>, from: int, to: int) -> int
    decreases to,
{
    if 0 <= from < to <= s.len() && is_space(s[to - 1]) {
        trailing(s, from, to - 1)
    } else {
        to
    }
}

/// `s` without the white space at its start and at its end.
pub open spec fn trimmed(s: Seq<char>) -> Seq<char> {
    let from = leading(s, 0);
    s.subrange(from, trailing(s, from, s.len() as int))
}

/// The first line of `s`: what precedes its first line feed, or all of it.
pub open spec fn first_line(s: Seq<char>) -> Seq<char> {
    s.take(position(s, '\n', 0))
}

/// `v` without the white space at its start and at its end, as a string.
pub fn trim(v: &Vec<char>) -> (r: String)
    ensures
        r@ == trimmed(v@),
{
    let mut from: usize = 0;
    while from < v.len() && (v[from] == ' ' || v[from] == '\t' || v[from] == '\n' || v[from]
        == '\r')
        invariant
            from <= v.len(),
            leading(v@, 0) == leading(v@, from as int),
        decreases v.len() - from,
    {
        from += 1;
    }
    let mut to: usize = v.len();
    while from < to && (v[to - 1] == ' ' || v[to - 1] == '\t' || v[to - 1] == '\n' || v[to - 1]
        == '\r')
        invariant
            from <= to <= v.len(),
            trailing(v@, from as int, v@.len() as int) == trailing(v@, from as int, to as int),
        decreases to,
    {
        to -= 1;
    }
    slice(v, from, to)
}

/// The first line of `v`, without the white space at its start and at its end.
pub fn first_line_trimmed(v: &Vec<char>) -> (r: String)
    ensures
        r@ == trimmed(first_line(v@)),
{
    let end = find(v, '\n', 0);
    let mut line: Vec<char> = Vec::new();
    let mut i: usize = 0;
    while i < end
        invariant
            i <= end <= v.len(),
            line@ == v@.take(i as int),
        decreases end - i,
    {
        line.push(v[i]);
        proof {
            assert(v@.take(i as int).push(v@[i as int]) =~= v@.take(i + 1));
        }
        i += 1;
    }
    trim(&line)
}

/// The first `n` of `pieces` without the white space at their ends, in their order; a
/// piece of white space only is passed over.
pub open spec fn tidied(pieces: Seq<Seq<char>>, n: int) -> Seq<Seq<char>>
    decreases n,
{
    if n <= 0 || n > pieces.len() {
        Seq::empty()
    } else if trimmed(pieces[n - 1]).len() > 0 {
        tidied(pieces, n - 1).push(trimmed(pieces[n - 1]))
    } else {
        tidied(pieces, n - 1)
    }
}

/// The items of a list in which `sep` ends or separates the items: what stands between
/// the separators, without white space at its ends, where anything is left of it.
pub open spec fn items(s: Seq<char>, sep: char) -> Seq<Seq<char>> {
    tidied(fields(s, sep, 0), fields(s, sep, 0).len() as int)
}

/// The items of a list in which `sep` ends or separates the items.
pub fn items_of(s: &str, sep: char) -> (r: Vec<String>)
    ensures
        r.deep_view() == items(s@, sep),
{
    let pieces = split(&chars_of(s), sep);
    let mut r: Vec<String> = Vec::new();
    let mut n: usize = 0;
    proof {
        assert(r.deep_view() =~= Seq::<Seq<char>>::empty());
    }
    while n < pieces.len()
        invariant
            n <= pieces.len(),
            r.deep_view() == tidied(pieces.deep_view(), n as int),
        decreases pieces.len() - n,
    {
        assert(pieces.deep_view()[n as int] == pieces@[n as int]@);
        let item = trim(&chars_of(pieces[n].as_str()));
        if item.as_str().unicode_len() > 0 {
            let ghost before = r.deep_view();
            r.push(item);
            proof {
                assert(r.deep_view() =~= before.push(item@));
            }
        }
        n += 1;
    }
    r
}

/// Whether `s` is the text `lit`.
pub fn is(s: &String, lit: &str) -> (r: bool)
    ensures
        r == (s@ == lit@),
{
    *s == lit.to_owned()
}

} // verus!
