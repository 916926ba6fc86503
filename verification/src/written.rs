//! What is written of associations is read back as it was.

use crate::associations::{each_once, AssociationsFile};
use crate::ini::{pairs_upto, read_line, section_before, section_pairs, LineView};
use crate::layer::Layer;
use crate::lists::{lemma_distinct_no_duplicates, lemma_distinct_of_no_duplicates};
use crate::mime_types::{lemma_canonical_of_text, MimeKey};
use crate::mimeapps::{
    associations_in, file_text, handlers_in, header_line, layer_in, layer_upto, row_line,
    rows_text, section_text,
};
use crate::text::{
    fields, is_space, items, leading, lemma_position, lemma_position_is, position, terminated,
    tidied, trailing, trimmed,
};
use vstd::prelude::*;

verus! {

/// The test for not being empty.
pub open spec fn filled() -> spec_fn(Seq<char>) -> bool {
    |s: Seq<char>| s.len() > 0
}

/// Whether the text holds no `c`.
pub open spec fn free_of(s: Seq<char>, c: char) -> bool {
    forall|i: int| 0 <= i < s.len() ==> s[i] != c
}

/// One more item at the end of a text that is empty or ends with the separator gives one
/// more field, unless the item is empty.
proof fn lemma_fields_appended(s: Seq<char>, item: Seq<char>, sep: char, from: int)
    requires
        0 <= from <= s.len(),
        s.len() == 0 || s.last() == sep,
        free_of(item, sep),
    ensures
        fields(s + item + seq![sep], sep, from) == fields(s, sep, from) + if item.len() > 0 {
            seq![item]
        } else {
            Seq::empty()
        },
    decreases s.len() - from,
{
    let t = s + item + seq![sep];
    let more = if item.len() > 0 {
        seq![item]
    } else {
        Seq::<Seq<char>>::empty()
    };
    if from == s.len() {
        let end: int = (s.len() + item.len()) as int;
        assert(t[end] == sep);
        assert forall|j: int| from <= j < end implies t[j] != sep by {
            assert(t[j] == item[j - s.len()]);
        }
        lemma_position_is(t, sep, from, end);
        assert(fields(t, sep, end + 1) =~= Seq::<Seq<char>>::empty());
        assert(fields(s, sep, from) =~= Seq::<Seq<char>>::empty());
        if item.len() > 0 {
            assert(t.subrange(from, end) =~= item);
            assert(fields(t, sep, from) == seq![item] + fields(t, sep, end + 1));
            assert(fields(t, sep, from) =~= fields(s, sep, from) + more);
        } else {
            assert(fields(t, sep, from) == fields(t, sep, end + 1));
            assert(fields(t, sep, from) =~= fields(s, sep, from) + more);
        }
    } else {
        lemma_position(s, sep, from);
        let end = position(s, sep, from);
        if end >= s.len() {
            assert(s[s.len() - 1] == sep);
            assert(false);
        }
        assert(t[end] == s[end]);
        assert forall|j: int| from <= j < end implies t[j] != sep by {
            assert(t[j] == s[j]);
        }
        lemma_position_is(t, sep, from, end);
        lemma_fields_appended(s, item, sep, end + 1);
        assert(t.subrange(from, end) =~= s.subrange(from, end));
        if end > from {
            assert(fields(t, sep, from) == seq![t.subrange(from, end)] + fields(t, sep, end + 1));
            assert(fields(s, sep, from) == seq![s.subrange(from, end)] + fields(s, sep, end + 1));
            assert(seq![s.subrange(from, end)] + (fields(s, sep, end + 1) + more) =~= (
            seq![s.subrange(from, end)] + fields(s, sep, end + 1)) + more);
        } else {
            assert(fields(t, sep, from) == fields(t, sep, end + 1));
            assert(fields(s, sep, from) == fields(s, sep, end + 1));
        }
    }
}

/// A text of items that are each followed by the separator is empty or ends with it.
proof fn lemma_terminated_ends(items: Seq<Seq<char>>, sep: char)
    ensures
        terminated(items, sep).len() == 0 || terminated(items, sep).last() == sep,
{
}

/// The fields of a text of items that are each followed by the separator are the items
/// that are not empty, where no item holds the separator.
pub proof fn lemma_fields_of_terminated(items: Seq<Seq<char>>, sep: char)
    requires
        forall|i: int| 0 <= i < items.len() ==> free_of(#[trigger] items[i], sep),
    ensures
        fields(terminated(items, sep), sep, 0) == items.filter(filled()),
    decreases items.len(),
{
    reveal(Seq::filter);
    if items.len() == 0 {
    } else {
        let front = items.drop_last();
        assert forall|i: int| 0 <= i < front.len() implies free_of(#[trigger] front[i], sep) by {
            assert(front[i] == items[i]);
        }
        lemma_fields_of_terminated(front, sep);
        lemma_terminated_ends(front, sep);
        lemma_fields_appended(terminated(front, sep), items.last(), sep, 0);
        if items.last().len() > 0 {
            assert(front.filter(filled()) + seq![items.last()] =~= front.filter(filled()).push(
                items.last(),
            ));
        } else {
            assert(front.filter(filled()) + Seq::<Seq<char>>::empty() =~= front.filter(filled()));
        }
    }
}

/// A text that neither starts nor ends with white space is as it is without the white
/// space at its ends.
pub proof fn lemma_trimmed_same(s: Seq<char>)
    requires
        s.len() > 0 ==> !is_space(s[0]) && !is_space(s.last()),
    ensures
        trimmed(s) == s,
{
    if s.len() > 0 {
        assert(leading(s, 0) == 0);
        assert(trailing(s, 0, s.len() as int) == s.len());
    } else {
        assert(leading(s, 0) == 0);
        assert(trailing(s, 0, 0) == 0);
    }
    assert(s.subrange(0, s.len() as int) =~= s);
}

/// Pieces that are not empty and neither start nor end with white space are their own
/// items.
pub proof fn lemma_tidied_same(pieces: Seq<Seq<char>>, n: int)
    requires
        0 <= n <= pieces.len(),
        forall|i: int|
            0 <= i < pieces.len() ==> (#[trigger] pieces[i]).len() > 0 && !is_space(pieces[i][0])
                && !is_space(pieces[i].last()),
    ensures
        tidied(pieces, n) == pieces.take(n),
    decreases n,
{
    if n > 0 {
        lemma_tidied_same(pieces, n - 1);
        lemma_trimmed_same(pieces[n - 1]);
        assert(pieces.take(n - 1).push(pieces[n - 1]) =~= pieces.take(n));
    } else {
        assert(pieces.take(0) =~= Seq::<Seq<char>>::empty());
    }
}

/// A text of items that are each followed by the separator starts as its first item
/// does, and holds a character only where an item holds it or it is the separator.
proof fn lemma_terminated_facts(items: Seq<Seq<char>>, sep: char, c: char)
    requires
        c != sep,
        forall|i: int| 0 <= i < items.len() ==> free_of(#[trigger] items[i], c),
    ensures
        free_of(terminated(items, sep), c),
        items.len() > 0 ==> terminated(items, sep).len() > 0,
        items.len() > 0 && items[0].len() > 0 ==> terminated(items, sep)[0] == items[0][0],
    decreases items.len(),
{
    if items.len() > 0 {
        let front = items.drop_last();
        assert forall|i: int| 0 <= i < front.len() implies free_of(#[trigger] front[i], c) by {
            assert(front[i] == items[i]);
        }
        lemma_terminated_facts(front, sep, c);
        let t = terminated(items, sep);
        let f = terminated(front, sep);
        assert forall|j: int| 0 <= j < t.len() implies t[j] != c by {
            if j < f.len() {
                assert(t[j] == f[j]);
            } else if j < f.len() + items.last().len() {
                assert(t[j] == items.last()[j - f.len()]);
            }
        }
        if items[0].len() > 0 {
            if front.len() > 0 {
                assert(front[0] == items[0]);
                assert(t[0] == f[0]);
            } else {
                assert(f.len() == 0);
                assert(t[0] == items.last()[0]);
            }
        }
    }
}

/// The texts of two lists of items in a row are the text of the lists in a row.
proof fn lemma_terminated_add(a: Seq<Seq<char>>, b: Seq<Seq<char>>, sep: char)
    ensures
        terminated(a + b, sep) == terminated(a, sep) + terminated(b, sep),
    decreases b.len(),
{
    if b.len() == 0 {
        assert(a + b =~= a);
        assert(terminated(a, sep) + terminated(b, sep) =~= terminated(a, sep));
    } else {
        lemma_terminated_add(a, b.drop_last(), sep);
        assert((a + b).drop_last() =~= a + b.drop_last());
        assert((a + b).last() == b.last());
        assert(terminated(a + b, sep) =~= terminated(a, sep) + terminated(b, sep));
    }
}

/// A list whose items are all filled is what is left of it when the empty ones go.
proof fn lemma_all_filled(items: Seq<Seq<char>>)
    requires
        forall|i: int| 0 <= i < items.len() ==> (#[trigger] items[i]).len() > 0,
    ensures
        items.filter(filled()) == items,
    decreases items.len(),
{
    reveal(Seq::filter);
    if items.len() > 0 {
        let front = items.drop_last();
        assert forall|i: int| 0 <= i < front.len() implies (#[trigger] front[i]).len() > 0 by {
            assert(front[i] == items[i]);
        }
        lemma_all_filled(front);
        assert(front.push(items.last()) =~= items);
    }
}

/// Whether a handler's id can stand in a list of the file: it is not empty, holds neither
/// `;` nor a line feed, and neither starts nor ends with white space.
pub open spec fn handler_fits(h: Seq<char>) -> bool {
    &&& h.len() > 0
    &&& free_of(h, ';')
    &&& free_of(h, '\n')
    &&& !is_space(h[0])
    &&& !is_space(h.last())
}

/// Whether a list of handlers can stand in the file: each of them can, and none is
/// named twice.
pub open spec fn list_fits(handlers: Seq<Seq<char>>) -> bool {
    &&& forall|i: int| 0 <= i < handlers.len() ==> handler_fits(#[trigger] handlers[i])
    &&& handlers.no_duplicates()
}

/// A list of handlers that was written with `;` after each is read back as it was.
pub proof fn lemma_handlers_read_back(handlers: Seq<Seq<char>>)
    requires
        list_fits(handlers),
    ensures
        handlers_in(terminated(handlers, ';')) == handlers,
{
    assert forall|i: int| 0 <= i < handlers.len() implies free_of(#[trigger] handlers[i], ';') by {
        assert(handler_fits(handlers[i]));
    }
    lemma_fields_of_terminated(handlers, ';');
    assert forall|i: int| 0 <= i < handlers.len() implies (#[trigger] handlers[i]).len() > 0 by {
        assert(handler_fits(handlers[i]));
    }
    lemma_all_filled(handlers);
    assert forall|i: int| 0 <= i < handlers.len() implies (#[trigger] handlers[i]).len() > 0
        && !is_space(handlers[i][0]) && !is_space(handlers[i].last()) by {
        assert(handler_fits(handlers[i]));
    }
    lemma_tidied_same(handlers, handlers.len() as int);
    assert(handlers.take(handlers.len() as int) =~= handlers);
    lemma_distinct_of_no_duplicates(handlers);
}

/// Whether a MIME type can stand at the start of a line of the file: it is well formed,
/// its text holds neither `=` nor a line feed, neither starts nor ends with white space,
/// and does not start as a header or a comment does.
pub open spec fn key_fits(k: MimeKey) -> bool {
    &&& k.well_formed()
    &&& free_of(k.text(), '=')
    &&& free_of(k.text(), '\n')
    &&& !is_space(k.text()[0])
    &&& !is_space(k.text().last())
    &&& k.text()[0] != '['
    &&& k.text()[0] != '#'
}

/// The header of a section is read as that header.
proof fn lemma_read_header(name: Seq<char>)
    requires
        free_of(name, '\n'),
    ensures
        read_line(header_line(name)) == LineView::Header(name),
        free_of(header_line(name), '\n'),
        header_line(name).len() > 0,
{
    let line = header_line(name);
    assert(line[0] == '[');
    assert(line.last() == ']');
    lemma_trimmed_same(line);
    assert(line.subrange(1, line.len() - 1) =~= name);
    assert forall|j: int| 0 <= j < line.len() implies line[j] != '\n' by {
        if 0 < j < line.len() - 1 {
            assert(line[j] == name[j - 1]);
        }
    }
}

/// The line of a MIME type and its handlers is read as that pair.
proof fn lemma_read_row(k: MimeKey, handlers: Seq<Seq<char>>)
    requires
        key_fits(k),
        list_fits(handlers),
    ensures
        read_line(row_line(k, handlers)) == LineView::Pair(k.text(), terminated(handlers, ';')),
        free_of(row_line(k, handlers), '\n'),
        row_line(k, handlers).len() > 0,
{
    let line = row_line(k, handlers);
    let key = k.text();
    let list = terminated(handlers, ';');
    let n = key.len() as int;
    assert forall|i: int| 0 <= i < handlers.len() implies free_of(#[trigger] handlers[i], '\n') by {
        assert(handler_fits(handlers[i]));
    }
    lemma_terminated_facts(handlers, ';', '\n');
    lemma_terminated_ends(handlers, ';');
    assert(key.len() > 0);
    assert(line[0] == key[0]);
    assert(line[n] == '=');
    if list.len() > 0 {
        assert(line.last() == list.last());
        assert(handlers.len() > 0);
        assert(handler_fits(handlers[0]));
        assert(list[0] == handlers[0][0]);
    } else {
        assert(line.last() == '=');
    }
    lemma_trimmed_same(line);
    assert forall|j: int| 0 <= j < n implies line[j] != '=' by {
        assert(line[j] == key[j]);
    }
    lemma_position_is(line, '=', 0, n);
    assert(line.subrange(0, n) =~= key);
    assert(line.subrange(n + 1, line.len() as int) =~= list);
    lemma_trimmed_same(key);
    lemma_trimmed_same(list);
    assert forall|j: int| 0 <= j < line.len() implies line[j] != '\n' by {
        if j < n {
            assert(line[j] == key[j]);
        } else if j > n {
            assert(line[j] == list[j - n - 1]);
        }
    }
}

/// The pairs that the lines of the first `n` MIME types of `order` give.
pub open spec fn row_pairs(
    order: Seq<MimeKey>,
    layer: Map<MimeKey, Seq<Seq<char>>>,
    n: int,
) -> Seq<(Seq<char>, Seq<char>)> {
    Seq::new(n as nat, |i: int| (order[i].text(), terminated(layer[order[i]], ';')))
}

/// Whether the first `n` MIME types of `order` and their handlers in `layer` can stand in
/// the file.
pub open spec fn rows_fit(order: Seq<MimeKey>, layer: Map<MimeKey, Seq<Seq<char>>>, n: int) -> bool {
    forall|i: int|
        0 <= i < n ==> key_fits(#[trigger] order[i]) && layer.contains_key(order[i]) && list_fits(
            layer[order[i]],
        )
}

/// Lines that hold a section's header at `at` and after it the lines of the first `n`
/// MIME types of `order` are read, up to the `j`th of them, as that section with those
/// pairs.
proof fn lemma_read_rows(
    lines: Seq<Seq<char>>,
    at: int,
    name: Seq<char>,
    order: Seq<MimeKey>,
    layer: Map<MimeKey, Seq<Seq<char>>>,
    n: int,
    j: int,
    target: Seq<char>,
)
    requires
        0 <= at,
        0 <= j <= n <= order.len(),
        at + 1 + n <= lines.len(),
        free_of(name, '\n'),
        lines[at] == header_line(name),
        forall|i: int| 0 <= i < n ==> #[trigger] lines[at + 1 + i] == row_line(order[i], layer[order[i]]),
        rows_fit(order, layer, n),
    ensures
        section_before(lines, at + 1 + j) == Some(name),
        pairs_upto(lines, at + 1 + j, target) == pairs_upto(lines, at, target) + if name == target {
            row_pairs(order, layer, j)
        } else {
            Seq::empty()
        },
    decreases j,
{
    let start = pairs_upto(lines, at, target);
    if j == 0 {
        lemma_read_header(name);
        assert(row_pairs(order, layer, 0) =~= Seq::<(Seq<char>, Seq<char>)>::empty());
        assert(start + Seq::<(Seq<char>, Seq<char>)>::empty() =~= start);
    } else {
        lemma_read_rows(lines, at, name, order, layer, n, j - 1, target);
        assert(lines[at + 1 + (j - 1)] == row_line(order[j - 1], layer[order[j - 1]]));
        assert(key_fits(order[j - 1]));
        lemma_read_row(order[j - 1], layer[order[j - 1]]);
        if name == target {
            assert(row_pairs(order, layer, j - 1).push(
                (order[j - 1].text(), terminated(layer[order[j - 1]], ';')),
            ) =~= row_pairs(order, layer, j));
            assert((start + row_pairs(order, layer, j - 1)).push(
                (order[j - 1].text(), terminated(layer[order[j - 1]], ';')),
            ) =~= start + row_pairs(order, layer, j));
        }
    }
}

/// The first `n` MIME types of `order`, as a set.
pub open spec fn first_keys(order: Seq<MimeKey>, n: int) -> Set<MimeKey> {
    Set::new(|k: MimeKey| exists|i: int| 0 <= i < n && i < order.len() && #[trigger] order[i] == k)
}

/// The pairs of the lines of a layer give the layer's entries back.
proof fn lemma_layer_of_rows(order: Seq<MimeKey>, layer: Map<MimeKey, Seq<Seq<char>>>, n: int)
    requires
        0 <= n <= order.len(),
        rows_fit(order, layer, order.len() as int),
    ensures
        forall|k: MimeKey|
            #![trigger layer_upto(row_pairs(order, layer, order.len() as int), n).contains_key(k)]
            layer_upto(row_pairs(order, layer, order.len() as int), n).contains_key(k)
                <==> first_keys(order, n).contains(k),
        forall|k: MimeKey|
            #![trigger layer_upto(row_pairs(order, layer, order.len() as int), n).contains_key(k)]
            layer_upto(row_pairs(order, layer, order.len() as int), n).contains_key(k)
                ==> layer_upto(row_pairs(order, layer, order.len() as int), n)[k] == layer[k],
    decreases n,
{
    let pairs = row_pairs(order, layer, order.len() as int);
    if n > 0 {
        lemma_layer_of_rows(order, layer, n - 1);
        let k0 = order[n - 1];
        assert(key_fits(k0));
        lemma_canonical_of_text(k0);
        lemma_handlers_read_back(layer[k0]);
        let now = layer_upto(pairs, n);
        let was = layer_upto(pairs, n - 1);
        assert(now == was.insert(k0, layer[k0]));
        assert forall|k: MimeKey| #![trigger now.contains_key(k)] now.contains_key(k)
            <==> first_keys(order, n).contains(k) by {
            assert(was.contains_key(k) <==> first_keys(order, n - 1).contains(k));
            if first_keys(order, n).contains(k) {
                let i = choose|i: int| 0 <= i < n && i < order.len() && #[trigger] order[i] == k;
                if i < n - 1 {
                    assert(first_keys(order, n - 1).contains(k));
                }
            }
            if first_keys(order, n - 1).contains(k) {
                let i = choose|i: int| 0 <= i < n - 1 && i < order.len() && #[trigger] order[i] == k;
                assert(order[i] == k);
            }
            if k == k0 {
                assert(order[n - 1] == k);
            }
        }
        assert forall|k: MimeKey| #![trigger now.contains_key(k)] now.contains_key(k) implies now[k]
            == layer[k] by {
            if k != k0 {
                assert(was.contains_key(k));
            }
        }
    } else {
        assert forall|k: MimeKey| !first_keys(order, 0).contains(k) by {
        }
    }
}

/// The lines of the first `n` MIME types of `order`.
pub open spec fn row_lines(order: Seq<MimeKey>, layer: Map<MimeKey, Seq<Seq<char>>>, n: int) -> Seq<
    Seq<char>,
> {
    Seq::new(n as nat, |i: int| row_line(order[i], layer[order[i]]))
}

/// The lines of a section that say something: its header and a line for each entry.
pub open spec fn section_lines(name: Seq<char>, layer: &Layer) -> Seq<Seq<char>> {
    seq![header_line(name)] + row_lines(layer.order(), layer@, layer.order().len() as int)
}

/// Whether the entries of a layer can stand in the file, and the layer's order holds
/// each of them.
pub open spec fn layer_fits(layer: &Layer) -> bool {
    &&& rows_fit(layer.order(), layer@, layer.order().len() as int)
    &&& forall|k: MimeKey| layer@.contains_key(k) ==> layer.order().contains(k)
}

/// Whether associations can stand in the file.
pub open spec fn fits(a: &AssociationsFile) -> bool {
    layer_fits(&a.added_associations) && layer_fits(&a.default_apps) && layer_fits(
        &a.removed_associations,
    )
}

/// The text of the rows of a layer is that of its lines, each followed by a line feed.
proof fn lemma_rows_text(order: Seq<MimeKey>, layer: Map<MimeKey, Seq<Seq<char>>>, n: int)
    requires
        0 <= n <= order.len(),
    ensures
        rows_text(order, layer, n) == terminated(row_lines(order, layer, n), '\n'),
    decreases n,
{
    if n > 0 {
        lemma_rows_text(order, layer, n - 1);
        assert(row_lines(order, layer, n).drop_last() =~= row_lines(order, layer, n - 1));
        assert(rows_text(order, layer, n) =~= terminated(row_lines(order, layer, n), '\n'));
    } else {
        assert(row_lines(order, layer, 0) =~= Seq::<Seq<char>>::empty());
    }
}

/// The fields of the text of a section, taken as lines, are the section's lines, after
/// those of what precedes it, where that is empty or ends with a line feed.
proof fn lemma_section_lines(before: Seq<Seq<char>>, name: Seq<char>, layer: &Layer)
    requires
        free_of(name, '\n'),
        rows_fit(layer.order(), layer@, layer.order().len() as int),
        forall|i: int| 0 <= i < before.len() ==> free_of(#[trigger] before[i], '\n'),
    ensures
        terminated(before + section_lines(name, layer) + seq![Seq::<char>::empty()], '\n')
            == terminated(before, '\n') + section_text(name, layer),
        forall|i: int|
            0 <= i < (before + section_lines(name, layer) + seq![Seq::<char>::empty()]).len()
                ==> free_of(
                #[trigger] (before + section_lines(name, layer) + seq![Seq::<char>::empty()])[i],
                '\n',
            ),
        (before + section_lines(name, layer) + seq![Seq::<char>::empty()]).filter(filled())
            == before.filter(filled()) + section_lines(name, layer),
{
    reveal(Seq::filter);
    let order = layer.order();
    let n = order.len() as int;
    let rows = row_lines(order, layer@, n);
    let head = seq![header_line(name)];
    let blank = seq![Seq::<char>::empty()];
    let all = before + section_lines(name, layer) + blank;
    lemma_rows_text(order, layer@, n);
    lemma_terminated_add(before + section_lines(name, layer), blank, '\n');
    lemma_terminated_add(before, section_lines(name, layer), '\n');
    lemma_terminated_add(head, rows, '\n');
    lemma_terminated_one(header_line(name), '\n');
    lemma_terminated_one(Seq::<char>::empty(), '\n');
    assert(terminated(blank, '\n') =~= seq!['\n']);
    assert(terminated(all, '\n') =~= terminated(before, '\n') + section_text(name, layer));
    lemma_read_header(name);
    assert forall|i: int| 0 <= i < rows.len() implies free_of(#[trigger] rows[i], '\n')
        && rows[i].len() > 0 by {
        assert(key_fits(order[i]));
        lemma_read_row(order[i], layer@[order[i]]);
    }
    assert forall|i: int| 0 <= i < all.len() implies free_of(#[trigger] all[i], '\n') by {
        if i < before.len() {
            assert(all[i] == before[i]);
        } else if i == before.len() {
            assert(all[i] == header_line(name));
        } else if i < before.len() + 1 + n {
            assert(all[i] == rows[i - before.len() - 1]);
        } else {
            assert(all[i] == Seq::<char>::empty());
        }
    }
    Seq::filter_distributes_over_add(before + section_lines(name, layer), blank, filled());
    Seq::filter_distributes_over_add(before, section_lines(name, layer), filled());
    Seq::filter_distributes_over_add(head, rows, filled());
    lemma_all_filled(rows);
    lemma_all_filled(head);
    assert(blank.drop_last().filter(filled()) =~= Seq::<Seq<char>>::empty());
    assert(blank.filter(filled()) =~= Seq::<Seq<char>>::empty());
    assert(all.filter(filled()) =~= before.filter(filled()) + section_lines(name, layer));
}

/// The pairs of a layer's lines give the layer back.
proof fn lemma_layer_read_back(layer: &Layer)
    requires
        layer_fits(layer),
    ensures
        layer_upto(
            row_pairs(layer.order(), layer@, layer.order().len() as int),
            layer.order().len() as int,
        ) == layer@,
{
    let order = layer.order();
    let n = order.len() as int;
    let read = layer_upto(row_pairs(order, layer@, n), n);
    lemma_layer_of_rows(order, layer@, n);
    assert forall|k: MimeKey| read.contains_key(k) <==> layer@.contains_key(k) by {
        if read.contains_key(k) {
            assert(first_keys(order, n).contains(k));
            let i = choose|i: int| 0 <= i < n && i < order.len() && #[trigger] order[i] == k;
            assert(layer@.contains_key(order[i]));
        }
        if layer@.contains_key(k) {
            assert(order.contains(k));
            let i = choose|i: int| 0 <= i < order.len() && order[i] == k;
            assert(order[i] == k);
            assert(first_keys(order, n).contains(k));
        }
    }
    assert(read =~= layer@);
}

/// The text of a single item that is followed by the separator.
proof fn lemma_terminated_one(item: Seq<char>, sep: char)
    ensures
        terminated(seq![item], sep) == item + seq![sep],
{
    let one = seq![item];
    assert(one.drop_last() =~= Seq::<Seq<char>>::empty());
    assert(terminated(one.drop_last(), sep) =~= Seq::<char>::empty());
    assert(terminated(one, sep) =~= item + seq![sep]);
}

/// The lines of three sections in a row.
pub open spec fn three_lines(
    n1: Seq<char>,
    l1: &Layer,
    n2: Seq<char>,
    l2: &Layer,
    n3: Seq<char>,
    l3: &Layer,
) -> Seq<Seq<char>> {
    section_lines(n1, l1) + section_lines(n2, l2) + section_lines(n3, l3)
}

/// The fields of the text of three sections, taken as lines, are the sections' lines.
proof fn lemma_three_sections(
    n1: Seq<char>,
    l1: &Layer,
    n2: Seq<char>,
    l2: &Layer,
    n3: Seq<char>,
    l3: &Layer,
)
    requires
        free_of(n1, '\n'),
        free_of(n2, '\n'),
        free_of(n3, '\n'),
        layer_fits(l1),
        layer_fits(l2),
        layer_fits(l3),
    ensures
        fields(section_text(n1, l1) + section_text(n2, l2) + section_text(n3, l3), '\n', 0)
            == three_lines(n1, l1, n2, l2, n3, l3),
{
    let blank = seq![Seq::<char>::empty()];
    let none = Seq::<Seq<char>>::empty();
    let s1 = none + section_lines(n1, l1) + blank;
    let s2 = s1 + section_lines(n2, l2) + blank;
    let s3 = s2 + section_lines(n3, l3) + blank;
    lemma_section_lines(none, n1, l1);
    lemma_section_lines(s1, n2, l2);
    lemma_section_lines(s2, n3, l3);
    assert(terminated(none, '\n') + section_text(n1, l1) =~= section_text(n1, l1));
    lemma_fields_of_terminated(s3, '\n');
    assert(none.filter(filled()) =~= none) by {
        reveal(Seq::filter);
    }
    assert(none + section_lines(n1, l1) =~= section_lines(n1, l1));
}

/// Three sections of different names are read as they were written, whichever of them
/// is asked for.
proof fn lemma_sections_read_back(
    n1: Seq<char>,
    l1: &Layer,
    n2: Seq<char>,
    l2: &Layer,
    n3: Seq<char>,
    l3: &Layer,
    target: Seq<char>,
)
    requires
        free_of(n1, '\n'),
        free_of(n2, '\n'),
        free_of(n3, '\n'),
        layer_fits(l1),
        layer_fits(l2),
        layer_fits(l3),
    ensures
        pairs_upto(
            three_lines(n1, l1, n2, l2, n3, l3),
            three_lines(n1, l1, n2, l2, n3, l3).len() as int,
            target,
        ) == (if n1 == target {
            row_pairs(l1.order(), l1@, l1.order().len() as int)
        } else {
            Seq::empty()
        }) + (if n2 == target {
            row_pairs(l2.order(), l2@, l2.order().len() as int)
        } else {
            Seq::empty()
        }) + (if n3 == target {
            row_pairs(l3.order(), l3@, l3.order().len() as int)
        } else {
            Seq::empty()
        }),
{
    let lines = three_lines(n1, l1, n2, l2, n3, l3);
    let c1 = l1.order().len() as int;
    let c2 = l2.order().len() as int;
    let c3 = l3.order().len() as int;
    let at2 = 1 + c1;
    let at3 = 2 + c1 + c2;
    assert(lines.len() == 3 + c1 + c2 + c3);
    assert(lines[0] == header_line(n1));
    assert(lines[at2] == header_line(n2));
    assert(lines[at3] == header_line(n3));
    assert forall|i: int| 0 <= i < c1 implies #[trigger] lines[0 + 1 + i] == row_line(
        l1.order()[i],
        l1@[l1.order()[i]],
    ) by {
        assert(lines[1 + i] == section_lines(n1, l1)[1 + i]);
    }
    assert forall|i: int| 0 <= i < c2 implies #[trigger] lines[at2 + 1 + i] == row_line(
        l2.order()[i],
        l2@[l2.order()[i]],
    ) by {
        assert(lines[at2 + 1 + i] == section_lines(n2, l2)[1 + i]);
    }
    assert forall|i: int| 0 <= i < c3 implies #[trigger] lines[at3 + 1 + i] == row_line(
        l3.order()[i],
        l3@[l3.order()[i]],
    ) by {
        assert(lines[at3 + 1 + i] == section_lines(n3, l3)[1 + i]);
    }
    lemma_read_rows(lines, 0, n1, l1.order(), l1@, c1, c1, target);
    lemma_read_rows(lines, at2, n2, l2.order(), l2@, c2, c2, target);
    lemma_read_rows(lines, at3, n3, l3.order(), l3@, c3, c3, target);
    assert(pairs_upto(lines, 0, target) =~= Seq::<(Seq<char>, Seq<char>)>::empty());
    let r1 = if n1 == target {
        row_pairs(l1.order(), l1@, c1)
    } else {
        Seq::empty()
    };
    let r2 = if n2 == target {
        row_pairs(l2.order(), l2@, c2)
    } else {
        Seq::empty()
    };
    let r3 = if n3 == target {
        row_pairs(l3.order(), l3@, c3)
    } else {
        Seq::empty()
    };
    assert(pairs_upto(lines, at2, target) =~= r1);
    assert(pairs_upto(lines, at3, target) =~= r1 + r2);
}

/// The names of the three sections hold no line feed and differ from each other.
proof fn lemma_section_names()
    ensures
        free_of("Added Associations"@, '\n'),
        free_of("Default Applications"@, '\n'),
        free_of("Removed Associations"@, '\n'),
        "Added Associations"@ != "Default Applications"@,
        "Added Associations"@ != "Removed Associations"@,
        "Default Applications"@ != "Removed Associations"@,
{
    reveal_strlit("Added Associations");
    reveal_strlit("Default Applications");
    reveal_strlit("Removed Associations");
    assert("Added Associations"@[0] == 'A');
    assert("Default Applications"@[0] == 'D');
    assert("Removed Associations"@[0] == 'R');
}

/// No list of a layer that is read from pairs names a handler twice.
proof fn lemma_layer_upto_each_once(pairs: Seq<(Seq<char>, Seq<char>)>, n: int)
    ensures
        each_once(layer_upto(pairs, n)),
    decreases n,
{
    if 0 < n <= pairs.len() {
        lemma_layer_upto_each_once(pairs, n - 1);
        lemma_distinct_no_duplicates(items(pairs[n - 1].1, ';'));
        let was = layer_upto(pairs, n - 1);
        let now = layer_upto(pairs, n);
        assert forall|k: MimeKey| now.contains_key(k) implies (#[trigger] now[k]).no_duplicates() by {
            if was.contains_key(k) {
                assert(was[k].no_duplicates());
            }
        }
    }
}

/// Whatever the text of an association file, no list of the associations that are read
/// from it names a handler twice.
pub proof fn lemma_read_is_tidy(content: Seq<char>)
    ensures
        associations_in(content).tidy(),
{
    let added = section_pairs(content, "Added Associations"@);
    let defaults = section_pairs(content, "Default Applications"@);
    let removed = section_pairs(content, "Removed Associations"@);
    lemma_layer_upto_each_once(added, added.len() as int);
    lemma_layer_upto_each_once(defaults, defaults.len() as int);
    lemma_layer_upto_each_once(removed, removed.len() as int);
}

/// Associations that can stand in the file are read from the text that is written of
/// them as they were.
pub proof fn lemma_written_is_read(a: &AssociationsFile)
    requires
        fits(a),
    ensures
        associations_in(file_text(a)) == a@,
{
    let n1 = "Added Associations"@;
    let n2 = "Default Applications"@;
    let n3 = "Removed Associations"@;
    let l1 = &a.added_associations;
    let l2 = &a.default_apps;
    let l3 = &a.removed_associations;
    lemma_section_names();
    lemma_three_sections(n1, l1, n2, l2, n3, l3);
    lemma_sections_read_back(n1, l1, n2, l2, n3, l3, n1);
    lemma_sections_read_back(n1, l1, n2, l2, n3, l3, n2);
    lemma_sections_read_back(n1, l1, n2, l2, n3, l3, n3);
    let none = Seq::<(Seq<char>, Seq<char>)>::empty();
    let r1 = row_pairs(l1.order(), l1@, l1.order().len() as int);
    let r2 = row_pairs(l2.order(), l2@, l2.order().len() as int);
    let r3 = row_pairs(l3.order(), l3@, l3.order().len() as int);
    assert(r1 + none + none =~= r1);
    assert(none + r2 + none =~= r2);
    assert(none + none + r3 =~= r3);
    lemma_layer_read_back(l1);
    lemma_layer_read_back(l2);
    lemma_layer_read_back(l3);
    assert(section_pairs(file_text(a), n1) == r1);
    assert(section_pairs(file_text(a), n2) == r2);
    assert(section_pairs(file_text(a), n3) == r3);
    assert(layer_in(file_text(a), n1) == l1@);
    assert(layer_in(file_text(a), n2) == l2@);
    assert(layer_in(file_text(a), n3) == l3@);
}

} // verus!
