//! The association file: how associations are read from its text and written as text.
//!
//! The file has the sections `[Added Associations]`, `[Default Applications]` and
//! `[Removed Associations]`. A line of a section names a MIME type and, after `=`, its
//! handlers, each followed by `;`.

use crate::associations::{Associations, AssociationsFile};
use crate::ini::{pair_views, pairs_of, section_pairs};
use crate::layer::Layer;
use crate::lists::{distinct, distinct_of};
use crate::mime_types::{canonical, MimeKey, MimeType};
use crate::text::{items, items_of, terminated};
use vstd::prelude::*;

verus! {

/// The handlers that a list such as `vim.desktop;emacs.desktop;` names, each once.
pub open spec fn handlers_in(value: Seq<char>) -> Seq<Seq<char>> {
    distinct(items(value, ';'))
}

/// The layer that the first `n` of `pairs` give. A key that denotes no MIME type is
/// passed over; of two lines for one MIME type the later counts.
pub open spec fn layer_upto(pairs: Seq<(Seq<char>, Seq<char>)>, n: int) -> Map<
    MimeKey,
    Seq<Seq<char>>,
>
    decreases n,
{
    if n <= 0 || n > pairs.len() {
        Map::empty()
    } else {
        match canonical(pairs[n - 1].0) {
            Some(k) => layer_upto(pairs, n - 1).insert(k, handlers_in(pairs[n - 1].1)),
            None => layer_upto(pairs, n - 1),
        }
    }
}

/// The layer that the section `section` of the text gives.
pub open spec fn layer_in(content: Seq<char>, section: Seq<char>) -> Map<MimeKey, Seq<Seq<char>>> {
    layer_upto(section_pairs(content, section), section_pairs(content, section).len() as int)
}

/// The associations that the text of an association file gives.
pub open spec fn associations_in(content: Seq<char>) -> Associations {
    Associations {
        added: layer_in(content, "Added Associations"@),
        default_apps: layer_in(content, "Default Applications"@),
        removed: layer_in(content, "Removed Associations"@),
    }
}

/// The line of the file for a MIME type and its handlers: the MIME type, `=`, and the
/// handlers, each followed by `;`.
pub open spec fn row_line(k: MimeKey, handlers: Seq<Seq<char>>) -> Seq<char> {
    k.text() + seq!['='] + terminated(handlers, ';')
}

/// The line of the file for a MIME type and its handlers, with its line feed.
pub open spec fn row_text(k: MimeKey, handlers: Seq<Seq<char>>) -> Seq<char> {
    row_line(k, handlers) + seq!['\n']
}

/// The lines for the first `n` MIME types of `order`.
pub open spec fn rows_text(order: Seq<MimeKey>, layer: Map<MimeKey, Seq<Seq<char>>>, n: int) -> Seq<
    char,
>
    decreases n,
{
    if n <= 0 || n > order.len() {
        Seq::empty()
    } else {
        rows_text(order, layer, n - 1) + row_text(order[n - 1], layer[order[n - 1]])
    }
}

/// The line that opens the section of the name `name`.
pub open spec fn header_line(name: Seq<char>) -> Seq<char> {
    seq!['['] + name + seq![']']
}

/// The text of a section of the name `name`: its header, a line for each entry of the
/// layer in the layer's order, and an empty line.
pub open spec fn section_text(name: Seq<char>, layer: &Layer) -> Seq<char> {
    header_line(name) + seq!['\n'] + rows_text(
        layer.order(),
        layer@,
        layer.order().len() as int,
    ) + seq!['\n']
}

/// The text of the association file for the associations.
pub open spec fn file_text(a: &AssociationsFile) -> Seq<char> {
    section_text("Added Associations"@, &a.added_associations) + section_text(
        "Default Applications"@,
        &a.default_apps,
    ) + section_text("Removed Associations"@, &a.removed_associations)
}

/// The layer that the section `section` of the text gives.
pub fn layer_from(content: &str, section: &str) -> (r: Layer)
    ensures
        r@ == layer_in(content@, section@),
{
    let pairs = pairs_of(content, section);
    let mut r = Layer::new();
    let mut n: usize = 0;
    let ghost all = pair_views(pairs@);
    while n < pairs.len()
        invariant
            n <= pairs.len(),
            all == pair_views(pairs@),
            r@ == layer_upto(all, n as int),
        decreases pairs.len() - n,
    {
        assert(all[n as int] == (pairs@[n as int].0@, pairs@[n as int].1@));
        match MimeType::from_essence(pairs[n].0.as_str()) {
            Ok(mime) => {
                let handlers = distinct_of(&items_of(pairs[n].1.as_str(), ';'));
                r.put(mime, handlers);
            },
            Err(_) => {},
        }
        n += 1;
    }
    r
}

/// The text of a section with the layer's entries.
fn write_section(out: &mut String, name: &str, layer: &Layer)
    ensures
        final(out)@ == old(out)@ + section_text(name@, layer),
{
    let ghost start = out@;
    out.push('[');
    out.append(name);
    out.push(']');
    out.push('\n');
    let ghost head = out@;
    proof {
        assert(head =~= start + (header_line(name@) + seq!['\n']));
    }
    let n = layer.len();
    let mut i: usize = 0;
    while i < n
        invariant
            i <= n,
            n == layer.order().len(),
            out@ == head + rows_text(layer.order(), layer@, i as int),
        decreases n - i,
    {
        let ghost before = out@;
        let key = layer.key(i);
        let handlers = layer.list(i);
        out.append(key.to_string().as_str());
        out.push('=');
        let ghost row_head = out@;
        let mut j: usize = 0;
        while j < handlers.len()
            invariant
                j <= handlers.len(),
                out@ == row_head + terminated(handlers.deep_view().take(j as int), ';'),
            decreases handlers.len() - j,
        {
            let ghost here = out@;
            out.append(handlers[j].as_str());
            out.push(';');
            proof {
                let upto = handlers.deep_view().take(j + 1);
                assert(upto.drop_last() =~= handlers.deep_view().take(j as int));
                assert(upto.last() == handlers@[j as int]@);
                assert(out@ =~= row_head + terminated(upto, ';'));
            }
            j += 1;
        }
        out.push('\n');
        proof {
            assert(handlers.deep_view().take(handlers.len() as int) =~= handlers.deep_view());
            assert(out@ =~= before + row_text(key@, handlers.deep_view()));
            assert(out@ =~= head + rows_text(layer.order(), layer@, i + 1));
        }
        i += 1;
    }
    out.push('\n');
    proof {
        assert(out@ =~= start + section_text(name@, layer));
    }
}

impl AssociationsFile {
    /// The associations that the text of an association file gives. Lines that say
    /// nothing of a MIME type are passed over.
    pub fn parse(content: &str) -> (r: AssociationsFile)
        ensures
            r@ == associations_in(content@),
    {
        AssociationsFile {
            added_associations: layer_from(content, "Added Associations"),
            default_apps: layer_from(content, "Default Applications"),
            removed_associations: layer_from(content, "Removed Associations"),
        }
    }

    /// The text of the association file for these associations.
    pub fn render(&self) -> (r: String)
        ensures
            r@ == file_text(self),
    {
        let mut out = String::new();
        write_section(&mut out, "Added Associations", &self.added_associations);
        write_section(&mut out, "Default Applications", &self.default_apps);
        write_section(&mut out, "Removed Associations", &self.removed_associations);
        proof {
            assert(out@ =~= file_text(self));
        }
        out
    }
}

} // verus!
