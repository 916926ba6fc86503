//! The system's default handlers: what the desktop entries declare, and what several
//! sources give together.

use crate::desktop_entry::{entry_views, DesktopEntry, EntryView};
use crate::layer::{listed, Layer};
use crate::lists::{contains, distinct, distinct_of, extend, lemma_deep_push};
use crate::mime_types::{keys_of, MimeKey, MimeType};
use vstd::prelude::*;

verus! {

/// `layer` with the handler `id` noted for `k`: at the end of the list of `k`, unless
/// the list holds it.
pub open spec fn noted(layer: Map<MimeKey, Seq<Seq<char>>>, k: MimeKey, id: Seq<char>) -> Map<
    MimeKey,
    Seq<Seq<char>>,
> {
    if listed(layer, k).contains(id) {
        layer
    } else {
        layer.insert(k, listed(layer, k).push(id))
    }
}

/// `layer` with the handler `id` noted for each of the first `n` of `mimes` in turn.
pub open spec fn noted_each(
    layer: Map<MimeKey, Seq<Seq<char>>>,
    mimes: Seq<MimeKey>,
    n: int,
    id: Seq<char>,
) -> Map<MimeKey, Seq<Seq<char>>>
    decreases n,
{
    if n <= 0 || n > mimes.len() {
        layer
    } else {
        noted(noted_each(layer, mimes, n - 1, id), mimes[n - 1], id)
    }
}

/// What the first `n` of `entries` declare: for each MIME type the ids of the entries
/// that declare it, in the order of the entries.
pub open spec fn declared_by(entries: Seq<EntryView>, n: int) -> Map<MimeKey, Seq<Seq<char>>>
    decreases n,
{
    if n <= 0 || n > entries.len() {
        Map::empty()
    } else {
        noted_each(
            declared_by(entries, n - 1),
            entries[n - 1].mime_types,
            entries[n - 1].mime_types.len() as int,
            entries[n - 1].id,
        )
    }
}

/// What two layers give together: for each MIME type what the first lists and then what
/// the second lists, each handler once.
pub open spec fn merged(
    first: Map<MimeKey, Seq<Seq<char>>>,
    second: Map<MimeKey, Seq<Seq<char>>>,
) -> Map<MimeKey, Seq<Seq<char>>> {
    Map::new(
        |k: MimeKey| first.contains_key(k) || second.contains_key(k),
        |k: MimeKey|
            if second.contains_key(k) {
                distinct(listed(first, k) + second[k])
            } else {
                first[k]
            },
    )
}

/// The first `n` of `order`, as a set.
pub open spec fn seen(order: Seq<MimeKey>, n: int) -> Set<MimeKey> {
    Set::new(|k: MimeKey| exists|t: int| 0 <= t < n && t < order.len() && #[trigger] order[t] == k)
}

/// Notes the handler `id` for `mime`.
pub fn note(layer: &mut Layer, mime: &MimeType, id: &String)
    ensures
        final(layer)@ == noted(old(layer)@, mime@, id@),
{
    let mut list = layer.listed(mime);
    if !contains(&list, id) {
        let ghost before = list;
        list.push(id.clone());
        proof {
            lemma_deep_push(before, list, *id);
        }
        layer.put(mime.clone(), list);
    }
}

/// Takes what `other` lists into `layer`, after what `layer` lists itself.
pub fn absorb(layer: &mut Layer, other: &Layer)
    ensures
        final(layer)@ == merged(old(layer)@, other@),
{
    let n = other.len();
    let mut i: usize = 0;
    let ghost start = layer@;
    let ghost order = other.order();
    while i < n
        invariant
            i <= n,
            n == order.len(),
            order == other.order(),
            start == old(layer)@,
            order.no_duplicates(),
            forall|k: MimeKey| order.contains(k) <==> other@.contains_key(k),
            forall|k: MimeKey|
                #![trigger layer@.contains_key(k)]
                layer@.contains_key(k) <==> start.contains_key(k) || seen(order, i as int).contains(
                    k,
                ),
            forall|k: MimeKey|
                #![trigger layer@.contains_key(k)]
                layer@.contains_key(k) ==> layer@[k] == if seen(order, i as int).contains(k) {
                    distinct(listed(start, k) + other@[k])
                } else {
                    start[k]
                },
        decreases n - i,
    {
        let key = other.key(i);
        let ghost k = key@;
        proof {
            if seen(order, i as int).contains(k) {
                let t = choose|t: int| 0 <= t < i && t < order.len() && #[trigger] order[t] == k;
                assert(order[t] != order[i as int]);
            }
        }
        let ghost before = layer@;
        let mut list = layer.listed(key);
        extend(&mut list, other.list(i));
        layer.put(key.clone(), distinct_of(&list));
        proof {
            assert forall|q: MimeKey| #[trigger] seen(order, i + 1).contains(q) <==> seen(
                order,
                i as int,
            ).contains(q) || q == k by {
                if seen(order, i + 1).contains(q) {
                    let t = choose|t: int|
                        0 <= t < i + 1 && t < order.len() && #[trigger] order[t] == q;
                    if t < i {
                        assert(seen(order, i as int).contains(q));
                    }
                }
                if seen(order, i as int).contains(q) {
                    let t = choose|t: int| 0 <= t < i && t < order.len() && #[trigger] order[t] == q;
                    assert(order[t] == q);
                }
                if q == k {
                    assert(order[i as int] == q);
                }
            }
            assert forall|q: MimeKey|
                #![trigger layer@.contains_key(q)]
                layer@.contains_key(q) <==> start.contains_key(q) || seen(order, i + 1).contains(
                    q,
                ) by {
                assert(seen(order, i + 1).contains(q) <==> seen(order, i as int).contains(q) || q
                    == k);
                assert(before.contains_key(q) <==> start.contains_key(q) || seen(
                    order,
                    i as int,
                ).contains(q));
            }
            assert forall|q: MimeKey| #![trigger layer@.contains_key(q)] layer@.contains_key(q) implies layer@[q] == if seen(
                order,
                i + 1,
            ).contains(q) {
                distinct(listed(start, q) + other@[q])
            } else {
                start[q]
            } by {
                assert(seen(order, i + 1).contains(q) <==> seen(order, i as int).contains(q) || q
                    == k);
                if q != k {
                    assert(before.contains_key(q));
                }
            }
        }
        i += 1;
    }
    proof {
        assert forall|q: MimeKey| seen(order, n as int).contains(q) <==> other@.contains_key(
            q,
        ) by {
            if seen(order, n as int).contains(q) {
                let t = choose|t: int| 0 <= t < n && t < order.len() && #[trigger] order[t] == q;
                assert(order.contains(order[t]));
            }
            if other@.contains_key(q) {
                assert(order.contains(q));
                let t = choose|t: int| 0 <= t < order.len() && order[t] == q;
                assert(order[t] == q);
            }
        }
        assert(layer@ =~= merged(start, other@));
    }
}

/// The layer of what the desktop entries declare to handle.
pub fn system_apps(entries: &Vec<DesktopEntry>) -> (r: Layer)
    ensures
        r@ == declared_by(entry_views(entries@), entries@.len() as int),
{
    let mut r = Layer::new();
    let mut n: usize = 0;
    let ghost all = entry_views(entries@);
    while n < entries.len()
        invariant
            n <= entries.len(),
            all == entry_views(entries@),
            r@ == declared_by(all, n as int),
        decreases entries.len() - n,
    {
        let entry = &entries[n];
        let ghost start = r@;
        let ghost mimes = keys_of(entry.mime_types@);
        assert(all[n as int] == entry@);
        let mut j: usize = 0;
        while j < entry.mime_types.len()
            invariant
                j <= entry.mime_types.len(),
                mimes == keys_of(entry.mime_types@),
                r@ == noted_each(start, mimes, j as int, entry.id@),
            decreases entry.mime_types.len() - j,
        {
            assert(mimes[j as int] == entry.mime_types@[j as int]@);
            note(&mut r, &entry.mime_types[j], &entry.id);
            j += 1;
        }
        n += 1;
    }
    r
}

} // verus!
