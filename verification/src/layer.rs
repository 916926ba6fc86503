//! One layer of associations: a finite map from MIME types to ordered lists of handler
//! ids, in which the first handler of a list is the preferred one.

use crate::lists::{copy, without, without_id};
use crate::mime_types::{lemma_text_injective, MimeKey, MimeType};
use crate::text::{
    before, chars_of, lemma_before_asymmetric, lemma_before_connected, lemma_before_transitive,
    precedes,
};
use vstd::prelude::*;

verus! {

/// The handlers that `layer` lists for `k`: none where it has no entry for `k`.
pub open spec fn listed(layer: Map<MimeKey, Seq<Seq<char>>>, k: MimeKey) -> Seq<Seq<char>> {
    if layer.contains_key(k) {
        layer[k]
    } else {
        Seq::empty()
    }
}

/// `layer` with the handler `h` taken out of the entry for `k`; the entry goes where
/// nothing is left of it.
pub open spec fn stripped(layer: Map<MimeKey, Seq<Seq<char>>>, k: MimeKey, h: Seq<char>) -> Map<
    MimeKey,
    Seq<Seq<char>>,
> {
    if layer.contains_key(k) {
        if without(layer[k], h).len() == 0 {
            layer.remove(k)
        } else {
            layer.insert(k, without(layer[k], h))
        }
    } else {
        layer
    }
}

/// The MIME types that fall under `pattern`.
pub open spec fn covered_by(pattern: MimeKey) -> Set<MimeKey> {
    Set::new(|k: MimeKey| pattern.covers(k))
}

/// `layer` with the handler `h` taken out of every entry whose MIME type falls under
/// `pattern`; an entry goes where nothing is left of it.
pub open spec fn stripped_under(
    layer: Map<MimeKey, Seq<Seq<char>>>,
    pattern: MimeKey,
    h: Seq<char>,
) -> Map<MimeKey, Seq<Seq<char>>> {
    Map::new(
        |k: MimeKey|
            layer.contains_key(k) && !(pattern.covers(k) && without(layer[k], h).len() == 0),
        |k: MimeKey|
            if pattern.covers(k) {
                without(layer[k], h)
            } else {
                layer[k]
            },
    )
}

/// The MIME types among the first `n` of `keys`.
pub open spec fn among(keys: Seq<MimeType>, n: int) -> Set<MimeKey> {
    Set::new(|k: MimeKey| exists|t: int| 0 <= t < n && t < keys.len() && (#[trigger] keys[t])@ == k)
}

#[derive(Debug)]
struct Row {
    mime: MimeType,
    handlers: Vec<String>,
}

spec fn holds(rows: Seq<Row>, k: MimeKey) -> bool {
    exists|i: int| 0 <= i < rows.len() && (#[trigger] rows[i]).mime@ == k
}

spec fn at(rows: Seq<Row>, k: MimeKey) -> int {
    choose|i: int| 0 <= i < rows.len() && (#[trigger] rows[i]).mime@ == k
}

spec fn distinct_keys(rows: Seq<Row>) -> bool {
    forall|i: int, j: int|
        0 <= i < j < rows.len() ==> (#[trigger] rows[i]).mime@ != (#[trigger] rows[j]).mime@
}

spec fn in_order(rows: Seq<Row>) -> bool {
    forall|i: int, j: int|
        0 <= i < j < rows.len() ==> before(
            (#[trigger] rows[i]).mime@.text(),
            (#[trigger] rows[j]).mime@.text(),
        )
}

spec fn all_formed(rows: Seq<Row>) -> bool {
    forall|i: int| 0 <= i < rows.len() ==> (#[trigger] rows[i]).mime@.well_formed()
}

proof fn lemma_in_order_distinct(rows: Seq<Row>)
    requires
        in_order(rows),
    ensures
        distinct_keys(rows),
{
    assert forall|i: int, j: int| 0 <= i < j < rows.len() implies (#[trigger] rows[i]).mime@ != (
    #[trigger] rows[j]).mime@ by {
        lemma_before_asymmetric(rows[i].mime@.text(), rows[j].mime@.text(), 0);
    }
}

/// Whether the MIME types stand in the order of the dictionary by their texts.
pub open spec fn sorted(order: Seq<MimeKey>) -> bool {
    forall|i: int, j: int|
        0 <= i < j < order.len() ==> before((#[trigger] order[i]).text(), (#[trigger] order[j]).text())
}

/// What is left of a sorted order without its first MIME type is sorted, and holds what
/// the order holds but for the first.
proof fn lemma_sorted_rest(x: Seq<MimeKey>, k: MimeKey)
    requires
        sorted(x),
        x.len() > 0,
    ensures
        sorted(x.skip(1)),
        x.skip(1).contains(k) <==> x.contains(k) && k != x[0],
{
    let rest = x.skip(1);
    assert forall|i: int, j: int| 0 <= i < j < rest.len() implies before(
        (#[trigger] rest[i]).text(),
        (#[trigger] rest[j]).text(),
    ) by {
        assert(before(x[i + 1].text(), x[j + 1].text()));
    }
    if rest.contains(k) {
        let i = choose|i: int| 0 <= i < rest.len() && rest[i] == k;
        assert(x[i + 1] == k);
        assert(before(x[0].text(), x[i + 1].text()));
        lemma_before_asymmetric(x[0].text(), x[0].text(), 0);
    }
    if x.contains(k) && k != x[0] {
        let i = choose|i: int| 0 <= i < x.len() && x[i] == k;
        assert(rest[i - 1] == k);
    }
}

/// The order of a layer goes by its entries alone: two sorted orders that hold the same
/// MIME types are the same.
pub proof fn lemma_sorted_unique(x: Seq<MimeKey>, y: Seq<MimeKey>)
    requires
        sorted(x),
        sorted(y),
        forall|k: MimeKey| x.contains(k) <==> y.contains(k),
    ensures
        x == y,
    decreases x.len(),
{
    if x.len() == 0 {
        if y.len() > 0 {
            assert(y.contains(y[0]));
        }
        assert(x =~= y);
    } else {
        assert(x.contains(x[0]));
        let j = choose|j: int| 0 <= j < y.len() && y[j] == x[0];
        assert(y.contains(y[0]));
        let i = choose|i: int| 0 <= i < x.len() && x[i] == y[0];
        lemma_before_asymmetric(x[0].text(), y[0].text(), 0);
        lemma_before_asymmetric(x[0].text(), x[0].text(), 0);
        if j > 0 {
            assert(before(y[0].text(), y[j].text()));
        }
        if i > 0 {
            assert(before(x[0].text(), x[i].text()));
        }
        assert(x[0] == y[0]);
        assert forall|k: MimeKey| x.skip(1).contains(k) <==> y.skip(1).contains(k) by {
            lemma_sorted_rest(x, k);
            lemma_sorted_rest(y, k);
        }
        lemma_sorted_rest(x, x[0]);
        lemma_sorted_rest(y, y[0]);
        lemma_sorted_unique(x.skip(1), y.skip(1));
        assert(x =~= seq![x[0]] + x.skip(1));
        assert(y =~= seq![y[0]] + y.skip(1));
    }
}

/// Where a MIME type of the text `text` belongs in `order`, looked at from `from`: before
/// the first one at or after `from` that does not come before it.
pub open spec fn slot(order: Seq<MimeKey>, text: Seq<char>, from: int) -> int
    decreases order.len() - from,
{
    if from < 0 || from >= order.len() {
        order.len() as int
    } else if before(order[from].text(), text) {
        slot(order, text, from + 1)
    } else {
        from
    }
}

spec fn as_map(rows: Seq<Row>) -> Map<MimeKey, Seq<Seq<char>>> {
    Map::new(|k: MimeKey| holds(rows, k), |k: MimeKey| rows[at(rows, k)].handlers.deep_view())
}

proof fn lemma_at(rows: Seq<Row>, k: MimeKey, i: int)
    requires
        distinct_keys(rows),
        0 <= i < rows.len(),
        rows[i].mime@ == k,
    ensures
        holds(rows, k),
        at(rows, k) == i,
        as_map(rows).contains_key(k),
        as_map(rows)[k] == rows[i].handlers.deep_view(),
{
    let j = at(rows, k);
    assert(rows[j].mime@ == k);
    if i < j {
        assert(rows[i].mime@ != rows[j].mime@);
    }
    if j < i {
        assert(rows[j].mime@ != rows[i].mime@);
    }
}

/// A finite map from MIME types to ordered lists of handler ids.
#[derive(Debug)]
pub struct Layer {
    rows: Vec<Row>,
}

impl View for Layer {
    type V = Map<MimeKey, Seq<Seq<char>>>;

    closed spec fn view(&self) -> Map<MimeKey, Seq<Seq<char>>> {
        as_map(self.rows@)
    }
}

impl Layer {
    #[verifier::type_invariant]
    spec fn inv(self) -> bool {
        in_order(self.rows@) && all_formed(self.rows@)
    }

    /// The MIME types of the entries, in the order of the dictionary by their texts.
    pub closed spec fn order(&self) -> Seq<MimeKey> {
        Seq::new(self.rows@.len(), |i: int| self.rows@[i].mime@)
    }

    proof fn lemma_order(&self)
        requires
            distinct_keys(self.rows@),
            in_order(self.rows@),
        ensures
            sorted(self.order()),
            self.order().no_duplicates(),
            forall|k: MimeKey| self.order().contains(k) <==> self@.contains_key(k),
    {
        let rows = self.rows@;
        assert forall|i: int, j: int| 0 <= i < j < self.order().len() implies before(
            (#[trigger] self.order()[i]).text(),
            (#[trigger] self.order()[j]).text(),
        ) by {
            assert(before(rows[i].mime@.text(), rows[j].mime@.text()));
        }
        assert forall|k: MimeKey| self.order().contains(k) <==> self@.contains_key(k) by {
            if self.order().contains(k) {
                let i = choose|i: int| 0 <= i < self.order().len() && self.order()[i] == k;
                assert(rows[i].mime@ == k);
            }
            if self@.contains_key(k) {
                let i = at(rows, k);
                assert(self.order()[i] == k);
            }
        }
        assert forall|i: int, j: int|
            0 <= i < self.order().len() && 0 <= j < self.order().len() && i != j implies self.order()[i]
            != self.order()[j] by {
            if i < j {
                assert(rows[i].mime@ != rows[j].mime@);
            } else {
                assert(rows[j].mime@ != rows[i].mime@);
            }
        }
    }

    /// A layer without entries.
    pub fn new() -> (r: Layer)
        ensures
            r@ == Map::<MimeKey, Seq<Seq<char>>>::empty(),
            r.order() == Seq::<MimeKey>::empty(),
    {
        let r = Layer { rows: Vec::new() };
        proof {
            assert(r@ =~= Map::<MimeKey, Seq<Seq<char>>>::empty());
            assert(r.order() =~= Seq::<MimeKey>::empty());
        }
        r
    }

    fn find(&self, mime: &MimeType) -> (r: Option<usize>)
        ensures
            match r {
                Some(i) => i < self.rows@.len() && self.rows@[i as int].mime@ == mime@,
                None => !holds(self.rows@, mime@),
            },
    {
        let mut i: usize = 0;
        while i < self.rows.len()
            invariant
                i <= self.rows@.len(),
                forall|j: int| 0 <= j < i ==> (#[trigger] self.rows@[j]).mime@ != mime@,
            decreases self.rows@.len() - i,
        {
            if self.rows[i].mime.same(mime) {
                return Some(i);
            }
            i += 1;
        }
        None
    }

    /// How many entries there are. The order is sorted and holds each MIME type that has
    /// an entry once, and nothing else.
    pub fn len(&self) -> (r: usize)
        ensures
            r == self.order().len(),
            sorted(self.order()),
            self.order().no_duplicates(),
            forall|k: MimeKey| self.order().contains(k) <==> self@.contains_key(k),
    {
        proof {
            use_type_invariant(self);
            lemma_in_order_distinct(self.rows@);
            self.lemma_order();
        }
        self.rows.len()
    }

    /// The MIME type of the entry at position `i` of the order.
    pub fn key(&self, i: usize) -> (r: &MimeType)
        requires
            i < self.order().len(),
        ensures
            r@ == self.order()[i as int],
            self@.contains_key(r@),
    {
        proof {
            use_type_invariant(self);
            lemma_in_order_distinct(self.rows@);
            lemma_at(self.rows@, self.rows@[i as int].mime@, i as int);
        }
        &self.rows[i].mime
    }

    /// The handlers of the entry at position `i` of the order.
    pub fn list(&self, i: usize) -> (r: &Vec<String>)
        requires
            i < self.order().len(),
        ensures
            self@.contains_key(self.order()[i as int]),
            r.deep_view() == self@[self.order()[i as int]],
    {
        proof {
            use_type_invariant(self);
            lemma_in_order_distinct(self.rows@);
            lemma_at(self.rows@, self.rows@[i as int].mime@, i as int);
        }
        &self.rows[i].handlers
    }

    /// The entries as pairs of the MIME type's text and its handlers, in the order of the
    /// entries.
    pub fn rows(&self) -> (r: Vec<(String, Vec<String>)>)
        ensures
            r@.len() == self.order().len(),
            forall|i: int|
                0 <= i < r@.len() ==> (#[trigger] r@[i]).0@ == self.order()[i].text()
                    && self@.contains_key(self.order()[i]) && r@[i].1.deep_view()
                    == self@[self.order()[i]],
    {
        let n = self.len();
        let mut r: Vec<(String, Vec<String>)> = Vec::new();
        let mut i: usize = 0;
        while i < n
            invariant
                i <= n,
                n == self.order().len(),
                r@.len() == i,
                forall|j: int|
                    0 <= j < i ==> (#[trigger] r@[j]).0@ == self.order()[j].text()
                        && self@.contains_key(self.order()[j]) && r@[j].1.deep_view()
                        == self@[self.order()[j]],
            decreases n - i,
        {
            let key = self.key(i).to_string();
            let list = copy(self.list(i));
            r.push((key, list));
            i += 1;
        }
        r
    }

    /// The handlers listed for `mime`, if it has an entry.
    pub fn get(&self, mime: &MimeType) -> (r: Option<&Vec<String>>)
        ensures
            match r {
                Some(h) => self@.contains_key(mime@) && h.deep_view() == self@[mime@],
                None => !self@.contains_key(mime@),
            },
    {
        match self.find(mime) {
            Some(i) => {
                proof {
                    use_type_invariant(self);
                    lemma_in_order_distinct(self.rows@);
                    lemma_at(self.rows@, mime@, i as int);
                }
                Some(&self.rows[i].handlers)
            },
            None => None,
        }
    }

    /// Whether `mime` has an entry.
    pub fn contains(&self, mime: &MimeType) -> (r: bool)
        ensures
            r == self@.contains_key(mime@),
    {
        self.find(mime).is_some()
    }

    /// A copy of the handlers listed for `mime`: empty where it has no entry.
    pub fn listed(&self, mime: &MimeType) -> (r: Vec<String>)
        ensures
            r.deep_view() == listed(self@, mime@),
    {
        match self.get(mime) {
            Some(h) => copy(h),
            None => {
                let r: Vec<String> = Vec::new();
                proof {
                    assert(r.deep_view() =~= Seq::<Seq<char>>::empty());
                }
                r
            },
        }
    }

    /// Makes `handlers` the entry for `mime`, in place of the one it had, if any. A new
    /// entry takes its place in the order.
    pub fn put(&mut self, mime: MimeType, handlers: Vec<String>)
        ensures
            final(self)@ == old(self)@.insert(mime@, handlers.deep_view()),
            final(self).order() == if old(self)@.contains_key(mime@) {
                old(self).order()
            } else {
                old(self).order().insert(slot(old(self).order(), mime@.text(), 0), mime@)
            },
    {
        let ghost order = self.order();
        proof {
            use_type_invariant(&*self);
            lemma_in_order_distinct(self.rows@);
        }
        let ghost start = self.rows@;
        let ghost k = mime@;
        let ghost hs = handlers.deep_view();
        let text = chars_of(mime.to_string().as_str());
        let n = self.rows.len();
        let mut p: usize = 0;
        let mut go = n > 0 && precedes(&chars_of(self.rows[0].mime.to_string().as_str()), &text);
        while go
            invariant
                p <= n,
                n == start.len(),
                start == self.rows@,
                order == self.order(),
                text@ == k.text(),
                go == (p < n && before(start[p as int].mime@.text(), k.text())),
                forall|j: int| 0 <= j < p ==> before((#[trigger] start[j]).mime@.text(), k.text()),
                slot(order, k.text(), 0) == slot(order, k.text(), p as int),
            decreases n - p,
        {
            p += 1;
            go = p < n && precedes(&chars_of(self.rows[p].mime.to_string().as_str()), &text);
        }
        let found = p < n && self.rows[p].mime.same(&mime);
        let mut rows: Vec<Row> = Vec::new();
        core::mem::swap(&mut rows, &mut self.rows);
        if found {
            rows.set(p, Row { mime, handlers });
            proof {
                let after = rows@;
                assert forall|a: int, b: int| 0 <= a < b < after.len() implies before(
                    (#[trigger] after[a]).mime@.text(),
                    (#[trigger] after[b]).mime@.text(),
                ) by {
                    assert(before(start[a].mime@.text(), start[b].mime@.text()));
                }
                assert forall|a: int| 0 <= a < after.len() implies (
                #[trigger] after[a]).mime@.well_formed() by {
                    assert(start[a].mime@.well_formed());
                }
                lemma_in_order_distinct(after);
                assert forall|q: MimeKey| holds(after, q) <==> holds(start, q) || q == k by {
                    if holds(after, q) {
                        let j = at(after, q);
                        assert(start[j].mime@ == q);
                    }
                    if holds(start, q) {
                        let j = at(start, q);
                        assert(after[j].mime@ == q);
                    }
                    if q == k {
                        assert(after[p as int].mime@ == q);
                    }
                }
                assert forall|q: MimeKey| holds(after, q) implies as_map(after)[q] == before_or(
                    start,
                    k,
                    hs,
                    q,
                ) by {
                    let j = at(after, q);
                    lemma_at(after, q, j);
                    if q != k {
                        lemma_at(start, q, j);
                    } else {
                        lemma_at(after, q, p as int);
                    }
                }
                assert(as_map(after) =~= as_map(start).insert(k, hs));
                lemma_at(start, k, p as int);
            }
            self.rows = rows;
            proof {
                assert(self.order() =~= order);
            }
        } else {
            proof {
                if p < n {
                    assert(start[p as int].mime@.well_formed());
                    if start[p as int].mime@.text() == k.text() {
                        lemma_text_injective(start[p as int].mime@, k);
                    }
                    lemma_before_connected(start[p as int].mime@.text(), k.text(), 0);
                }
                assert forall|j: int| p <= j < n implies before(
                    k.text(),
                    (#[trigger] start[j]).mime@.text(),
                ) by {
                    if j > p {
                        assert(before(start[p as int].mime@.text(), start[j].mime@.text()));
                        lemma_before_transitive(
                            k.text(),
                            start[p as int].mime@.text(),
                            start[j].mime@.text(),
                            0,
                        );
                    }
                }
                assert forall|j: int| 0 <= j < n implies (#[trigger] start[j]).mime@ != k by {
                    lemma_before_asymmetric(k.text(), k.text(), 0);
                    if j < p {
                        assert(before(start[j].mime@.text(), k.text()));
                    } else {
                        assert(before(k.text(), start[j].mime@.text()));
                    }
                }
            }
            rows.insert(p, Row { mime, handlers });
            proof {
                let after = rows@;
                assert forall|a: int, b: int| 0 <= a < b < after.len() implies before(
                    (#[trigger] after[a]).mime@.text(),
                    (#[trigger] after[b]).mime@.text(),
                ) by {
                    let a0 = if a < p { a } else { a - 1 };
                    let b0 = if b < p { b } else { b - 1 };
                    if a == p {
                        assert(before(k.text(), start[b0].mime@.text()));
                    } else if b == p {
                        assert(before(start[a0].mime@.text(), k.text()));
                    } else {
                        assert(before(start[a0].mime@.text(), start[b0].mime@.text()));
                    }
                }
                assert forall|a: int| 0 <= a < after.len() implies (
                #[trigger] after[a]).mime@.well_formed() by {
                    if a != p {
                        let a0 = if a < p { a } else { a - 1 };
                        assert(start[a0].mime@.well_formed());
                    }
                }
                lemma_in_order_distinct(after);
                assert(!holds(start, k));
                assert forall|q: MimeKey| holds(after, q) <==> holds(start, q) || q == k by {
                    if holds(after, q) {
                        let j = at(after, q);
                        if j != p {
                            let j0 = if j < p { j } else { j - 1 };
                            assert(start[j0].mime@ == q);
                        }
                    }
                    if holds(start, q) {
                        let j0 = at(start, q);
                        let j = if j0 < p { j0 } else { j0 + 1 };
                        assert(after[j].mime@ == q);
                    }
                    if q == k {
                        assert(after[p as int].mime@ == q);
                    }
                }
                assert forall|q: MimeKey| holds(after, q) implies as_map(after)[q] == before_or(
                    start,
                    k,
                    hs,
                    q,
                ) by {
                    let j = at(after, q);
                    lemma_at(after, q, j);
                    if q != k {
                        assert(j != p);
                        let j0 = if j < p { j } else { j - 1 };
                        lemma_at(start, q, j0);
                    } else {
                        lemma_at(after, q, p as int);
                    }
                }
                assert(as_map(after) =~= as_map(start).insert(k, hs));
            }
            self.rows = rows;
            proof {
                assert(self.order() =~= order.insert(p as int, k));
            }
        }
    }

    /// Takes out the entry for `mime`, if it has one. The other entries keep their order.
    pub fn delete(&mut self, mime: &MimeType)
        ensures
            final(self)@ == old(self)@.remove(mime@),
            final(self).order() == old(self).order().remove_value(mime@),
    {
        let ghost order = self.order();
        proof {
            use_type_invariant(&*self);
            lemma_in_order_distinct(self.rows@);
        }
        let ghost start = self.rows@;
        let ghost k = mime@;
        match self.find(mime) {
            Some(i) => {
                let mut rows: Vec<Row> = Vec::new();
                core::mem::swap(&mut rows, &mut self.rows);
                rows.remove(i);
                proof {
                    let after = rows@;
                    assert forall|a: int, b: int| 0 <= a < b < after.len() implies before(
                        (#[trigger] after[a]).mime@.text(),
                        (#[trigger] after[b]).mime@.text(),
                    ) by {
                        let a0 = if a < i { a } else { a + 1 };
                        let b0 = if b < i { b } else { b + 1 };
                        assert(before(start[a0].mime@.text(), start[b0].mime@.text()));
                    }
                    assert forall|a: int| 0 <= a < after.len() implies (
                    #[trigger] after[a]).mime@.well_formed() by {
                        let a0 = if a < i { a } else { a + 1 };
                        assert(start[a0].mime@.well_formed());
                    }
                    lemma_in_order_distinct(after);
                    assert forall|q: MimeKey| holds(after, q) <==> holds(start, q) && q != k by {
                        if holds(after, q) {
                            let j = at(after, q);
                            let j0 = if j < i { j } else { j + 1 };
                            assert(start[j0].mime@ == q);
                            lemma_at(start, q, j0);
                            if q == k {
                                lemma_at(start, k, i as int);
                            }
                        }
                        if holds(start, q) && q != k {
                            let j0 = at(start, q);
                            let j = if j0 < i { j0 } else { j0 - 1 };
                            assert(after[j].mime@ == q);
                        }
                    }
                    assert forall|q: MimeKey| holds(after, q) implies as_map(after)[q] == as_map(
                        start,
                    )[q] by {
                        let j = at(after, q);
                        lemma_at(after, q, j);
                        let j0 = if j < i { j } else { j + 1 };
                        lemma_at(start, q, j0);
                    }
                    assert(as_map(after) =~= as_map(start).remove(k));
                    order.index_of_first_ensures(k);
                    assert(order[i as int] == k);
                    let first = order.index_of_first(k)->Some_0;
                    assert(start[first].mime@ == k);
                    lemma_at(start, k, first);
                    lemma_at(start, k, i as int);
                }
                self.rows = rows;
                proof {
                    assert(self.order() =~= order.remove(i as int));
                }
            },
            None => {
                proof {
                    order.index_of_first_ensures(k);
                    if order.contains(k) {
                        let j = choose|j: int| 0 <= j < order.len() && order[j] == k;
                        assert(start[j].mime@ == k);
                    }
                    assert(as_map(start) =~= as_map(start).remove(k));
                }
            },
        }
    }

    /// The MIME types with an entry that fall under `pattern`, each once.
    pub fn covered(&self, pattern: &MimeType) -> (r: Vec<MimeType>)
        ensures
            forall|i: int| 0 <= i < r@.len() ==> pattern@.covers((#[trigger] r@[i])@),
            forall|i: int| 0 <= i < r@.len() ==> self@.contains_key((#[trigger] r@[i])@),
            forall|i: int, j: int| 0 <= i < j < r@.len() ==> (#[trigger] r@[i])@ != (#[trigger] r@[j])@,
            forall|k: MimeKey|
                self@.contains_key(k) && pattern@.covers(k) ==> among(r@, r@.len() as int).contains(k),
    {
        let n = self.len();
        let mut r: Vec<MimeType> = Vec::new();
        let mut i: usize = 0;
        while i < n
            invariant
                i <= n,
                n == self.order().len(),
                self.order().no_duplicates(),
                forall|k: MimeKey| self.order().contains(k) <==> self@.contains_key(k),
                forall|t: int| 0 <= t < r@.len() ==> pattern@.covers((#[trigger] r@[t])@),
                forall|t: int|
                    0 <= t < r@.len() ==> exists|u: int|
                        0 <= u < i && self.order()[u] == (#[trigger] r@[t])@,
                forall|t: int, u: int|
                    0 <= t < u < r@.len() ==> (#[trigger] r@[t])@ != (#[trigger] r@[u])@,
                forall|u: int|
                    0 <= u < i && pattern@.covers(#[trigger] self.order()[u]) ==> among(
                        r@,
                        r@.len() as int,
                    ).contains(self.order()[u]),
            decreases n - i,
        {
            let key = self.key(i);
            if pattern.covers(key) {
                let ghost before = r@;
                r.push(key.clone());
                proof {
                    let last = before.len() as int;
                    assert(r@[last]@ == self.order()[i as int]);
                    assert forall|u: int|
                        0 <= u < i + 1 && pattern@.covers(
                            #[trigger] self.order()[u],
                        ) implies among(r@, r@.len() as int).contains(self.order()[u]) by {
                        if u < i {
                            assert(among(before, before.len() as int).contains(self.order()[u]));
                            let t = choose|t: int|
                                0 <= t < before.len() && (#[trigger] before[t])@
                                    == self.order()[u];
                            assert(r@[t]@ == self.order()[u]);
                        }
                    }
                    assert forall|t: int, u: int| 0 <= t < u < r@.len() implies (#[trigger] r@[t])@
                        != (#[trigger] r@[u])@ by {
                        if u == last {
                            let w = choose|w: int| 0 <= w < i && self.order()[w] == before[t]@;
                            assert(self.order()[w] != self.order()[i as int]);
                        } else {
                            assert(before[t]@ != before[u]@);
                        }
                    }
                    assert forall|t: int| 0 <= t < r@.len() implies exists|u: int|
                        0 <= u < i + 1 && self.order()[u] == (#[trigger] r@[t])@ by {
                        if t < last {
                            let w = choose|w: int| 0 <= w < i && self.order()[w] == before[t]@;
                            assert(self.order()[w] == r@[t]@);
                        } else {
                            assert(self.order()[i as int] == r@[t]@);
                        }
                    }
                }
            }
            i += 1;
        }
        proof {
            assert forall|k: MimeKey| self@.contains_key(k) && pattern@.covers(k) implies among(
                r@,
                r@.len() as int,
            ).contains(k) by {
                assert(self.order().contains(k));
                let u = choose|u: int| 0 <= u < self.order().len() && self.order()[u] == k;
                assert(pattern@.covers(self.order()[u]));
            }
            assert forall|t: int| 0 <= t < r@.len() implies self@.contains_key(
                (#[trigger] r@[t])@,
            ) by {
                let w = choose|w: int| 0 <= w < i && self.order()[w] == r@[t]@;
                assert(self.order().contains(self.order()[w]));
            }
        }
        r
    }

    /// Takes out every entry whose MIME type falls under `pattern`.
    pub fn delete_covered(&mut self, pattern: &MimeType)
        ensures
            final(self)@ == old(self)@.remove_keys(covered_by(pattern@)),
    {
        let keys = self.covered(pattern);
        let mut j: usize = 0;
        while j < keys.len()
            invariant
                j <= keys@.len(),
                self@ == old(self)@.remove_keys(among(keys@, j as int)),
            decreases keys@.len() - j,
        {
            self.delete(&keys[j]);
            proof {
                assert(among(keys@, j + 1) =~= among(keys@, j as int).insert(keys@[j as int]@)) by {
                    assert forall|k: MimeKey| among(keys@, j + 1).contains(k) implies among(
                        keys@,
                        j as int,
                    ).insert(keys@[j as int]@).contains(k) by {
                        let t = choose|t: int| 0 <= t < j + 1 && t < keys@.len() && (#[trigger] keys@[t])@ == k;
                        if t < j {
                            assert(among(keys@, j as int).contains(k));
                        }
                    }
                    assert forall|k: MimeKey| among(keys@, j as int).insert(
                        keys@[j as int]@,
                    ).contains(k) implies among(keys@, j + 1).contains(k) by {
                        if k == keys@[j as int]@ {
                            assert(keys@[j as int]@ == k);
                        } else {
                            let t = choose|t: int| 0 <= t < j && t < keys@.len() && (#[trigger] keys@[t])@ == k;
                            assert(keys@[t]@ == k);
                        }
                    }
                }
                assert(old(self)@.remove_keys(among(keys@, j as int)).remove(keys@[j as int]@)
                    =~= old(self)@.remove_keys(among(keys@, j + 1)));
            }
            j += 1;
        }
        proof {
            assert(old(self)@.remove_keys(among(keys@, 0)) =~= old(self)@);
            assert forall|k: MimeKey| among(keys@, keys@.len() as int).contains(k) implies covered_by(pattern@).contains(k) by {
                let t = choose|t: int| 0 <= t < keys@.len() && (#[trigger] keys@[t])@ == k;
            }
            assert(old(self)@.remove_keys(among(keys@, keys@.len() as int)) =~= old(
                self,
            )@.remove_keys(covered_by(pattern@)));
        }
    }

    /// Takes `handler` out of every entry whose MIME type falls under `pattern`; an entry
    /// goes where nothing is left of it.
    pub fn strip_covered(&mut self, pattern: &MimeType, handler: &String)
        ensures
            final(self)@ == stripped_under(old(self)@, pattern@, handler@),
    {
        let keys = self.covered(pattern);
        let mut j: usize = 0;
        let ghost start = self@;
        let ghost h = handler@;
        while j < keys.len()
            invariant
                j <= keys@.len(),
                h == handler@,
                start == old(self)@,
                forall|i: int| 0 <= i < keys@.len() ==> pattern@.covers((#[trigger] keys@[i])@),
                forall|i: int| 0 <= i < keys@.len() ==> start.contains_key((#[trigger] keys@[i])@),
                forall|a: int, b: int|
                    0 <= a < b < keys@.len() ==> (#[trigger] keys@[a])@ != (#[trigger] keys@[b])@,
                forall|k: MimeKey|
                    self@.contains_key(k) <==> start.contains_key(k) && !(among(
                        keys@,
                        j as int,
                    ).contains(k) && without(start[k], h).len() == 0),
                forall|k: MimeKey|
                    self@.contains_key(k) ==> self@[k] == if among(keys@, j as int).contains(k) {
                        without(start[k], h)
                    } else {
                        start[k]
                    },
            decreases keys@.len() - j,
        {
            let ghost before = self@;
            let ghost kj = keys@[j as int]@;
            proof {
                if among(keys@, j as int).contains(kj) {
                    let t = choose|t: int| 0 <= t < j && t < keys@.len() && (#[trigger] keys@[t])@ == kj;
                    assert(keys@[t]@ != keys@[j as int]@);
                }
            }
            self.strip(&keys[j], handler);
            proof {
                assert forall|k: MimeKey| among(keys@, j + 1).contains(k) <==> among(
                    keys@,
                    j as int,
                ).contains(k) || k == kj by {
                    if among(keys@, j + 1).contains(k) {
                        let t = choose|t: int| 0 <= t < j + 1 && t < keys@.len() && (#[trigger] keys@[t])@ == k;
                        if t < j {
                            assert(among(keys@, j as int).contains(k));
                        }
                    }
                    if among(keys@, j as int).contains(k) {
                        let t = choose|t: int| 0 <= t < j && t < keys@.len() && (#[trigger] keys@[t])@ == k;
                        assert(keys@[t]@ == k);
                    }
                    if k == kj {
                        assert(keys@[j as int]@ == k);
                    }
                }
            }
            j += 1;
        }
        proof {
            assert forall|k: MimeKey| among(keys@, keys@.len() as int).contains(k) <==> start.contains_key(k) && pattern@.covers(k) by {
                if among(keys@, keys@.len() as int).contains(k) {
                    let t = choose|t: int| 0 <= t < keys@.len() && (#[trigger] keys@[t])@ == k;
                }
            }
            assert(self@ =~= stripped_under(start, pattern@, h));
        }
    }

    /// Takes `handler` out of the entry for `mime`; the entry goes where nothing is left
    /// of it.
    pub fn strip(&mut self, mime: &MimeType, handler: &String)
        ensures
            final(self)@ == stripped(old(self)@, mime@, handler@),
    {
        let rest = match self.get(mime) {
            Some(list) => Some(without_id(list, handler)),
            None => None,
        };
        match rest {
            Some(rest) => {
                if rest.len() == 0 {
                    self.delete(mime);
                } else {
                    self.put(mime.clone(), rest);
                }
            },
            None => {},
        }
    }
}

spec fn before_or(
    before: Seq<Row>,
    k: MimeKey,
    hs: Seq<Seq<char>>,
    q: MimeKey,
) -> Seq<Seq<char>> {
    if q == k {
        hs
    } else {
        as_map(before)[q]
    }
}

} // verus!
