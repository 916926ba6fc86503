//! What holds of the commands on associations and of resolution taken together.

use crate::associations::{each_once, expansion, Associations};
use crate::layer::{listed, stripped, stripped_under};
use crate::lists::{
    allowed, count, distinct, lemma_allowed_contains, lemma_count_in_no_duplicates,
    lemma_distinct_contains, lemma_distinct_first, lemma_distinct_no_duplicates,
    lemma_filter_no_duplicates, lemma_without_contains, not_in, other_than, without,
};
use crate::mime_types::MimeKey;
use crate::resolver::{candidates, fallback, literal, resolution, shared_part, user_part};
use crate::error::ErrorView;
use vstd::prelude::*;

verus! {

/// An element is in the concatenation of two lists where it is in one of them.
proof fn lemma_contains_add(a: Seq<Seq<char>>, b: Seq<Seq<char>>, x: Seq<char>)
    ensures
        (a + b).contains(x) <==> a.contains(x) || b.contains(x),
{
    if a.contains(x) {
        let i = choose|i: int| 0 <= i < a.len() && a[i] == x;
        assert((a + b)[i] == x);
    }
    if b.contains(x) {
        let i = choose|i: int| 0 <= i < b.len() && b[i] == x;
        assert((a + b)[a.len() + i] == x);
    }
    if (a + b).contains(x) {
        let i = choose|i: int| 0 <= i < (a + b).len() && (a + b)[i] == x;
        if i < a.len() {
            assert(a[i] == x);
        } else {
            assert(b[i - a.len()] == x);
        }
    }
}

/// A list that starts with an element that is not excluded still starts with it after
/// the excluded ones are taken out.
proof fn lemma_allowed_first(s: Seq<Seq<char>>, excluded: Seq<Seq<char>>)
    requires
        s.len() > 0,
        !excluded.contains(s[0]),
    ensures
        allowed(s, excluded).len() > 0,
        allowed(s, excluded)[0] == s[0],
    decreases s.len(),
{
    reveal(Seq::filter);
    if s.len() > 1 {
        lemma_allowed_first(s.drop_last(), excluded);
    } else {
        assert(s.drop_last().filter(not_in(excluded)).len() == 0);
    }
}

/// After `set`, the handler that was set is no longer removed for the MIME type.
proof fn lemma_set_one_unremoves(a: Associations, m: MimeKey, h: Seq<char>)
    ensures
        !listed(a.set_one(m, h).removed, m).contains(h),
{
    if a.removed.contains_key(m) {
        lemma_without_contains(a.removed[m], h, h);
    }
}

/// A handler that was set for a MIME type is the first candidate for it, whatever else
/// is known. This holds where the MIME type itself was set: not of a wildcard that was
/// expanded, for which nothing is stored.
pub proof fn lemma_set_comes_first(
    a: Associations,
    system: Map<MimeKey, Seq<Seq<char>>>,
    regex: Seq<Seq<char>>,
    m: MimeKey,
    h: Seq<char>,
    expand: bool,
    known: Seq<MimeKey>,
)
    requires
        !(expand && m.is_wildcard()),
    ensures
        resolution(a.set(m, h, expand, known), system, regex, m) matches Ok(list) && list.len() > 0
            && list[0] == h,
{
    let b = a.set(m, h, expand, known);
    assert(b == a.set_one(m, h));
    lemma_set_one_unremoves(a, m, h);
    let own = listed(b.default_apps, m) + listed(b.added, m);
    assert(listed(b.default_apps, m) == seq![h]);
    assert(own[0] == h);
    lemma_allowed_first(own, listed(b.removed, m));
    assert(user_part(b, m) == literal(b, m));
    let all = user_part(b, m) + shared_part(b, system, regex, m);
    assert(all[0] == h);
    lemma_distinct_first(all);
}

/// The command `add` changes nothing when it is given a second time.
pub proof fn lemma_add_one_twice(
    a: Associations,
    system: Map<MimeKey, Seq<Seq<char>>>,
    m: MimeKey,
    h: Seq<char>,
)
    ensures
        a.add_one(system, m, h).add_one(system, m, h) == a.add_one(system, m, h),
{
    let b = a.add_one(system, m, h);
    if b != a {
        let list = listed(a.added, m).push(h);
        assert(list[list.len() - 1] == h);
        assert(listed(b.added, m).contains(h));
    }
}

/// A handler among the candidates without regex matches is among them with any.
proof fn lemma_candidates_whatever_matches(
    a: Associations,
    system: Map<MimeKey, Seq<Seq<char>>>,
    regex: Seq<Seq<char>>,
    m: MimeKey,
    h: Seq<char>,
)
    requires
        candidates(a, system, Seq::empty(), m).contains(h),
    ensures
        candidates(a, system, regex, m).contains(h),
{
    let excluded = listed(a.removed, m);
    let without_regex = user_part(a, m) + shared_part(a, system, Seq::empty(), m);
    let with_regex = user_part(a, m) + shared_part(a, system, regex, m);
    lemma_distinct_contains(without_regex, h);
    lemma_distinct_contains(with_regex, h);
    lemma_contains_add(user_part(a, m), shared_part(a, system, Seq::empty(), m), h);
    lemma_contains_add(user_part(a, m), shared_part(a, system, regex, m), h);
    lemma_contains_add(
        allowed(Seq::empty(), excluded),
        allowed(listed(system, m), excluded),
        h,
    );
    lemma_contains_add(allowed(regex, excluded), allowed(listed(system, m), excluded), h);
    lemma_allowed_contains(Seq::empty(), excluded, h);
}

/// Adding a handler for a MIME type, once or twice, leaves the same associations, and
/// the handler is then among the candidates for the MIME type exactly once. This holds
/// where the handler is not removed for the MIME type, and where the MIME type itself is
/// added to: not of a wildcard that was expanded.
pub proof fn lemma_add_is_idempotent(
    a: Associations,
    system: Map<MimeKey, Seq<Seq<char>>>,
    regex: Seq<Seq<char>>,
    m: MimeKey,
    h: Seq<char>,
    expand: bool,
    known: Seq<MimeKey>,
)
    requires
        !(expand && m.is_wildcard()),
        !listed(a.removed, m).contains(h),
    ensures
        a.add(system, m, h, expand, known).add(system, m, h, expand, known) == a.add(
            system,
            m,
            h,
            expand,
            known,
        ),
        count(candidates(a.add(system, m, h, expand, known), system, regex, m), h) == 1,
{
    let b = a.add(system, m, h, expand, known);
    assert(b == a.add_one(system, m, h));
    lemma_add_one_twice(a, system, m, h);
    let found = candidates(b, system, regex, m);
    lemma_distinct_no_duplicates(user_part(b, m) + shared_part(b, system, regex, m));
    if candidates(a, system, Seq::empty(), m).contains(h) {
        assert(b == a);
        lemma_candidates_whatever_matches(a, system, regex, m, h);
    } else {
        let own = listed(b.default_apps, m) + listed(b.added, m);
        if listed(a.added, m).contains(h) {
            assert(b == a);
        } else {
            let list = listed(a.added, m).push(h);
            assert(list[list.len() - 1] == h);
        }
        assert(listed(b.added, m).contains(h));
        lemma_contains_add(listed(b.default_apps, m), listed(b.added, m), h);
        lemma_allowed_contains(own, listed(b.removed, m), h);
        assert(literal(b, m).contains(h));
        assert(user_part(b, m) == literal(b, m));
        lemma_contains_add(user_part(b, m), shared_part(b, system, regex, m), h);
        lemma_distinct_contains(user_part(b, m) + shared_part(b, system, regex, m), h);
    }
    lemma_count_in_no_duplicates(found, h);
}

/// After `unset`, nothing is set or added for the MIME type itself, so that its
/// candidates are those of the wildcard of its type, the regex matches and the system's
/// defaults, and resolution fails with `NotFound` where there are none of these.
pub proof fn lemma_unset_falls_through(
    a: Associations,
    system: Map<MimeKey, Seq<Seq<char>>>,
    regex: Seq<Seq<char>>,
    m: MimeKey,
)
    ensures
        !a.unset(m).has_literal(m),
        candidates(a.unset(m), system, regex, m) == distinct(
            fallback(a.unset(m), m) + shared_part(a.unset(m), system, regex, m),
        ),
        resolution(a.unset(m), system, regex, m) is Err ==> resolution(a.unset(m), system, regex, m)
            == Err::<Seq<Seq<char>>, ErrorView>(ErrorView::NotFound(m.text())),
{
    reveal(Seq::filter);
    let b = a.unset(m);
    assert(m.covers(m));
    assert(!b.has_literal(m));
    assert(listed(b.default_apps, m) + listed(b.added, m) =~= Seq::<Seq<char>>::empty());
    assert(literal(b, m).len() == 0);
}

/// Setting a handler for a MIME type and then unsetting the MIME type leaves nothing
/// set or added for it: resolution falls through to the wildcard of its type, the regex
/// matches and the system's defaults, or fails with `NotFound`.
pub proof fn lemma_unset_after_set(
    a: Associations,
    system: Map<MimeKey, Seq<Seq<char>>>,
    regex: Seq<Seq<char>>,
    m: MimeKey,
    h: Seq<char>,
    expand: bool,
    known: Seq<MimeKey>,
)
    ensures
        ({
            let b = a.set(m, h, expand, known).unset(m);
            &&& !b.has_literal(m)
            &&& candidates(b, system, regex, m) == distinct(
                fallback(b, m) + shared_part(b, system, regex, m),
            )
            &&& resolution(b, system, regex, m) is Err ==> resolution(b, system, regex, m)
                == Err::<Seq<Seq<char>>, ErrorView>(ErrorView::NotFound(m.text()))
        }),
{
    lemma_unset_falls_through(a.set(m, h, expand, known), system, regex, m);
}

/// Where something is set or added for a wildcard itself, `unset` and `remove` of the
/// wildcard work on that entry alone: the entries of every other MIME type, those of
/// its type too, stay as they are.
pub proof fn lemma_wildcard_entry_goes_first(a: Associations, w: MimeKey, h: Seq<char>, k: MimeKey)
    requires
        w.is_wildcard(),
        a.has_literal(w),
        k != w,
    ensures
        !a.unset(w).has_literal(w),
        a.unset(w).default_apps.contains_key(k) == a.default_apps.contains_key(k),
        a.unset(w).added.contains_key(k) == a.added.contains_key(k),
        listed(a.unset(w).default_apps, k) == listed(a.default_apps, k),
        listed(a.unset(w).added, k) == listed(a.added, k),
        a.remove(w, h).default_apps.contains_key(k) == a.default_apps.contains_key(k),
        a.remove(w, h).added.contains_key(k) == a.added.contains_key(k),
        listed(a.remove(w, h).default_apps, k) == listed(a.default_apps, k),
        listed(a.remove(w, h).added, k) == listed(a.added, k),
        listed(a.remove(w, h).default_apps, w) == without(listed(a.default_apps, w), h),
        listed(a.remove(w, h).added, w) == without(listed(a.added, w), h),
{
    reveal(Seq::filter);
    assert(without(Seq::<Seq<char>>::empty(), h) =~= Seq::<Seq<char>>::empty());
}

/// The candidates for a MIME type hold each handler once, none that was removed for the
/// MIME type, and else exactly what the user's part, the regex matches and the system's
/// defaults give.
pub proof fn lemma_candidates(
    a: Associations,
    system: Map<MimeKey, Seq<Seq<char>>>,
    regex: Seq<Seq<char>>,
    m: MimeKey,
    h: Seq<char>,
)
    ensures
        candidates(a, system, regex, m).no_duplicates(),
        candidates(a, system, regex, m).contains(h) ==> !listed(a.removed, m).contains(h),
        candidates(a, system, regex, m).contains(h) <==> (user_part(a, m) + shared_part(
            a,
            system,
            regex,
            m,
        )).contains(h),
        user_part(a, m).len() > 0 ==> candidates(a, system, regex, m).len() > 0 && candidates(
            a,
            system,
            regex,
            m,
        )[0] == user_part(a, m)[0],
{
    let excluded = listed(a.removed, m);
    let all = user_part(a, m) + shared_part(a, system, regex, m);
    lemma_distinct_no_duplicates(all);
    lemma_distinct_contains(all, h);
    lemma_contains_add(user_part(a, m), shared_part(a, system, regex, m), h);
    lemma_contains_add(allowed(regex, excluded), allowed(listed(system, m), excluded), h);
    lemma_allowed_contains(regex, excluded, h);
    lemma_allowed_contains(listed(system, m), excluded, h);
    lemma_allowed_contains(listed(a.default_apps, m) + listed(a.added, m), excluded, h);
    lemma_allowed_contains(
        listed(a.default_apps, m.wildcard()) + listed(a.added, m.wildcard()),
        excluded,
        h,
    );
    if user_part(a, m).len() > 0 {
        assert(all[0] == user_part(a, m)[0]);
        lemma_distinct_first(all);
    }
}

/// Taking a handler out of an entry keeps the lists of a layer free of repetitions.
proof fn lemma_stripped_each_once(layer: Map<MimeKey, Seq<Seq<char>>>, k: MimeKey, h: Seq<char>)
    requires
        each_once(layer),
    ensures
        each_once(stripped(layer, k, h)),
{
    if layer.contains_key(k) {
        lemma_filter_no_duplicates(layer[k], other_than(h));
    }
    assert forall|q: MimeKey| stripped(layer, k, h).contains_key(q) implies (
    #[trigger] stripped(layer, k, h)[q]).no_duplicates() by {
        if q != k {
            assert(layer[q].no_duplicates());
        }
    }
}

/// Taking a handler out of the entries under a pattern keeps the lists of a layer free
/// of repetitions.
proof fn lemma_stripped_under_each_once(
    layer: Map<MimeKey, Seq<Seq<char>>>,
    pattern: MimeKey,
    h: Seq<char>,
)
    requires
        each_once(layer),
    ensures
        each_once(stripped_under(layer, pattern, h)),
{
    assert forall|q: MimeKey| stripped_under(layer, pattern, h).contains_key(q) implies (
    #[trigger] stripped_under(layer, pattern, h)[q]).no_duplicates() by {
        assert(layer[q].no_duplicates());
        lemma_filter_no_duplicates(layer[q], other_than(h));
    }
}

/// `set` for one MIME type keeps every list free of repetitions.
proof fn lemma_set_one_tidy(a: Associations, m: MimeKey, h: Seq<char>)
    requires
        a.tidy(),
    ensures
        a.set_one(m, h).tidy(),
{
    lemma_stripped_each_once(a.removed, m, h);
    assert forall|q: MimeKey| a.set_one(m, h).default_apps.contains_key(q) implies (
    #[trigger] a.set_one(m, h).default_apps[q]).no_duplicates() by {
        if q != m {
            assert(a.default_apps[q].no_duplicates());
        }
    }
}

/// `set` for each of some MIME types keeps every list free of repetitions.
proof fn lemma_set_each_tidy(a: Associations, targets: Seq<MimeKey>, h: Seq<char>)
    requires
        a.tidy(),
    ensures
        a.set_each(targets, h).tidy(),
    decreases targets.len(),
{
    if targets.len() > 0 {
        lemma_set_each_tidy(a, targets.drop_last(), h);
        lemma_set_one_tidy(a.set_each(targets.drop_last(), h), targets.last(), h);
    }
}

/// `add` for one MIME type keeps every list free of repetitions.
proof fn lemma_add_one_tidy(
    a: Associations,
    system: Map<MimeKey, Seq<Seq<char>>>,
    m: MimeKey,
    h: Seq<char>,
)
    requires
        a.tidy(),
    ensures
        a.add_one(system, m, h).tidy(),
{
    let b = a.add_one(system, m, h);
    if b != a {
        let before = listed(a.added, m);
        if a.added.contains_key(m) {
            assert(a.added[m].no_duplicates());
        }
        assert(before.push(h).no_duplicates());
        assert forall|q: MimeKey| b.added.contains_key(q) implies (#[trigger] b.added[q]).no_duplicates() by {
            if q != m {
                assert(a.added[q].no_duplicates());
            }
        }
    }
}

/// `add` for each of some MIME types keeps every list free of repetitions.
proof fn lemma_add_each_tidy(
    a: Associations,
    system: Map<MimeKey, Seq<Seq<char>>>,
    targets: Seq<MimeKey>,
    h: Seq<char>,
)
    requires
        a.tidy(),
    ensures
        a.add_each(system, targets, h).tidy(),
    decreases targets.len(),
{
    if targets.len() > 0 {
        lemma_add_each_tidy(a, system, targets.drop_last(), h);
        lemma_add_one_tidy(a.add_each(system, targets.drop_last(), h), system, targets.last(), h);
    }
}

/// Where no list of the associations names a handler twice, none does after `set`,
/// `add`, `unset` or `remove`.
pub proof fn lemma_commands_keep_lists_tidy(
    a: Associations,
    system: Map<MimeKey, Seq<Seq<char>>>,
    m: MimeKey,
    h: Seq<char>,
    expand: bool,
    known: Seq<MimeKey>,
)
    requires
        a.tidy(),
    ensures
        a.set(m, h, expand, known).tidy(),
        a.add(system, m, h, expand, known).tidy(),
        a.unset(m).tidy(),
        a.remove(m, h).tidy(),
{
    lemma_set_one_tidy(a, m, h);
    lemma_set_each_tidy(a, expansion(m, known), h);
    lemma_add_one_tidy(a, system, m, h);
    lemma_add_each_tidy(a, system, expansion(m, known), h);
    lemma_stripped_each_once(a.added, m, h);
    lemma_stripped_each_once(a.default_apps, m, h);
    lemma_stripped_under_each_once(a.added, m, h);
    lemma_stripped_under_each_once(a.default_apps, m, h);
    let u = a.unset(m);
    assert forall|q: MimeKey| u.added.contains_key(q) implies (#[trigger] u.added[q]).no_duplicates() by {
        assert(a.added[q].no_duplicates());
    }
    assert forall|q: MimeKey| u.default_apps.contains_key(q) implies (
    #[trigger] u.default_apps[q]).no_duplicates() by {
        assert(a.default_apps[q].no_duplicates());
    }
}

/// After `set` for each of some MIME types, each of them has the handler as its only
/// default, and the defaults of every other MIME type are as before.
pub proof fn lemma_set_each(a: Associations, targets: Seq<MimeKey>, h: Seq<char>, k: MimeKey)
    ensures
        a.set_each(targets, h).added == a.added,
        targets.contains(k) ==> a.set_each(targets, h).default_apps.contains_key(k)
            && a.set_each(targets, h).default_apps[k] == seq![h],
        !targets.contains(k) ==> a.set_each(targets, h).default_apps.contains_key(k)
            == a.default_apps.contains_key(k) && listed(a.set_each(targets, h).default_apps, k)
            == listed(a.default_apps, k),
    decreases targets.len(),
{
    if targets.len() > 0 {
        let front = targets.drop_last();
        lemma_set_each(a, front, h, k);
        if targets.contains(k) && k != targets.last() {
            let i = choose|i: int| 0 <= i < targets.len() && targets[i] == k;
            assert(front[i] == k);
        }
        if front.contains(k) {
            let i = choose|i: int| 0 <= i < front.len() && front[i] == k;
            assert(targets[i] == k);
        }
        if k == targets.last() {
            assert(targets[targets.len() - 1] == k);
        }
    }
}

/// After `set` of a wildcard that is expanded, each known concrete MIME type of its type
/// has the handler as its only default, and no entry is made for the wildcard itself.
pub proof fn lemma_set_expanded(
    a: Associations,
    w: MimeKey,
    h: Seq<char>,
    known: Seq<MimeKey>,
    k: MimeKey,
)
    requires
        w.is_wildcard(),
    ensures
        known.contains(k) && k.type_ == w.type_ && !k.is_wildcard() ==> a.set(
            w,
            h,
            true,
            known,
        ).default_apps.contains_key(k) && a.set(w, h, true, known).default_apps[k] == seq![h],
        a.set(w, h, true, known).default_apps.contains_key(w) == a.default_apps.contains_key(w),
{
    let targets = expansion(w, known);
    lemma_set_each(a, targets, h, k);
    lemma_set_each(a, targets, h, w);
    let pred = crate::associations::concrete_under(w);
    if known.contains(k) && k.type_ == w.type_ && !k.is_wildcard() {
        let i = choose|i: int| 0 <= i < known.len() && known[i] == k;
        known.lemma_filter_contains(pred, i);
    }
    if targets.contains(w) {
        let i = choose|i: int| 0 <= i < targets.len() && targets[i] == w;
        known.lemma_filter_pred(pred, i);
    }
}

} // verus!
