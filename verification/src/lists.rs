//! Ordered lists of handler ids: membership, exclusion and removal of repetitions.

use crate::text::{
    before, chars_of, lemma_before_asymmetric, lemma_before_transitive, precedes,
};
use vstd::prelude::*;

verus! {

/// The test for not being held by `excluded`.
pub open spec fn not_in(excluded: Seq<Seq<char>>) -> spec_fn(Seq<char>) -> bool {
    |x: Seq<char>| !excluded.contains(x)
}

/// The test for being other than `id`.
pub open spec fn other_than(id: Seq<char>) -> spec_fn(Seq<char>) -> bool {
    |x: Seq<char>| x != id
}

/// The test for being `id`.
pub open spec fn same_as(id: Seq<char>) -> spec_fn(Seq<char>) -> bool {
    |x: Seq<char>| x == id
}

/// The elements of `s` that `excluded` does not hold, in their order.
pub open spec fn allowed(s: Seq<Seq<char>>, excluded: Seq<Seq<char>>) -> Seq<Seq<char>> {
    s.filter(not_in(excluded))
}

/// The elements of `s` other than `id`, in their order.
pub open spec fn without(s: Seq<Seq<char>>, id: Seq<char>) -> Seq<Seq<char>> {
    s.filter(other_than(id))
}

/// `s` with every element kept at its first occurrence only.
pub open spec fn distinct(s: Seq<Seq<char>>) -> Seq<Seq<char>>
    decreases s.len(),
{
    if s.len() == 0 {
        s
    } else {
        let before = distinct(s.drop_last());
        if before.contains(s.last()) {
            before
        } else {
            before.push(s.last())
        }
    }
}

/// How often `x` occurs in `s`.
pub open spec fn count(s: Seq<Seq<char>>, x: Seq<char>) -> nat {
    s.filter(same_as(x)).len()
}

/// `allowed` holds exactly the elements of `s` that are not excluded.
pub proof fn lemma_allowed_contains(s: Seq<Seq<char>>, excluded: Seq<Seq<char>>, x: Seq<char>)
    ensures
        allowed(s, excluded).contains(x) <==> s.contains(x) && !excluded.contains(x),
{
    let pred = not_in(excluded);
    if allowed(s, excluded).contains(x) {
        let i = choose|i: int| 0 <= i < allowed(s, excluded).len() && allowed(s, excluded)[i] == x;
        s.lemma_filter_pred(pred, i);
        s.lemma_filter_contains_rev(pred, x);
    }
    if s.contains(x) && !excluded.contains(x) {
        let i = choose|i: int| 0 <= i < s.len() && s[i] == x;
        s.lemma_filter_contains(pred, i);
    }
}

/// `without` holds exactly the elements of `s` other than `id`.
pub proof fn lemma_without_contains(s: Seq<Seq<char>>, id: Seq<char>, x: Seq<char>)
    ensures
        without(s, id).contains(x) <==> s.contains(x) && x != id,
{
    let pred = other_than(id);
    if without(s, id).contains(x) {
        let i = choose|i: int| 0 <= i < without(s, id).len() && without(s, id)[i] == x;
        s.lemma_filter_pred(pred, i);
        s.lemma_filter_contains_rev(pred, x);
    }
    if s.contains(x) && x != id {
        let i = choose|i: int| 0 <= i < s.len() && s[i] == x;
        s.lemma_filter_contains(pred, i);
    }
}

/// Filtering keeps a list free of repetitions.
pub proof fn lemma_filter_no_duplicates(s: Seq<Seq<char>>, pred: spec_fn(Seq<char>) -> bool)
    requires
        s.no_duplicates(),
    ensures
        s.filter(pred).no_duplicates(),
    decreases s.len(),
{
    reveal(Seq::filter);
    if s.len() > 0 {
        let front = s.drop_last();
        lemma_filter_no_duplicates(front, pred);
        if pred(s.last()) {
            assert forall|i: int| 0 <= i < front.filter(pred).len() implies front.filter(pred)[i]
                != s.last() by {
                front.lemma_filter_contains_rev(pred, front.filter(pred)[i]);
                let j = choose|j: int| 0 <= j < front.len() && front[j] == front.filter(pred)[i];
                assert(s[j] == front[j]);
            }
        }
    }
}

/// What `distinct` does to a list with one more element at its end.
pub proof fn lemma_distinct_push(s: Seq<Seq<char>>, x: Seq<char>)
    ensures
        distinct(s.push(x)) == if distinct(s).contains(x) {
            distinct(s)
        } else {
            distinct(s).push(x)
        },
{
    assert(s.push(x).drop_last() =~= s);
}

/// `distinct` holds exactly the elements of `s`.
pub proof fn lemma_distinct_contains(s: Seq<Seq<char>>, x: Seq<char>)
    ensures
        distinct(s).contains(x) <==> s.contains(x),
    decreases s.len(),
{
    if s.len() > 0 {
        let front = s.drop_last();
        lemma_distinct_contains(front, x);
        lemma_distinct_contains(front, s.last());
        let before = distinct(front);
        if s.contains(x) {
            let i = choose|i: int| 0 <= i < s.len() && s[i] == x;
            if i < s.len() - 1 {
                assert(front[i] == x);
                assert(before.contains(x));
                if !before.contains(s.last()) {
                    let j = choose|j: int| 0 <= j < before.len() && before[j] == x;
                    assert(before.push(s.last())[j] == x);
                }
            } else {
                if !before.contains(s.last()) {
                    assert(before.push(s.last())[before.len() as int] == x);
                }
            }
        }
        if distinct(s).contains(x) {
            let j = choose|j: int| 0 <= j < distinct(s).len() && distinct(s)[j] == x;
            if before.contains(s.last()) || j < before.len() {
                assert(before[j] == x);
                assert(front.contains(x));
                let i = choose|i: int| 0 <= i < front.len() && front[i] == x;
                assert(s[i] == x);
            } else {
                assert(s[s.len() - 1] == x);
            }
        }
    }
}

/// `distinct` yields a list free of repetitions.
pub proof fn lemma_distinct_no_duplicates(s: Seq<Seq<char>>)
    ensures
        distinct(s).no_duplicates(),
    decreases s.len(),
{
    if s.len() > 0 {
        lemma_distinct_no_duplicates(s.drop_last());
    }
}

/// `distinct` keeps the first element first.
pub proof fn lemma_distinct_first(s: Seq<Seq<char>>)
    requires
        s.len() > 0,
    ensures
        distinct(s).len() > 0,
        distinct(s)[0] == s[0],
    decreases s.len(),
{
    if s.len() > 1 {
        lemma_distinct_first(s.drop_last());
    } else {
        assert(distinct(s.drop_last()).len() == 0);
    }
}

/// `distinct` leaves a list free of repetitions as it is.
pub proof fn lemma_distinct_of_no_duplicates(s: Seq<Seq<char>>)
    requires
        s.no_duplicates(),
    ensures
        distinct(s) == s,
    decreases s.len(),
{
    if s.len() > 0 {
        let front = s.drop_last();
        lemma_distinct_of_no_duplicates(front);
        lemma_distinct_contains(front, s.last());
        if front.contains(s.last()) {
            let i = choose|i: int| 0 <= i < front.len() && front[i] == s.last();
            assert(s[i] == s[s.len() - 1]);
        }
        assert(front.push(s.last()) =~= s);
    }
}

/// In a list free of repetitions every element it holds occurs once.
pub proof fn lemma_count_in_no_duplicates(s: Seq<Seq<char>>, x: Seq<char>)
    requires
        s.no_duplicates(),
    ensures
        count(s, x) == if s.contains(x) { 1nat } else { 0nat },
    decreases s.len(),
{
    reveal(Seq::filter);
    let pred = same_as(x);
    if s.len() > 0 {
        let front = s.drop_last();
        lemma_count_in_no_duplicates(front, x);
        if s.last() == x {
            if front.contains(x) {
                let i = choose|i: int| 0 <= i < front.len() && front[i] == x;
                assert(s[i] == s[s.len() - 1]);
            }
            assert(s[s.len() - 1] == x);
        } else {
            if s.contains(x) {
                let i = choose|i: int| 0 <= i < s.len() && s[i] == x;
                assert(front[i] == x);
            }
            if front.contains(x) {
                let i = choose|i: int| 0 <= i < front.len() && front[i] == x;
                assert(s[i] == x);
            }
        }
    }
}

/// Where `x` first occurs in `s` at or after `from`, or the length of `s` if it does not.
pub open spec fn place(s: Seq<Seq<char>>, x: Seq<char>, from: int) -> int
    decreases s.len() - from,
{
    if from < 0 || from >= s.len() {
        s.len() as int
    } else if s[from] == x {
        from
    } else {
        place(s, x, from + 1)
    }
}

/// `place` is the least index at or after `from` that holds `x`.
pub proof fn lemma_place(s: Seq<Seq<char>>, x: Seq<char>, from: int)
    requires
        0 <= from <= s.len(),
    ensures
        from <= place(s, x, from) <= s.len(),
        place(s, x, from) < s.len() ==> s[place(s, x, from)] == x,
        forall|j: int| from <= j < place(s, x, from) ==> s[j] != x,
    decreases s.len() - from,
{
    if from < s.len() && s[from] != x {
        lemma_place(s, x, from + 1);
    }
}

/// `place` finds `x` exactly where `s` holds it.
pub proof fn lemma_place_contains(s: Seq<Seq<char>>, x: Seq<char>)
    ensures
        place(s, x, 0) < s.len() <==> s.contains(x),
{
    lemma_place(s, x, 0);
    if s.contains(x) {
        let i = choose|i: int| 0 <= i < s.len() && s[i] == x;
        if place(s, x, 0) >= s.len() {
            assert(s[i] != x);
        }
    }
}

/// The views of the strings of a vector, after one more was pushed.
pub proof fn lemma_deep_push(before: Vec<String>, after: Vec<String>, s: String)
    requires
        after@ == before@.push(s),
    ensures
        after.deep_view() == before.deep_view().push(s@),
{
    assert(after.deep_view() =~= before.deep_view().push(s@));
}

/// Whether `list` holds `id`.
pub fn contains(list: &Vec<String>, id: &String) -> (r: bool)
    ensures
        r == list.deep_view().contains(id@),
{
    let mut i: usize = 0;
    while i < list.len()
        invariant
            i <= list.len(),
            forall|j: int| 0 <= j < i ==> list.deep_view()[j] != id@,
        decreases list.len() - i,
    {
        if list[i] == *id {
            assert(list.deep_view()[i as int] == id@);
            return true;
        }
        i += 1;
    }
    false
}

/// Where `id` first occurs in `list`, or the length of `list` if it does not.
pub fn index_of(list: &Vec<String>, id: &String) -> (r: usize)
    ensures
        r == place(list.deep_view(), id@, 0),
        r <= list.len(),
{
    let mut i: usize = 0;
    while i < list.len()
        invariant
            i <= list.len(),
            place(list.deep_view(), id@, 0) == place(list.deep_view(), id@, i as int),
        decreases list.len() - i,
    {
        assert(list.deep_view()[i as int] == list@[i as int]@);
        if list[i] == *id {
            return i;
        }
        i += 1;
    }
    i
}

/// A copy of `list`.
pub fn copy(list: &Vec<String>) -> (r: Vec<String>)
    ensures
        r.deep_view() == list.deep_view(),
{
    let mut r: Vec<String> = Vec::new();
    let mut i: usize = 0;
    while i < list.len()
        invariant
            i <= list.len(),
            r.deep_view() == list.deep_view().take(i as int),
        decreases list.len() - i,
    {
        let ghost before = r;
        r.push(list[i].clone());
        proof {
            lemma_deep_push(before, r, list@[i as int]);
            assert(list.deep_view().take(i as int).push(list@[i as int]@)
                =~= list.deep_view().take(i + 1));
        }
        i += 1;
    }
    proof {
        assert(list.deep_view().take(list.len() as int) =~= list.deep_view());
    }
    r
}

/// Appends a copy of each element of `more` to `list`.
pub fn extend(list: &mut Vec<String>, more: &Vec<String>)
    ensures
        final(list).deep_view() == old(list).deep_view() + more.deep_view(),
{
    let mut i: usize = 0;
    while i < more.len()
        invariant
            i <= more.len(),
            list.deep_view() == old(list).deep_view() + more.deep_view().take(i as int),
        decreases more.len() - i,
    {
        let ghost before = *list;
        list.push(more[i].clone());
        proof {
            lemma_deep_push(before, *list, more@[i as int]);
            assert((old(list).deep_view() + more.deep_view().take(i as int)).push(
                more@[i as int]@,
            ) =~= old(list).deep_view() + more.deep_view().take(i + 1));
        }
        i += 1;
    }
    proof {
        assert(more.deep_view().take(more.len() as int) =~= more.deep_view());
    }
}

/// The elements of `list` that `excluded` does not hold, in their order.
pub fn allowed_of(list: &Vec<String>, excluded: &Vec<String>) -> (r: Vec<String>)
    ensures
        r.deep_view() == allowed(list.deep_view(), excluded.deep_view()),
{
    let mut r: Vec<String> = Vec::new();
    let mut i: usize = 0;
    let ghost pred = not_in(excluded.deep_view());
    proof {
        reveal(Seq::filter);
        assert(list.deep_view().take(0) =~= Seq::<Seq<char>>::empty());
    }
    while i < list.len()
        invariant
            i <= list.len(),
            pred == not_in(excluded.deep_view()),
            r.deep_view() == list.deep_view().take(i as int).filter(pred),
        decreases list.len() - i,
    {
        let ghost before = r;
        let keep = !contains(excluded, &list[i]);
        if keep {
            r.push(list[i].clone());
            proof {
                lemma_deep_push(before, r, list@[i as int]);
            }
        }
        proof {
            list.deep_view().take(i as int).lemma_filter_push(list@[i as int]@, pred);
            assert(list.deep_view().take(i as int).push(list@[i as int]@)
                =~= list.deep_view().take(i + 1));
        }
        i += 1;
    }
    proof {
        assert(list.deep_view().take(list.len() as int) =~= list.deep_view());
    }
    r
}

/// The elements of `list` other than `id`, in their order.
pub fn without_id(list: &Vec<String>, id: &String) -> (r: Vec<String>)
    ensures
        r.deep_view() == without(list.deep_view(), id@),
{
    let mut r: Vec<String> = Vec::new();
    let mut i: usize = 0;
    let ghost pred = other_than(id@);
    proof {
        reveal(Seq::filter);
        assert(list.deep_view().take(0) =~= Seq::<Seq<char>>::empty());
    }
    while i < list.len()
        invariant
            i <= list.len(),
            pred == other_than(id@),
            r.deep_view() == list.deep_view().take(i as int).filter(pred),
        decreases list.len() - i,
    {
        let ghost before = r;
        if list[i] != *id {
            r.push(list[i].clone());
            proof {
                lemma_deep_push(before, r, list@[i as int]);
            }
        }
        proof {
            list.deep_view().take(i as int).lemma_filter_push(list@[i as int]@, pred);
            assert(list.deep_view().take(i as int).push(list@[i as int]@)
                =~= list.deep_view().take(i + 1));
        }
        i += 1;
    }
    proof {
        assert(list.deep_view().take(list.len() as int) =~= list.deep_view());
    }
    r
}

/// Whether no element of `s` comes before one that stands earlier, in the order of the
/// dictionary.
pub open spec fn ascending(s: Seq<Seq<char>>) -> bool {
    forall|i: int, j: int| 0 <= i < j < s.len() ==> !before(#[trigger] s[j], #[trigger] s[i])
}

/// The elements of `list` in the order of the dictionary; equal ones stay as they stood.
pub fn sorted_of(list: &Vec<String>) -> (r: Vec<String>)
    ensures
        ascending(r.deep_view()),
        r.deep_view().to_multiset() == list.deep_view().to_multiset(),
{
    let mut r: Vec<String> = Vec::new();
    let mut i: usize = 0;
    proof {
        assert(list.deep_view().take(0) =~= Seq::<Seq<char>>::empty());
        assert(r.deep_view() =~= Seq::<Seq<char>>::empty());
    }
    while i < list.len()
        invariant
            i <= list.len(),
            ascending(r.deep_view()),
            r.deep_view().to_multiset() == list.deep_view().take(i as int).to_multiset(),
        decreases list.len() - i,
    {
        let item = chars_of(list[i].as_str());
        let ghost x = list@[i as int]@;
        let ghost was = r.deep_view();
        let n = r.len();
        let mut p: usize = 0;
        let mut go = n > 0 && !precedes(&item, &chars_of(r[0].as_str()));
        while go
            invariant
                p <= n,
                n == r.len(),
                was == r.deep_view(),
                item@ == x,
                go == (p < n && !before(x, was[p as int])),
                forall|a: int| 0 <= a < p ==> !before(x, #[trigger] was[a]),
            decreases n - p,
        {
            p += 1;
            go = p < n && !precedes(&item, &chars_of(r[p].as_str()));
        }
        r.insert(p, list[i].clone());
        proof {
            let now = r.deep_view();
            assert(now =~= was.insert(p as int, x));
            assert forall|a: int, b: int| 0 <= a < b < now.len() implies !before(
                #[trigger] now[b],
                #[trigger] now[a],
            ) by {
                let a0 = if a < p { a } else { a - 1 };
                let b0 = if b < p { b } else { b - 1 };
                if a == p {
                    assert(before(x, was[p as int]));
                    if b0 == p {
                        lemma_before_asymmetric(was[p as int], was[p as int], 0);
                    }
                    assert(!before(was[b0], was[p as int]));
                    if before(was[b0], x) {
                        lemma_before_transitive(was[b0], x, was[p as int], 0);
                    }
                } else if b == p {
                    assert(!before(x, was[a0]));
                } else {
                    assert(!before(was[b0], was[a0]));
                }
            }
            broadcast use vstd::seq_lib::group_to_multiset_ensures;
            assert(list.deep_view().take(i as int).push(x) =~= list.deep_view().take(i + 1));
        }
        i += 1;
    }
    proof {
        assert(list.deep_view().take(list.len() as int) =~= list.deep_view());
    }
    r
}

/// `list` with every element kept at its first occurrence only.
pub fn distinct_of(list: &Vec<String>) -> (r: Vec<String>)
    ensures
        r.deep_view() == distinct(list.deep_view()),
{
    let mut r: Vec<String> = Vec::new();
    let mut i: usize = 0;
    proof {
        assert(list.deep_view().take(0) =~= Seq::<Seq<char>>::empty());
    }
    while i < list.len()
        invariant
            i <= list.len(),
            r.deep_view() == distinct(list.deep_view().take(i as int)),
        decreases list.len() - i,
    {
        let ghost before = r;
        let seen = contains(&r, &list[i]);
        if !seen {
            r.push(list[i].clone());
            proof {
                lemma_deep_push(before, r, list@[i as int]);
            }
        }
        proof {
            lemma_distinct_push(list.deep_view().take(i as int), list@[i as int]@);
            assert(list.deep_view().take(i as int).push(list@[i as int]@)
                =~= list.deep_view().take(i + 1));
        }
        i += 1;
    }
    proof {
        assert(list.deep_view().take(list.len() as int) =~= list.deep_view());
    }
    r
}

} // verus!
