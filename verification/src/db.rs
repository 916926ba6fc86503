//! The MIME types and file extensions that are known without asking the system.

use vstd::prelude::*;

verus! {

/// The media type at place `i` of the table `TYPES` of the `mime-db` crate; None where
/// the table has no such place.
pub uninterp spec fn type_at(i: int) -> Option<Seq<char>>;

/// The file extension, without a dot, at place `i` of the table `EXTENSIONS` of the
/// `mime-db` crate; None where the table has no such place.
pub uninterp spec fn extension_at(i: int) -> Option<Seq<char>>;

/// Reads the name of the media type at place `i` of the table `TYPES` of the `mime-db`
/// crate. Trusted: the outcome is `type_at` of the place.
#[verifier::external_body]
fn listed_type(i: usize) -> (r: Option<String>)
    ensures
        match r {
            Some(name) => type_at(i as int) == Some(name@),
            None => type_at(i as int) is None,
        },
{
    match mime_db::TYPES.get(i) {
        Some(row) => Some(row.0.to_owned()),
        None => None,
    }
}

/// Reads the file extension at place `i` of the table `EXTENSIONS` of the `mime-db`
/// crate. Trusted: the outcome is `extension_at` of the place.
#[verifier::external_body]
fn listed_extension(i: usize) -> (r: Option<String>)
    ensures
        match r {
            Some(ext) => extension_at(i as int) == Some(ext@),
            None => extension_at(i as int) is None,
        },
{
    match mime_db::EXTENSIONS.get(i) {
        Some(row) => Some(row.0.to_owned()),
        None => None,
    }
}

/// The table of media types, place by place.
pub open spec fn type_table() -> spec_fn(int) -> Option<Seq<char>> {
    |i: int| type_at(i)
}

/// The table of file extensions, place by place.
pub open spec fn extension_table() -> spec_fn(int) -> Option<Seq<char>> {
    |i: int| extension_at(i)
}

/// Whether a table ends at `n`: every place before it holds an entry, and it holds none.
pub open spec fn ends_at(table: spec_fn(int) -> Option<Seq<char>>, n: int) -> bool {
    &&& n >= 0
    &&& table(n) is None
    &&& forall|i: int| 0 <= i < n ==> (#[trigger] table(i)) is Some
}

/// How many entries a table holds before its first empty place.
pub open spec fn count(table: spec_fn(int) -> Option<Seq<char>>) -> int {
    choose|n: int| ends_at(table, n)
}

/// A table ends at one place only.
pub proof fn lemma_count(table: spec_fn(int) -> Option<Seq<char>>, n: int)
    requires
        ends_at(table, n),
    ensures
        count(table) == n,
{
    let m = count(table);
    assert(ends_at(table, m));
    if m < n {
        assert(table(m) is Some);
    }
    if n < m {
        assert(table(n) is Some);
    }
}

/// MIME types that handlers are registered for and that no table of media types lists.
pub open spec fn custom_mimes() -> Seq<Seq<char>> {
    seq![
        "inode/directory"@,
        "x-scheme-handler/http"@,
        "x-scheme-handler/https"@,
        "x-scheme-handler/terminal"@,
    ]
}

/// The media types of the table, in the table's order.
pub open spec fn table_types() -> Seq<Seq<char>> {
    Seq::new(count(type_table()) as nat, |i: int| type_at(i)->Some_0)
}

/// The texts of the known MIME types: the custom ones, then those of the table.
pub open spec fn known_types() -> Seq<Seq<char>> {
    custom_mimes() + table_types()
}

/// The file extensions of the table, each with a dot before it, in the table's order.
pub open spec fn known_extensions() -> Seq<Seq<char>> {
    Seq::new(count(extension_table()) as nat, |i: int| seq!['.'] + extension_at(i)->Some_0)
}

/// The texts of the known MIME types: the custom ones, then those of the table, in the
/// table's order.
pub fn mime_types() -> (r: Vec<String>)
    ensures
        r.deep_view() == known_types(),
{
    let mut r: Vec<String> = Vec::new();
    r.push("inode/directory".to_owned());
    r.push("x-scheme-handler/http".to_owned());
    r.push("x-scheme-handler/https".to_owned());
    r.push("x-scheme-handler/terminal".to_owned());
    proof {
        assert(r.deep_view() =~= custom_mimes());
    }
    let mut i: usize = 0;
    let mut next = listed_type(0);
    while next.is_some()
        invariant
            r@.len() == 4 + i,
            next matches Some(name) ==> type_at(i as int) == Some(name@),
            next is None ==> type_at(i as int) is None,
            forall|j: int| 0 <= j < 4 ==> (#[trigger] r@[j])@ == custom_mimes()[j],
            forall|j: int|
                0 <= j < i ==> (#[trigger] type_at(j)) is Some && r@[4 + j]@ == type_at(j)->Some_0,
        decreases usize::MAX - i,
    {
        let name = next.unwrap();
        let ghost before = r@;
        r.push(name);
        proof {
            assert(r.len() == before.len() + 1);
            assert forall|j: int| 0 <= j < 4 implies (#[trigger] r@[j])@ == custom_mimes()[j] by {
                assert(r@[j] == before[j]);
            }
            assert forall|j: int| 0 <= j < i + 1 implies (#[trigger] type_at(j)) is Some && r@[4
                + j]@ == type_at(j)->Some_0 by {
                if j < i {
                    assert(r@[4 + j] == before[4 + j]);
                }
            }
        }
        i += 1;
        next = listed_type(i);
    }
    proof {
        let table = type_table();
        assert forall|j: int| 0 <= j < i implies (#[trigger] table(j)) is Some by {
            assert(type_at(j) is Some);
        }
        assert(table(i as int) == type_at(i as int));
        assert(ends_at(table, i as int));
        lemma_count(table, i as int);
        assert forall|j: int| 0 <= j < r.deep_view().len() implies r.deep_view()[j]
            == known_types()[j] by {
            if j >= 4 {
                assert(type_at(j - 4) is Some);
                assert(r@[4 + (j - 4)]@ == type_at(j - 4)->Some_0);
            }
        }
        assert(r.deep_view() =~= known_types());
    }
    r
}

/// The file extensions that are known, each with its dot, in the table's order.
pub fn extensions() -> (r: Vec<String>)
    ensures
        r.deep_view() == known_extensions(),
{
    let mut r: Vec<String> = Vec::new();
    let mut next = listed_extension(0);
    while next.is_some()
        invariant
            next matches Some(ext) ==> extension_at(r@.len() as int) == Some(ext@),
            next is None ==> extension_at(r@.len() as int) is None,
            forall|j: int|
                0 <= j < r@.len() ==> (#[trigger] extension_at(j)) is Some && r@[j]@ == seq!['.']
                    + extension_at(j)->Some_0,
        decreases usize::MAX - r@.len(),
    {
        let ext = next.unwrap();
        let mut dotted = String::new();
        dotted.push('.');
        dotted.append(ext.as_str());
        let ghost before = r@;
        r.push(dotted);
        proof {
            assert(Seq::<char>::empty().push('.') =~= seq!['.']);
            assert(r.len() == before.len() + 1);
            assert forall|j: int| 0 <= j < r@.len() implies (#[trigger] extension_at(j)) is Some
                && r@[j]@ == seq!['.'] + extension_at(j)->Some_0 by {
                if j < before.len() {
                    assert(r@[j] == before[j]);
                }
            }
        }
        next = listed_extension(r.len());
    }
    proof {
        let table = extension_table();
        let n = r@.len() as int;
        assert forall|j: int| 0 <= j < n implies (#[trigger] table(j)) is Some by {
            assert(extension_at(j) is Some);
        }
        assert(table(n) == extension_at(n));
        assert(ends_at(table, n));
        lemma_count(table, n);
        assert forall|j: int| 0 <= j < n implies r.deep_view()[j] == known_extensions()[j] by {
            assert(extension_at(j) is Some);
        }
        assert(r.deep_view() =~= known_extensions());
    }
    r
}

} // verus!
