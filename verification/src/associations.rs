//! The user's associations between MIME types and handlers, and the commands that change
//! them.

use crate::layer::{covered_by, listed, stripped, stripped_under, Layer};
use crate::lists::{contains, lemma_deep_push};
use crate::mime_types::{keys_of, MimeKey, MimeType};
use crate::resolver::{candidates, candidates_of};
use vstd::prelude::*;

verus! {

/// The user's associations as mathematics: three layers, each a map from MIME types to
/// ordered lists of handler ids.
pub ghost struct Associations {
    /// Handlers added beside the defaults.
    pub added: Map<MimeKey, Seq<Seq<char>>>,
    /// The defaults the user set; the first of a list is the default.
    pub default_apps: Map<MimeKey, Seq<Seq<char>>>,
    /// Handlers that are never to stand for a MIME type.
    pub removed: Map<MimeKey, Seq<Seq<char>>>,
}

/// The test for being a concrete MIME type of the type of `m`.
pub open spec fn concrete_under(m: MimeKey) -> spec_fn(MimeKey) -> bool {
    |k: MimeKey| k.type_ == m.type_ && !k.is_wildcard()
}

/// What the wildcard `m` expands to: the concrete MIME types of its type among the
/// known ones, in their order.
pub open spec fn expansion(m: MimeKey, known: Seq<MimeKey>) -> Seq<MimeKey> {
    known.filter(concrete_under(m))
}

/// Whether no list of the layer names a handler twice.
pub open spec fn each_once(layer: Map<MimeKey, Seq<Seq<char>>>) -> bool {
    forall|k: MimeKey| layer.contains_key(k) ==> (#[trigger] layer[k]).no_duplicates()
}

impl Associations {
    /// Whether no list of any layer names a handler twice.
    pub open spec fn tidy(self) -> bool {
        each_once(self.added) && each_once(self.default_apps) && each_once(self.removed)
    }

    /// Whether the user set or added anything for `m` itself.
    pub open spec fn has_literal(self, m: MimeKey) -> bool {
        self.default_apps.contains_key(m) || self.added.contains_key(m)
    }

    /// `h` becomes the only default for `m`, and is no longer removed for it.
    pub open spec fn set_one(self, m: MimeKey, h: Seq<char>) -> Associations {
        Associations {
            added: self.added,
            default_apps: self.default_apps.insert(m, seq![h]),
            removed: stripped(self.removed, m, h),
        }
    }

    /// `set_one` for each of `targets` in turn.
    pub open spec fn set_each(self, targets: Seq<MimeKey>, h: Seq<char>) -> Associations
        decreases targets.len(),
    {
        if targets.len() == 0 {
            self
        } else {
            self.set_each(targets.drop_last(), h).set_one(targets.last(), h)
        }
    }

    /// The command `set`: `h` becomes the default for `m`; for a wildcard that is to be
    /// expanded, for each known concrete MIME type of its type instead.
    pub open spec fn set(self, m: MimeKey, h: Seq<char>, expand: bool, known: Seq<MimeKey>) -> Associations {
        if expand && m.is_wildcard() {
            self.set_each(expansion(m, known), h)
        } else {
            self.set_one(m, h)
        }
    }

    /// `h` is appended to what was added for `m`, unless it stands for `m` already or
    /// was added for it before.
    pub open spec fn add_one(
        self,
        system: Map<MimeKey, Seq<Seq<char>>>,
        m: MimeKey,
        h: Seq<char>,
    ) -> Associations {
        if candidates(self, system, Seq::empty(), m).contains(h) || listed(self.added, m).contains(
            h,
        ) {
            self
        } else {
            Associations {
                added: self.added.insert(m, listed(self.added, m).push(h)),
                default_apps: self.default_apps,
                removed: self.removed,
            }
        }
    }

    /// `add_one` for each of `targets` in turn.
    pub open spec fn add_each(
        self,
        system: Map<MimeKey, Seq<Seq<char>>>,
        targets: Seq<MimeKey>,
        h: Seq<char>,
    ) -> Associations
        decreases targets.len(),
    {
        if targets.len() == 0 {
            self
        } else {
            self.add_each(system, targets.drop_last(), h).add_one(system, targets.last(), h)
        }
    }

    /// The command `add`: `h` becomes a further handler for `m`; for a wildcard that is
    /// to be expanded, for each known concrete MIME type of its type instead.
    pub open spec fn add(
        self,
        system: Map<MimeKey, Seq<Seq<char>>>,
        m: MimeKey,
        h: Seq<char>,
        expand: bool,
        known: Seq<MimeKey>,
    ) -> Associations {
        if expand && m.is_wildcard() {
            self.add_each(system, expansion(m, known), h)
        } else {
            self.add_one(system, m, h)
        }
    }

    /// The command `unset`: what was set and added for `m` itself goes; where there is
    /// no such entry, what was set and added for the MIME types under `m` goes instead.
    pub open spec fn unset(self, m: MimeKey) -> Associations {
        if self.has_literal(m) {
            Associations {
                added: self.added.remove(m),
                default_apps: self.default_apps.remove(m),
                removed: self.removed,
            }
        } else {
            Associations {
                added: self.added.remove_keys(covered_by(m)),
                default_apps: self.default_apps.remove_keys(covered_by(m)),
                removed: self.removed,
            }
        }
    }

    /// The command `remove`: `h` goes from what was set and added for `m` itself; where
    /// there is no such entry, from what was set and added for the MIME types under `m`
    /// instead. What follows a handler that goes moves up.
    pub open spec fn remove(self, m: MimeKey, h: Seq<char>) -> Associations {
        if self.has_literal(m) {
            Associations {
                added: stripped(self.added, m, h),
                default_apps: stripped(self.default_apps, m, h),
                removed: self.removed,
            }
        } else {
            Associations {
                added: stripped_under(self.added, m, h),
                default_apps: stripped_under(self.default_apps, m, h),
                removed: self.removed,
            }
        }
    }
}

/// The user's associations.
#[derive(Debug)]
pub struct AssociationsFile {
    pub added_associations: Layer,
    pub default_apps: Layer,
    pub removed_associations: Layer,
}

impl View for AssociationsFile {
    type V = Associations;

    open spec fn view(&self) -> Associations {
        Associations {
            added: self.added_associations@,
            default_apps: self.default_apps@,
            removed: self.removed_associations@,
        }
    }
}

/// What the wildcard `mime` expands to: the concrete MIME types of its type among the
/// known ones, in their order.
pub fn expand(mime: &MimeType, known: &Vec<MimeType>) -> (r: Vec<MimeType>)
    ensures
        keys_of(r@) == expansion(mime@, keys_of(known@)),
{
    let mut r: Vec<MimeType> = Vec::new();
    let mut i: usize = 0;
    let ghost pred = concrete_under(mime@);
    proof {
        reveal(Seq::filter);
        assert(keys_of(known@).take(0) =~= Seq::<MimeKey>::empty());
        assert(keys_of(r@) =~= Seq::<MimeKey>::empty());
    }
    while i < known.len()
        invariant
            i <= known.len(),
            pred == concrete_under(mime@),
            keys_of(r@) == keys_of(known@).take(i as int).filter(pred),
        decreases known.len() - i,
    {
        let ghost before = r@;
        if *known[i].type_() == *mime.type_() && !known[i].is_wildcard() {
            r.push(known[i].clone());
            proof {
                assert(keys_of(r@) =~= keys_of(before).push(known@[i as int]@));
            }
        }
        proof {
            keys_of(known@).take(i as int).lemma_filter_push(known@[i as int]@, pred);
            assert(keys_of(known@).take(i as int).push(known@[i as int]@) =~= keys_of(
                known@,
            ).take(i + 1));
        }
        i += 1;
    }
    proof {
        assert(keys_of(known@).take(known.len() as int) =~= keys_of(known@));
    }
    r
}

impl AssociationsFile {
    /// Associations without entries.
    pub fn new() -> (r: AssociationsFile)
        ensures
            r@.added == Map::<MimeKey, Seq<Seq<char>>>::empty(),
            r@.default_apps == Map::<MimeKey, Seq<Seq<char>>>::empty(),
            r@.removed == Map::<MimeKey, Seq<Seq<char>>>::empty(),
    {
        AssociationsFile {
            added_associations: Layer::new(),
            default_apps: Layer::new(),
            removed_associations: Layer::new(),
        }
    }

    /// Whether the user set or added anything for `mime` itself.
    pub fn has_literal(&self, mime: &MimeType) -> (r: bool)
        ensures
            r == self@.has_literal(mime@),
    {
        self.default_apps.contains(mime) || self.added_associations.contains(mime)
    }

    fn set_one(&mut self, mime: &MimeType, handler: &String)
        ensures
            final(self)@ == old(self)@.set_one(mime@, handler@),
    {
        let mut list: Vec<String> = Vec::new();
        list.push(handler.clone());
        proof {
            assert(list.deep_view() =~= seq![handler@]);
        }
        self.default_apps.put(mime.clone(), list);
        self.removed_associations.strip(mime, handler);
    }

    fn add_one(&mut self, system: &Layer, mime: &MimeType, handler: &String)
        ensures
            final(self)@ == old(self)@.add_one(system@, mime@, handler@),
    {
        let none: Vec<String> = Vec::new();
        proof {
            assert(none.deep_view() =~= Seq::<Seq<char>>::empty());
        }
        let chain = candidates_of(self, system, &none, mime);
        if contains(&chain, handler) {
            return ;
        }
        let mut list = self.added_associations.listed(mime);
        if contains(&list, handler) {
            return ;
        }
        let ghost before = list;
        list.push(handler.clone());
        proof {
            lemma_deep_push(before, list, *handler);
        }
        self.added_associations.put(mime.clone(), list);
    }

    /// The command `set`: `handler` becomes the default for `mime`. Where `mime` is a
    /// wildcard and `expand_wildcards` holds, it becomes the default for each concrete
    /// MIME type of that type among `known` instead, and no entry is made for the
    /// wildcard itself.
    pub fn set_handler(
        &mut self,
        mime: &MimeType,
        handler: &String,
        expand_wildcards: bool,
        known: &Vec<MimeType>,
    )
        ensures
            final(self)@ == old(self)@.set(mime@, handler@, expand_wildcards, keys_of(known@)),
    {
        if expand_wildcards && mime.is_wildcard() {
            let targets = expand(mime, known);
            let mut i: usize = 0;
            proof {
                assert(keys_of(targets@).take(0) =~= Seq::<MimeKey>::empty());
            }
            while i < targets.len()
                invariant
                    i <= targets.len(),
                    self@ == old(self)@.set_each(keys_of(targets@).take(i as int), handler@),
                decreases targets.len() - i,
            {
                proof {
                    assert(keys_of(targets@).take(i + 1).drop_last() =~= keys_of(targets@).take(
                        i as int,
                    ));
                }
                self.set_one(&targets[i], handler);
                i += 1;
            }
            proof {
                assert(keys_of(targets@).take(targets.len() as int) =~= keys_of(targets@));
            }
        } else {
            self.set_one(mime, handler);
        }
    }

    /// The command `add`: `handler` becomes a further handler for `mime`, after those it
    /// has, unless it stands for `mime` already. Where `mime` is a wildcard and
    /// `expand_wildcards` holds, the same is done for each concrete MIME type of that
    /// type among `known` instead.
    pub fn add_handler(
        &mut self,
        system: &Layer,
        mime: &MimeType,
        handler: &String,
        expand_wildcards: bool,
        known: &Vec<MimeType>,
    )
        ensures
            final(self)@ == old(self)@.add(
                system@,
                mime@,
                handler@,
                expand_wildcards,
                keys_of(known@),
            ),
    {
        if expand_wildcards && mime.is_wildcard() {
            let targets = expand(mime, known);
            let mut i: usize = 0;
            proof {
                assert(keys_of(targets@).take(0) =~= Seq::<MimeKey>::empty());
            }
            while i < targets.len()
                invariant
                    i <= targets.len(),
                    self@ == old(self)@.add_each(
                        system@,
                        keys_of(targets@).take(i as int),
                        handler@,
                    ),
                decreases targets.len() - i,
            {
                proof {
                    assert(keys_of(targets@).take(i + 1).drop_last() =~= keys_of(targets@).take(
                        i as int,
                    ));
                }
                self.add_one(system, &targets[i], handler);
                i += 1;
            }
            proof {
                assert(keys_of(targets@).take(targets.len() as int) =~= keys_of(targets@));
            }
        } else {
            self.add_one(system, mime, handler);
        }
    }

    /// The command `unset`: what was set and added for `mime` itself goes. Where there
    /// is no such entry, what was set and added for the MIME types under `mime` goes
    /// instead.
    pub fn unset_handler(&mut self, mime: &MimeType)
        ensures
            final(self)@ == old(self)@.unset(mime@),
    {
        if self.has_literal(mime) {
            self.default_apps.delete(mime);
            self.added_associations.delete(mime);
        } else {
            self.default_apps.delete_covered(mime);
            self.added_associations.delete_covered(mime);
        }
    }

    /// The command `remove`: `handler` goes from what was set and added for `mime`
    /// itself. Where there is no such entry, it goes from what was set and added for the
    /// MIME types under `mime` instead.
    pub fn remove_handler(&mut self, mime: &MimeType, handler: &String)
        ensures
            final(self)@ == old(self)@.remove(mime@, handler@),
    {
        if self.has_literal(mime) {
            self.default_apps.strip(mime, handler);
            self.added_associations.strip(mime, handler);
        } else {
            self.default_apps.strip_covered(mime, handler);
            self.added_associations.strip_covered(mime, handler);
        }
    }
}

} // verus!
