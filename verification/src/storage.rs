//! The table's slice of the object store, modelled as immutable manifest and
//! manifest-list objects keyed by path.
//!
//! Objects are never overwritten: `put` fails on an existing path, so a
//! committed snapshot's objects stay reachable while newer ones are added.

use vstd::prelude::*;

use crate::manifest::{ManifestEntry, ManifestEntryView, ManifestListEntry, ManifestListEntryView};
use crate::util::string_eq_str;
use crate::Error;

verus! {

/// The manifest-list and manifest objects written under a table's location.
pub struct TableStorage {
    pub manifest_lists: Vec<(String, Vec<ManifestListEntry>)>,
    pub manifests: Vec<(String, Vec<ManifestEntry>)>,
}

/// Looks a manifest list up by path; the latest object at a path wins
/// (paths are never reused, so at most one exists).
pub open spec fn list_lookup(
    objects: Seq<(Seq<char>, Seq<ManifestListEntryView>)>,
    path: Seq<char>,
) -> Option<Seq<ManifestListEntryView>>
    decreases objects.len(),
{
    if objects.len() == 0 {
        Option::None
    } else if objects.last().0 == path {
        Option::Some(objects.last().1)
    } else {
        list_lookup(objects.drop_last(), path)
    }
}

/// Looks a manifest up by path.
pub open spec fn manifest_lookup(
    objects: Seq<(Seq<char>, Seq<ManifestEntryView>)>,
    path: Seq<char>,
) -> Option<Seq<ManifestEntryView>>
    decreases objects.len(),
{
    if objects.len() == 0 {
        Option::None
    } else if objects.last().0 == path {
        Option::Some(objects.last().1)
    } else {
        manifest_lookup(objects.drop_last(), path)
    }
}

/// The spec-level record of the storage.
#[verifier::ext_equal]
pub struct TableStorageView {
    pub manifest_lists: Seq<(Seq<char>, Seq<ManifestListEntryView>)>,
    pub manifests: Seq<(Seq<char>, Seq<ManifestEntryView>)>,
}

impl View for TableStorage {
    type V = TableStorageView;

    open spec fn view(&self) -> TableStorageView {
        TableStorageView {
            manifest_lists: self.manifest_lists@.map_values(
                |p: (String, Vec<ManifestListEntry>)|
                    (p.0@, crate::manifest::mles_view(p.1@)),
            ),
            manifests: self.manifests@.map_values(
                |p: (String, Vec<ManifestEntry>)| (p.0@, crate::manifest::entries_view(p.1@)),
            ),
        }
    }
}

impl TableStorageView {
    /// Every object of `self` is present, unchanged, in `other`.
    pub open spec fn le(&self, other: &TableStorageView) -> bool {
        &&& forall|p: Seq<char>|
            (#[trigger] list_lookup(self.manifest_lists, p)) is Some ==> list_lookup(
                other.manifest_lists,
                p,
            ) == list_lookup(self.manifest_lists, p)
        &&& forall|p: Seq<char>|
            (#[trigger] manifest_lookup(self.manifests, p)) is Some ==> manifest_lookup(
                other.manifests,
                p,
            ) == manifest_lookup(self.manifests, p)
    }
}

/// Store growth is transitive.
pub proof fn lemma_le_trans(a: TableStorageView, b: TableStorageView, c: TableStorageView)
    requires
        a.le(&b),
        b.le(&c),
    ensures
        a.le(&c),
{
    assert forall|p: Seq<char>| (#[trigger] list_lookup(a.manifest_lists, p)) is Some
        implies list_lookup(c.manifest_lists, p) == list_lookup(a.manifest_lists, p) by {
        assert(list_lookup(b.manifest_lists, p) == list_lookup(a.manifest_lists, p));
    }
    assert forall|p: Seq<char>| (#[trigger] manifest_lookup(a.manifests, p)) is Some
        implies manifest_lookup(c.manifests, p) == manifest_lookup(a.manifests, p) by {
        assert(manifest_lookup(b.manifests, p) == manifest_lookup(a.manifests, p));
    }
}

impl TableStorage {
    /// An empty store.
    pub fn new() -> (r: TableStorage)
        ensures
            r@.manifest_lists =~= Seq::<(Seq<char>, Seq<ManifestListEntryView>)>::empty(),
            r@.manifests =~= Seq::<(Seq<char>, Seq<ManifestEntryView>)>::empty(),
    {
        TableStorage { manifest_lists: Vec::new(), manifests: Vec::new() }
    }

    /// Finds the manifest list stored at `path`.
    pub fn get_manifest_list(&self, path: &str) -> (r: Option<&Vec<ManifestListEntry>>)
        ensures
            match r {
                Option::Some(l) => list_lookup(self@.manifest_lists, path@) == Option::Some(
                    crate::manifest::mles_view(l@),
                ),
                Option::None => list_lookup(self@.manifest_lists, path@) is None,
            },
    {
        let mut i: usize = self.manifest_lists.len();
        proof {
            assert(self@.manifest_lists.take(i as int) =~= self@.manifest_lists);
        }
        while i > 0
            invariant
                i <= self.manifest_lists@.len(),
                list_lookup(self@.manifest_lists, path@) == list_lookup(
                    self@.manifest_lists.take(i as int),
                    path@,
                ),
            decreases i,
        {
            proof {
                assert(self@.manifest_lists.take(i as int).last() == self@.manifest_lists[i - 1]);
                assert(self@.manifest_lists.take(i as int).drop_last()
                    =~= self@.manifest_lists.take(i as int - 1));
            }
            if string_eq_str(&self.manifest_lists[i - 1].0, path) {
                return Option::Some(&self.manifest_lists[i - 1].1);
            }
            i = i - 1;
        }
        proof {
            assert(self@.manifest_lists.take(0) =~= Seq::<
                (Seq<char>, Seq<ManifestListEntryView>),
            >::empty());
        }
        Option::None
    }

    /// Finds the manifest stored at `path`.
    pub fn get_manifest(&self, path: &str) -> (r: Option<&Vec<ManifestEntry>>)
        ensures
            match r {
                Option::Some(l) => manifest_lookup(self@.manifests, path@) == Option::Some(
                    crate::manifest::entries_view(l@),
                ),
                Option::None => manifest_lookup(self@.manifests, path@) is None,
            },
    {
        let mut i: usize = self.manifests.len();
        proof {
            assert(self@.manifests.take(i as int) =~= self@.manifests);
        }
        while i > 0
            invariant
                i <= self.manifests@.len(),
                manifest_lookup(self@.manifests, path@) == manifest_lookup(
                    self@.manifests.take(i as int),
                    path@,
                ),
            decreases i,
        {
            proof {
                assert(self@.manifests.take(i as int).last() == self@.manifests[i - 1]);
                assert(self@.manifests.take(i as int).drop_last() =~= self@.manifests.take(
                    i as int - 1,
                ));
            }
            if string_eq_str(&self.manifests[i - 1].0, path) {
                return Option::Some(&self.manifests[i - 1].1);
            }
            i = i - 1;
        }
        proof {
            assert(self@.manifests.take(0) =~= Seq::<(Seq<char>, Seq<ManifestEntryView>)>::empty());
        }
        Option::None
    }

    /// Stores a manifest list at `path`. Objects are immutable: a path that
    /// is already taken is refused.
    pub fn put_manifest_list(&mut self, path: String, list: Vec<ManifestListEntry>) -> (r: Result<
        (),
        Error,
    >)
        ensures
            match r {
                Result::Ok(()) => {
                    &&& list_lookup(old(self)@.manifest_lists, path@) is None
                    &&& list_lookup(final(self)@.manifest_lists, path@) == Option::Some(
                        crate::manifest::mles_view(list@),
                    )
                    &&& forall|p: Seq<char>|
                        p != path@ ==> #[trigger] list_lookup(final(self)@.manifest_lists, p)
                            == list_lookup(old(self)@.manifest_lists, p)
                    &&& final(self)@.manifests == old(self)@.manifests
                    &&& old(self)@.le(&final(self)@)
                },
                Result::Err(e) => {
                    &&& list_lookup(old(self)@.manifest_lists, path@) is Some
                    &&& e is IO
                    &&& final(self)@ == old(self)@
                },
            },
    {
        if self.get_manifest_list(path.as_str()).is_some() {
            return Result::Err(Error::IO(String::from_str("object path already exists")));
        }
        let ghost prior = self@;
        self.manifest_lists.push((path, list));
        proof {
            assert(final(self)@.manifest_lists.drop_last() =~= prior.manifest_lists);
            assert(final(self)@.manifests =~= prior.manifests);
        }
        Result::Ok(())
    }

    /// Stores a manifest at `path`. Objects are immutable: a path that is
    /// already taken is refused.
    pub fn put_manifest(&mut self, path: String, entries: Vec<ManifestEntry>) -> (r: Result<
        (),
        Error,
    >)
        ensures
            match r {
                Result::Ok(()) => {
                    &&& manifest_lookup(old(self)@.manifests, path@) is None
                    &&& manifest_lookup(final(self)@.manifests, path@) == Option::Some(
                        crate::manifest::entries_view(entries@),
                    )
                    &&& forall|p: Seq<char>|
                        p != path@ ==> #[trigger] manifest_lookup(final(self)@.manifests, p)
                            == manifest_lookup(old(self)@.manifests, p)
                    &&& final(self)@.manifest_lists == old(self)@.manifest_lists
                    &&& old(self)@.le(&final(self)@)
                },
                Result::Err(e) => {
                    &&& manifest_lookup(old(self)@.manifests, path@) is Some
                    &&& e is IO
                    &&& final(self)@ == old(self)@
                },
            },
    {
        if self.get_manifest(path.as_str()).is_some() {
            return Result::Err(Error::IO(String::from_str("object path already exists")));
        }
        let ghost prior = self@;
        self.manifests.push((path, entries));
        proof {
            assert(final(self)@.manifests.drop_last() =~= prior.manifests);
            assert(final(self)@.manifest_lists =~= prior.manifest_lists);
        }
        Result::Ok(())
    }
}

} // verus!
