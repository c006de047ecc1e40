//! The environment's file cache: each logical path is loaded at most once,
//! and entries are only ever appended.
use vstd::prelude::*;

use crate::archive_path::{spec_archive_parts, ArchivePath};
use crate::index::{owner_of, AddressablesIndex};

verus! {

/// Where the bytes of a logical path come from.
pub enum LoadPlan {
    /// The file is cached at this place.
    Cached(usize),
    /// Read entry `entry` of the bundle file `bundle_file`.
    ReadArchive { bundle_file: String, entry: String },
    /// Read the path from the game's files.
    ReadLoose(String),
    /// The path names an archive whose bundle no bundle file holds.
    MissingBundle(String),
}

pub ghost enum LoadPlanView {
    Cached(int),
    ReadArchive(Seq<char>, Seq<char>),
    ReadLoose(Seq<char>),
    MissingBundle(Seq<char>),
}

impl View for LoadPlan {
    type V = LoadPlanView;

    open spec fn view(&self) -> LoadPlanView {
        match self {
            LoadPlan::Cached(i) => LoadPlanView::Cached(*i as int),
            LoadPlan::ReadArchive { bundle_file, entry } => LoadPlanView::ReadArchive(bundle_file@, entry@),
            LoadPlan::ReadLoose(p) => LoadPlanView::ReadLoose(p@),
            LoadPlan::MissingBundle(b) => LoadPlanView::MissingBundle(b@),
        }
    }
}

/// How a path is loaded given the cached paths `keys` and the index `cab`:
/// from the cache when it is there; else, for `archive:/<bundle>/<file>`,
/// from the bundle file that holds `<bundle>`; else from the game's files.
pub open spec fn spec_plan(keys: Seq<Seq<char>>, cab: Seq<(Seq<char>, Seq<char>)>, path: Seq<char>) -> LoadPlanView {
    match keys.index_of_first(path) {
        Some(i) => LoadPlanView::Cached(i),
        None => match spec_archive_parts(path) {
            Some((bundle, file)) => match owner_of(cab, bundle) {
                Some(b) => LoadPlanView::ReadArchive(b, file),
                None => LoadPlanView::MissingBundle(bundle),
            },
            None => LoadPlanView::ReadLoose(path),
        },
    }
}

/// The cached paths after inserting `path`, and the place it is cached at.
pub open spec fn spec_insert(keys: Seq<Seq<char>>, path: Seq<char>) -> (Seq<Seq<char>>, int) {
    match keys.index_of_first(path) {
        Some(i) => (keys, i),
        None => (keys.push(path), keys.len() as int),
    }
}

/// Loading a path twice: once the first load has cached it, the second
/// is served from the same place and neither reads anything nor changes
/// the cache.
pub proof fn lemma_load_idempotent(keys: Seq<Seq<char>>, cab: Seq<(Seq<char>, Seq<char>)>, path: Seq<char>)
    ensures
        spec_plan(spec_insert(keys, path).0, cab, path) == LoadPlanView::Cached(spec_insert(keys, path).1),
        spec_insert(spec_insert(keys, path).0, path) == spec_insert(keys, path),
{
    keys.index_of_first_ensures(path);
    let (k2, i) = spec_insert(keys, path);
    k2.index_of_first_ensures(path);
    if keys.index_of_first(path) is None {
        assert(k2[keys.len() as int] == path);
        let j = k2.index_of_first(path).unwrap();
        if j < keys.len() {
            assert(keys[j] == k2[j]);
            assert(keys.contains(path));
        }
    }
}

/// Loaded files by logical path. A path is inserted at most once, and an
/// entry, once there, keeps its place and its value.
pub struct FileCache<T> {
    entries: Vec<(String, T)>,
}

impl<T> FileCache<T> {
    /// The cached paths, in the order they were inserted.
    pub closed spec fn keys(&self) -> Seq<Seq<char>> {
        self.entries@.map_values(|e: (String, T)| e.0@)
    }

    /// The value cached at place `i`.
    pub closed spec fn value(&self, i: int) -> T {
        self.entries@[i].1
    }

    pub fn new() -> (r: FileCache<T>)
        ensures
            r.keys().len() == 0,
    {
        FileCache { entries: Vec::new() }
    }

    /// The number of cached files.
    pub fn len(&self) -> (r: usize)
        ensures
            r == self.keys().len(),
    {
        self.entries.len()
    }

    /// The place where `path` is cached.
    pub fn lookup(&self, path: &String) -> (r: Option<usize>)
        ensures
            r matches Some(i) ==> self.keys().index_of_first(path@) == Some(i as int),
            r is None ==> self.keys().index_of_first(path@) is None,
    {
        let ghost keys = self.keys();
        let mut i: usize = 0;
        while i < self.entries.len()
            invariant
                i <= self.entries@.len(),
                keys == self.keys(),
                keys.len() == self.entries@.len(),
                forall|j: int| 0 <= j < i ==> keys[j] != path@,
            decreases self.entries@.len() - i,
        {
            if self.entries[i].0 == *path {
                proof {
                    keys.index_of_first_ensures(path@);
                    assert(keys[i as int] == path@);
                    let x = keys.index_of_first(path@).unwrap();
                    if x < i {
                        assert(keys[x] != path@);
                    } else if x > i {
                        assert(keys[i as int] == path@);
                    }
                }
                return Some(i);
            }
            proof {
                assert(keys[i as int] == self.entries@[i as int].0@);
            }
            i = i + 1;
        }
        proof {
            keys.index_of_first_ensures(path@);
            if keys.contains(path@) {
                let w = choose|w: int| 0 <= w < keys.len() && keys[w] == path@;
                assert(keys[w] != path@);
            }
        }
        None
    }

    /// The value cached at place `i`.
    pub fn get(&self, i: usize) -> (r: &T)
        requires
            i < self.keys().len(),
        ensures
            *r == self.value(i as int),
    {
        &self.entries[i].1
    }

    /// Inserts `value` under `path` unless `path` is cached already; returns
    /// the place `path` is cached at. Existing entries never change.
    pub fn insert(&mut self, path: String, value: T) -> (r: usize)
        ensures
            (final(self).keys(), r as int) == spec_insert(old(self).keys(), path@),
            forall|i: int| 0 <= i < old(self).keys().len() ==> final(self).value(i) == old(self).value(i),
            old(self).keys().index_of_first(path@) is None ==> final(self).value(r as int) == value,
    {
        match self.lookup(&path) {
            Some(i) => i,
            None => {
                let i = self.entries.len();
                self.entries.push((path, value));
                proof {
                    assert(self.keys() =~= old(self).keys().push(path@));
                }
                i
            },
        }
    }

    /// Decides how to load `path`: from the cache, from an archive entry
    /// located through `index`, or from the game's files.
    pub fn plan_load(&self, index: &AddressablesIndex, path: &String) -> (r: LoadPlan)
        ensures
            r@ == spec_plan(self.keys(), index.cab_view(), path@),
    {
        match self.lookup(path) {
            Some(i) => LoadPlan::Cached(i),
            None => match ArchivePath::try_parse(path.as_str()) {
                Some(a) => match index.bundle_of(&a.bundle) {
                    Some(b) => LoadPlan::ReadArchive { bundle_file: b.clone(), entry: a.file },
                    None => LoadPlan::MissingBundle(a.bundle),
                },
                None => LoadPlan::ReadLoose(path.clone()),
            },
        }
    }
}

} // verus!
