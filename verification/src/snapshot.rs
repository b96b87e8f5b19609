//! Snapshots: the files a directory held at one instant, each with the time
//! of its last modification.

use vstd::hash_map::StringHashMap;
use vstd::prelude::*;

verus! {

/// A modification time, in nanoseconds since the Unix epoch; negative for an
/// instant before it. Later instants are greater.
pub type Timestamp = i128;

/// What a snapshot holds, as mathematics: a mapping from path to modification
/// time, and the order in which the snapshot walks its paths.
pub struct SnapshotModel {
    /// The last-known modification time of each file.
    pub times: Map<Seq<char>, Timestamp>,
    /// The paths, in the order of their first insertion.
    pub order: Seq<Seq<char>>,
}

impl SnapshotModel {
    /// The snapshot of a directory without files.
    pub open spec fn empty() -> Self {
        SnapshotModel { times: Map::empty(), order: Seq::empty() }
    }

    /// Whether the snapshot holds `path`.
    pub open spec fn contains(self, path: Seq<char>) -> bool {
        self.times.contains_key(path)
    }

    /// The modification time recorded for `path`, if the snapshot holds it.
    pub open spec fn get(self, path: Seq<char>) -> Option<Timestamp> {
        if self.contains(path) {
            Some(self.times[path])
        } else {
            None
        }
    }

    /// The snapshot with `path` recorded at `modified`. A path that is already
    /// there keeps its place in the order and takes the new time; a new one
    /// goes to the end.
    pub open spec fn insert(self, path: Seq<char>, modified: Timestamp) -> Self {
        SnapshotModel {
            times: self.times.insert(path, modified),
            order: if self.contains(path) {
                self.order
            } else {
                self.order.push(path)
            },
        }
    }

    /// The order lists exactly the paths of the mapping, each once.
    pub open spec fn wf(self) -> bool {
        &&& self.order.no_duplicates()
        &&& forall|path: Seq<char>| self.times.contains_key(path) <==> self.order.contains(path)
    }

    /// Recording a file keeps a snapshot well-formed.
    pub proof fn lemma_insert_wf(self, path: Seq<char>, modified: Timestamp)
        requires
            self.wf(),
        ensures
            self.insert(path, modified).wf(),
    {
        let after = self.insert(path, modified);
        if self.contains(path) {
            assert(self.order.contains(path));
        } else {
            let end = self.order.len() as int;
            assert forall|p: Seq<char>| after.times.contains_key(p) <==> after.order.contains(
                p,
            ) by {
                if p == path {
                    assert(after.order[end] == p);
                } else if self.order.contains(p) {
                    let i = choose|i: int| 0 <= i < end && self.order[i] == p;
                    assert(after.order[i] == p);
                } else if after.order.contains(p) {
                    let i = choose|i: int| 0 <= i <= end && after.order[i] == p;
                    assert(self.order[i] == p);
                }
            }
            assert forall|i: int, j: int| 0 <= i < j <= end implies after.order[i]
                != after.order[j] by {
                if j == end {
                    assert(self.order.contains(self.order[i]));
                }
            }
        }
    }

    /// A well-formed snapshot lists as many paths as its mapping holds.
    pub proof fn lemma_len(self)
        requires
            self.wf(),
        ensures
            self.times.dom().finite(),
            self.times.dom().len() == self.order.len(),
    {
        self.order.unique_seq_to_set();
        assert(self.order.to_set() =~= self.times.dom());
    }
}

/// The regular files of a directory at one instant, each with the time of its
/// last modification.
///
/// A snapshot walks its files in the order in which they were first inserted.
pub struct Snapshot {
    /// The files in insertion order, no path twice.
    entries: Vec<(String, Timestamp)>,
    /// For each path, its position in `entries`.
    index: StringHashMap<usize>,
}

impl View for Snapshot {
    type V = SnapshotModel;

    closed spec fn view(&self) -> SnapshotModel {
        SnapshotModel {
            times: Map::new(
                |path: Seq<char>| self.index@.contains_key(path),
                |path: Seq<char>| self.entries@[self.index@[path] as int].1,
            ),
            order: self.entries@.map_values(|entry: (String, Timestamp)| entry.0@),
        }
    }
}

impl Snapshot {
    /// The index finds every entry, and finds nothing else.
    #[verifier::type_invariant]
    pub closed spec fn consistent(&self) -> bool {
        &&& forall|i: int|
            0 <= i < self.entries@.len() ==> {
                let path = (#[trigger] self.entries@[i]).0@;
                self.index@.contains_key(path) && self.index@[path] == i
            }
        &&& forall|path: Seq<char>| #[trigger]
            self.index@.contains_key(path) ==> {
                let i = self.index@[path];
                i < self.entries@.len() && self.entries@[i as int].0@ == path
            }
    }

    /// The model of a consistent snapshot is well-formed.
    pub proof fn lemma_view_wf(&self)
        requires
            self.consistent(),
        ensures
            self@.wf(),
    {
        let model = self@;
        assert forall|path: Seq<char>| model.times.contains_key(path) implies model.order.contains(
            path,
        ) by {
            assert(model.order[self.index@[path] as int] == path);
        }
    }

    /// A snapshot without files.
    pub fn new() -> (snapshot: Self)
        ensures
            snapshot@ == SnapshotModel::empty(),
            snapshot@.wf(),
    {
        let snapshot = Snapshot { entries: Vec::new(), index: StringHashMap::new() };
        assert(snapshot@.times =~= Map::empty());
        assert(snapshot@.order =~= Seq::empty());
        snapshot
    }

    /// The number of files in the snapshot.
    pub fn len(&self) -> (count: usize)
        ensures
            count == self@.order.len(),
            count == self@.times.dom().len(),
            self@.wf(),
    {
        proof {
            use_type_invariant(self);
            self.lemma_view_wf();
            self@.lemma_len();
        }
        self.entries.len()
    }

    /// Whether the snapshot holds no file.
    pub fn is_empty(&self) -> (empty: bool)
        ensures
            empty <==> self@.order.len() == 0,
            empty <==> forall|path: Seq<char>| !self@.contains(path),
            self@.wf(),
    {
        proof {
            use_type_invariant(self);
            self.lemma_view_wf();
            if self@.order.len() > 0 {
                assert(self@.contains(self@.order[0]));
            }
        }
        self.entries.len() == 0
    }

    /// Whether the snapshot holds `path`.
    pub fn contains_key(&self, path: &str) -> (found: bool)
        ensures
            found == self@.contains(path@),
            self@.wf(),
    {
        proof {
            use_type_invariant(self);
            self.lemma_view_wf();
        }
        self.index.contains_key(path)
    }

    /// The modification time recorded for `path`, if the snapshot holds it.
    pub fn get(&self, path: &str) -> (modified: Option<Timestamp>)
        ensures
            modified == self@.get(path@),
            self@.wf(),
    {
        proof {
            use_type_invariant(self);
            self.lemma_view_wf();
        }
        match self.index.get(path) {
            Some(position) => Some(self.entries[*position].1),
            None => None,
        }
    }

    /// The file at `position` in the order in which the snapshot walks its
    /// files, with its modification time; `None` from the snapshot's length on.
    pub fn entry(&self, position: usize) -> (entry: Option<(&str, Timestamp)>)
        ensures
            position < self@.order.len() <==> entry is Some,
            entry matches Some(found) ==> {
                &&& found.0@ == self@.order[position as int]
                &&& self@.get(found.0@) == Some(found.1)
            },
            self@.wf(),
    {
        proof {
            use_type_invariant(self);
            self.lemma_view_wf();
        }
        if position < self.entries.len() {
            let found = &self.entries[position];
            Some((found.0.as_str(), found.1))
        } else {
            None
        }
    }

    /// Records `path` as last modified at `modified`, and returns the time
    /// that was recorded for it before, if any. A path that the snapshot
    /// already holds keeps its place in the order.
    pub fn insert(&mut self, path: String, modified: Timestamp) -> (previous: Option<Timestamp>)
        ensures
            final(self)@ == old(self)@.insert(path@, modified),
            previous == old(self)@.get(path@),
            final(self)@.wf(),
    {
        proof {
            use_type_invariant(&*self);
            self.lemma_view_wf();
            self@.lemma_insert_wf(path@, modified);
        }
        let ghost before = self@;
        let mut taken = Snapshot::new();
        core::mem::swap(self, &mut taken);
        let Snapshot { mut entries, mut index } = taken;
        let position: Option<usize> = match index.get(path.as_str()) {
            Some(position) => Some(*position),
            None => None,
        };
        let previous: Option<Timestamp> = match position {
            Some(position) => {
                let previous: Timestamp = entries[position].1;
                entries.set(position, (path, modified));
                Some(previous)
            },
            None => {
                let position: usize = entries.len();
                index.insert(path.clone(), position);
                entries.push((path, modified));
                None
            },
        };
        *self = Snapshot { entries, index };
        assert(self@.times =~= before.insert(path@, modified).times);
        assert(self@.order =~= before.insert(path@, modified).order);
        previous
    }
}

} // verus!
