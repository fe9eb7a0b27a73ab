use vstd::prelude::*;
use crate::ids::now_unix;
use crate::strutil::str_eq;
use crate::types::{InstalledPackage, PackageName, Version};

verus! {

/// Aggregate metadata of the state store. It is a cache: the package count
/// is always re-derivable from the package list, and the well-formedness
/// invariant [`GlobalState::wf`] pins it to the list's length.
#[derive(Debug, Clone)]
pub struct StateMetadata {
    pub total_packages: usize,
    pub total_size_bytes: u64,
    pub last_cleanup: Option<i64>,
    pub corrupted_packages: Vec<String>,
}

/// The durable registry of installed packages. Records are keyed by package
/// name; the list holds at most one record per name.
#[derive(Debug, Clone)]
pub struct GlobalState {
    pub version: String,
    pub last_updated: i64,
    pub installed_packages: Vec<InstalledPackage>,
    pub pending_operations: Vec<String>,
    pub metadata: StateMetadata,
}

/// The first record with the given name, if any.
pub open spec fn seq_find(s: Seq<InstalledPackage>, name: Seq<char>) -> Option<InstalledPackage>
    decreases s.len(),
{
    if s.len() == 0 {
        None
    } else if s[0].name@ == name {
        Some(s[0])
    } else {
        seq_find(s.drop_first(), name)
    }
}

/// No two records share a name.
pub open spec fn names_unique(s: Seq<InstalledPackage>) -> bool {
    forall|i: int, j: int| 0 <= i < j < s.len() ==> s[i].name@ != s[j].name@
}

pub proof fn lemma_seq_find(s: Seq<InstalledPackage>, name: Seq<char>)
    ensures
        (seq_find(s, name) is Some) <==> (exists|i: int|
            0 <= i < s.len() && #[trigger] s[i].name@ == name),
        seq_find(s, name) matches Some(p) ==> p.name@ == name && (exists|i: int|
            0 <= i < s.len() && #[trigger] s[i] == p),
        names_unique(s) ==> (forall|i: int|
            0 <= i < s.len() && #[trigger] s[i].name@ == name ==> seq_find(s, name) == Some(
                s[i],
            )),
    decreases s.len(),
{
    if s.len() > 0 {
        let t = s.drop_first();
        lemma_seq_find(t, name);
        assert(forall|j: int| 1 <= j < s.len() ==> #[trigger] s[j] == t[j - 1]);
        if names_unique(s) {
            assert(names_unique(t)) by {
                assert(forall|i: int, j: int|
                    0 <= i < j < t.len() ==> #[trigger] t[i].name@ != #[trigger] t[j].name@);
            }
        }
    }
}

impl GlobalState {
    /// The record registered under `name`, if any.
    pub open spec fn spec_get(self, name: Seq<char>) -> Option<InstalledPackage> {
        seq_find(self.installed_packages@, name)
    }

    /// Whether exactly this name and version is registered.
    pub open spec fn spec_has_package(self, name: Seq<char>, v: Version) -> bool {
        match self.spec_get(name) {
            Some(p) => p.version.spec_eq(v),
            None => false,
        }
    }

    /// Well-formedness: names are unique and the cached package count equals
    /// the number of records.
    pub open spec fn wf(self) -> bool {
        &&& names_unique(self.installed_packages@)
        &&& self.metadata.total_packages == self.installed_packages@.len()
    }

    /// A fresh, empty state store document.
    pub fn new() -> (r: Self)
        ensures
            r.wf(),
            r.installed_packages@.len() == 0,
            r.pending_operations@.len() == 0,
            r.metadata.total_packages == 0,
            r.metadata.total_size_bytes == 0,
            r.metadata.last_cleanup is None,
            r.metadata.corrupted_packages@.len() == 0,
            r.version@ == "1.0.0"@,
    {
        GlobalState {
            version: "1.0.0".to_owned(),
            last_updated: now_unix(),
            installed_packages: Vec::new(),
            pending_operations: Vec::new(),
            metadata: StateMetadata {
                total_packages: 0,
                total_size_bytes: 0,
                last_cleanup: None,
                corrupted_packages: Vec::new(),
            },
        }
    }

    /// Index of the record named `name`, if one exists.
    fn find_index(&self, name: &PackageName) -> (r: Option<usize>)
        ensures
            match r {
                Some(i) => i < self.installed_packages@.len()
                    && self.installed_packages@[i as int].name@ == name@ && (forall|j: int|
                    0 <= j < i ==> #[trigger] self.installed_packages@[j].name@ != name@),
                None => forall|j: int|
                    0 <= j < self.installed_packages@.len()
                        ==> #[trigger] self.installed_packages@[j].name@ != name@,
            },
    {
        let n = self.installed_packages.len();
        let mut i: usize = 0;
        while i < n
            invariant
                0 <= i <= n == self.installed_packages@.len(),
                forall|j: int| 0 <= j < i ==> #[trigger] self.installed_packages@[j].name@ != name@,
            decreases n - i,
        {
            if str_eq(self.installed_packages[i].name.0.as_str(), name.0.as_str()) {
                return Some(i);
            }
            i += 1;
        }
        None
    }

    /// Looks a record up by name.
    pub fn get_package(&self, name: &PackageName) -> (r: Option<&InstalledPackage>)
        requires
            self.wf(),
        ensures
            match r {
                Some(p) => self.spec_get(name@) == Some(*p),
                None => self.spec_get(name@) is None,
            },
    {
        proof {
            lemma_seq_find(self.installed_packages@, name@);
        }
        match self.find_index(name) {
            Some(i) => Some(&self.installed_packages[i]),
            None => None,
        }
    }

    /// Whether exactly this name and version is installed.
    pub fn has_package(&self, name: &PackageName, version: &Version) -> (r: bool)
        requires
            self.wf(),
        ensures
            r == self.spec_has_package(name@, *version),
    {
        match self.get_package(name) {
            Some(p) => p.version == *version,
            None => false,
        }
    }

    /// All records, in registration order.
    pub fn list_packages(&self) -> (r: &Vec<InstalledPackage>)
        ensures
            r@ == self.installed_packages@,
    {
        &self.installed_packages
    }

    /// Registers a record under its name, replacing any record with the same
    /// name, and refreshes the cached package count.
    pub fn add_package(&mut self, package: InstalledPackage)
        requires
            old(self).wf(),
        ensures
            final(self).wf(),
            final(self).spec_get(package.name@) == Some(package),
            forall|n: Seq<char>|
                n != package.name@ ==> #[trigger] final(self).spec_get(n) == old(self).spec_get(
                    n,
                ),
            final(self).installed_packages@.len() == old(self).installed_packages@.len() + (
            if old(self).spec_get(package.name@) is Some {
                0int
            } else {
                1int
            }),
            final(self).version == old(self).version,
            final(self).pending_operations == old(self).pending_operations,
            final(self).metadata.total_size_bytes == old(self).metadata.total_size_bytes,
            final(self).metadata.last_cleanup == old(self).metadata.last_cleanup,
            final(self).metadata.corrupted_packages == old(self).metadata.corrupted_packages,
    {
        let ghost old_seq = self.installed_packages@;
        proof {
            lemma_seq_find(old_seq, package.name@);
        }
        match self.find_index(&package.name) {
            Some(i) => {
                self.installed_packages[i] = package;
                proof {
                    let new_seq = self.installed_packages@;
                    assert(names_unique(new_seq));
                    lemma_seq_find(new_seq, package.name@);
                    assert(new_seq[i as int] == package);
                    assert(new_seq[i as int].name@ == package.name@);
                    assert forall|n: Seq<char>| n != package.name@ implies #[trigger] seq_find(
                        new_seq,
                        n,
                    ) == seq_find(old_seq, n) by {
                        lemma_seq_find(new_seq, n);
                        lemma_seq_find(old_seq, n);
                        if seq_find(old_seq, n) is Some {
                            let k = choose|k: int|
                                0 <= k < old_seq.len() && #[trigger] old_seq[k].name@ == n;
                            assert(k != i);
                            assert(new_seq[k] == old_seq[k]);
                        }
                        if seq_find(new_seq, n) is Some {
                            let k = choose|k: int|
                                0 <= k < new_seq.len() && #[trigger] new_seq[k].name@ == n;
                            assert(k != i);
                            assert(old_seq[k] == new_seq[k]);
                        }
                    }
                }
            },
            None => {
                self.installed_packages.push(package);
                proof {
                    let new_seq = self.installed_packages@;
                    let m = old_seq.len() as int;
                    assert(names_unique(new_seq));
                    lemma_seq_find(new_seq, package.name@);
                    assert(new_seq[m] == package);
                    assert(new_seq[m].name@ == package.name@);
                    assert forall|n: Seq<char>| n != package.name@ implies #[trigger] seq_find(
                        new_seq,
                        n,
                    ) == seq_find(old_seq, n) by {
                        lemma_seq_find(new_seq, n);
                        lemma_seq_find(old_seq, n);
                        if seq_find(old_seq, n) is Some {
                            let k = choose|k: int|
                                0 <= k < old_seq.len() && #[trigger] old_seq[k].name@ == n;
                            assert(new_seq[k] == old_seq[k]);
                        }
                        if seq_find(new_seq, n) is Some {
                            let k = choose|k: int|
                                0 <= k < new_seq.len() && #[trigger] new_seq[k].name@ == n;
                            assert(k != m);
                            assert(old_seq[k] == new_seq[k]);
                        }
                    }
                }
            },
        }
        let count = self.installed_packages.len();
        self.metadata.total_packages = count;
        self.last_updated = now_unix();
    }

    /// Removes the record with the given name, if present, and refreshes the
    /// cached package count. Nothing changes when the name is absent.
    pub fn remove_package(&mut self, name: &PackageName) -> (r: Option<InstalledPackage>)
        requires
            old(self).wf(),
        ensures
            final(self).wf(),
            r == old(self).spec_get(name@),
            final(self).spec_get(name@) is None,
            forall|n: Seq<char>|
                n != name@ ==> #[trigger] final(self).spec_get(n) == old(self).spec_get(n),
            final(self).installed_packages@.len() == old(self).installed_packages@.len() - (
            if r is Some {
                1int
            } else {
                0int
            }),
            final(self).version == old(self).version,
            final(self).pending_operations == old(self).pending_operations,
            final(self).metadata.total_size_bytes == old(self).metadata.total_size_bytes,
            final(self).metadata.last_cleanup == old(self).metadata.last_cleanup,
            final(self).metadata.corrupted_packages == old(self).metadata.corrupted_packages,
            r is None ==> *final(self) == *old(self),
    {
        let ghost old_seq = self.installed_packages@;
        proof {
            lemma_seq_find(old_seq, name@);
        }
        match self.find_index(name) {
            Some(i) => {
                let removed = self.installed_packages.remove(i);
                proof {
                    let new_seq = self.installed_packages@;
                    assert(names_unique(new_seq));
                    lemma_seq_find(new_seq, name@);
                    if seq_find(new_seq, name@) is Some {
                        let k = choose|k: int|
                            0 <= k < new_seq.len() && #[trigger] new_seq[k].name@ == name@;
                        if k < i {
                            assert(old_seq[k].name@ == name@);
                        } else {
                            assert(old_seq[k + 1].name@ == name@);
                        }
                        assert(false);
                    }
                    assert forall|n: Seq<char>| n != name@ implies #[trigger] seq_find(new_seq, n)
                        == seq_find(old_seq, n) by {
                        lemma_seq_find(new_seq, n);
                        lemma_seq_find(old_seq, n);
                        if seq_find(old_seq, n) is Some {
                            let k = choose|k: int|
                                0 <= k < old_seq.len() && #[trigger] old_seq[k].name@ == n;
                            if k < i {
                                assert(new_seq[k].name@ == n);
                            } else {
                                assert(new_seq[k - 1].name@ == n);
                            }
                        }
                        if seq_find(new_seq, n) is Some {
                            let k = choose|k: int|
                                0 <= k < new_seq.len() && #[trigger] new_seq[k].name@ == n;
                            if k < i {
                                assert(old_seq[k].name@ == n);
                            } else {
                                assert(old_seq[k + 1].name@ == n);
                            }
                        }
                    }
                }
                let count = self.installed_packages.len();
                self.metadata.total_packages = count;
                self.last_updated = now_unix();
                Some(removed)
            },
            None => None,
        }
    }

    /// Refreshes the cached aggregate metadata: the package count is
    /// recomputed from the records and the measured total size is stored.
    pub fn update_metadata(&mut self, total_size_bytes: u64)
        requires
            old(self).wf(),
        ensures
            final(self).wf(),
            final(self).installed_packages == old(self).installed_packages,
            final(self).metadata.total_size_bytes == total_size_bytes,
            final(self).metadata.total_packages == final(self).installed_packages@.len(),
            final(self).metadata.last_cleanup == old(self).metadata.last_cleanup,
            final(self).metadata.corrupted_packages == old(self).metadata.corrupted_packages,
            final(self).version == old(self).version,
            final(self).pending_operations == old(self).pending_operations,
    {
        let count = self.installed_packages.len();
        self.metadata.total_packages = count;
        self.metadata.total_size_bytes = total_size_bytes;
        self.last_updated = now_unix();
    }
}

impl Default for GlobalState {
    /// A fresh, empty state store document.
    fn default() -> (r: Self)
        ensures
            r.wf(),
            r.installed_packages@.len() == 0,
    {
        GlobalState::new()
    }
}

} // verus!
