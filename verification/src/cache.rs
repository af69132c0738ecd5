//! The cache store and the invalidation decision.
//!
//! A cache maps each file's key — its path relative to the scan root — to the
//! record of the last successful run.  A discovered file may take the cached
//! checksum only when size, modification time and permission bits all still
//! match; on any mismatch the stale entry is dropped for the rest of the run.

use vstd::prelude::*;
use vstd::string::*;
use crate::file_list::FileListElement;
use crate::text::str_eq;

verus! {

/// The first record with the given key, scanning front to back.
pub open spec fn find(s: Seq<FileListElement>, k: Seq<char>) -> Option<FileListElement>
    decreases s.len(),
{
    if s.len() == 0 {
        None
    } else if s[0].cache_key@ == k {
        Some(s[0])
    } else {
        find(s.drop_first(), k)
    }
}

/// What `find` returns: nothing, exactly when no record has the key; a
/// record, only one that is in the sequence under that key.
pub proof fn lemma_find_characterizes(s: Seq<FileListElement>, k: Seq<char>)
    ensures
        match find(s, k) {
            None => forall|j: int| 0 <= j < s.len() ==> s[j].cache_key@ != k,
            Some(e) => e.cache_key@ == k && exists|j: int| 0 <= j < s.len() && s[j] == e,
        },
    decreases s.len(),
{
    if s.len() > 0 && s[0].cache_key@ != k {
        lemma_find_characterizes(s.drop_first(), k);
        match find(s, k) {
            None => {
                assert forall|j: int| 0 <= j < s.len() implies s[j].cache_key@ != k by {
                    if j > 0 {
                        assert(s[j] == s.drop_first()[j - 1]);
                    }
                }
            },
            Some(e) => {
                let j0 = choose|j: int|
                    0 <= j < s.drop_first().len() && s.drop_first()[j] == e;
                assert(s[j0 + 1] == e);
            },
        }
    }
}

/// `find` returns the first match.
pub proof fn lemma_find_first(s: Seq<FileListElement>, k: Seq<char>, i: int)
    requires
        0 <= i < s.len(),
        s[i].cache_key@ == k,
        forall|j: int| 0 <= j < i ==> s[j].cache_key@ != k,
    ensures
        find(s, k) == Some(s[i]),
    decreases i,
{
    if i > 0 {
        assert(s.drop_first()[i - 1] == s[i]);
        lemma_find_first(s.drop_first(), k, i - 1);
    }
}

/// How `find` behaves after appending a record.
pub proof fn lemma_find_push(s: Seq<FileListElement>, r: FileListElement, k: Seq<char>)
    ensures
        find(s.push(r), k) == (if find(s, k) is Some {
            find(s, k)
        } else if r.cache_key@ == k {
            Some(r)
        } else {
            None
        }),
    decreases s.len(),
{
    if s.len() == 0 {
        assert(s.push(r)[0] == r);
        assert(s.push(r).drop_first() =~= Seq::<FileListElement>::empty());
    } else {
        assert(s.push(r)[0] == s[0]);
        assert(s.push(r).drop_first() =~= s.drop_first().push(r));
        lemma_find_push(s.drop_first(), r, k);
    }
}

/// How `find` behaves after removing the first record under a key, when keys
/// are unique.
pub proof fn lemma_find_remove(s: Seq<FileListElement>, i: int, k: Seq<char>)
    requires
        0 <= i < s.len(),
        s[i].cache_key@ == k,
        forall|a: int, b: int|
            0 <= a < b < s.len() ==> s[a].cache_key@ != s[b].cache_key@,
    ensures
        find(s.remove(i), k) is None,
        forall|k2: Seq<char>| k2 != k ==> find(s.remove(i), k2) == find(s, k2),
    decreases s.len(),
{
    lemma_find_remove_one(s, i, k, k);
    assert forall|k2: Seq<char>| k2 != k implies find(s.remove(i), k2) == find(s, k2) by {
        lemma_find_remove_one(s, i, k, k2);
    }
}

/// One key's view of removing the record at `i`.
proof fn lemma_find_remove_one(s: Seq<FileListElement>, i: int, k: Seq<char>, k2: Seq<char>)
    requires
        0 <= i < s.len(),
        s[i].cache_key@ == k,
        forall|a: int, b: int|
            0 <= a < b < s.len() ==> s[a].cache_key@ != s[b].cache_key@,
    ensures
        k2 == k ==> find(s.remove(i), k2) is None,
        k2 != k ==> find(s.remove(i), k2) == find(s, k2),
    decreases s.len(),
{
    if i == 0 {
        assert(s.remove(0) =~= s.drop_first());
        if k2 == k {
            lemma_find_characterizes(s.drop_first(), k2);
            if find(s.drop_first(), k2) is Some {
                let e = find(s.drop_first(), k2).unwrap();
                let j = choose|j: int|
                    0 <= j < s.drop_first().len() && s.drop_first()[j] == e;
                assert(s[j + 1] == e);
                assert(s[0].cache_key@ == s[j + 1].cache_key@);
            }
        }
    } else {
        assert(s.remove(i)[0] == s[0]);
        assert(s.remove(i).drop_first() =~= s.drop_first().remove(i - 1));
        assert(s.drop_first()[i - 1] == s[i]);
        assert forall|a: int, b: int|
            0 <= a < b < s.drop_first().len() implies s.drop_first()[a].cache_key@
            != s.drop_first()[b].cache_key@ by {
            assert(s.drop_first()[a] == s[a + 1]);
            assert(s.drop_first()[b] == s[b + 1]);
        }
        if s[0].cache_key@ == k2 {
            assert(find(s, k2) == Some(s[0]));
            assert(find(s.remove(i), k2) == Some(s[0]));
            assert(k2 != k);
        } else {
            lemma_find_remove_one(s.drop_first(), i - 1, k, k2);
        }
    }
}

/// The persisted mapping from cache key to file record.
#[derive(Debug)]
pub struct Cache {
    entries: Vec<FileListElement>,
}

impl Cache {
    /// The records the cache holds, in storage order.
    pub closed spec fn entries_spec(self) -> Seq<FileListElement> {
        self.entries@
    }

    /// Every record sits under a distinct key.
    pub open spec fn wf(self) -> bool {
        forall|a: int, b: int|
            0 <= a < b < self.entries_spec().len() ==> self.entries_spec()[a].cache_key@
                != self.entries_spec()[b].cache_key@
    }

    /// The record cached under a key, if any.
    pub open spec fn spec_find(self, k: Seq<char>) -> Option<FileListElement> {
        find(self.entries_spec(), k)
    }

    /// Whether any record is cached under the key.
    pub open spec fn has_key(self, k: Seq<char>) -> bool {
        self.spec_find(k) is Some
    }

    /// An empty cache: what a run starts from when nothing was persisted.
    pub fn new() -> (c: Cache)
        ensures
            c.wf(),
            c.entries_spec() == Seq::<FileListElement>::empty(),
            forall|k: Seq<char>| !c.has_key(k),
    {
        Cache { entries: Vec::new() }
    }

    /// How many records the cache holds.
    pub fn len(&self) -> (n: usize)
        ensures
            n == self.entries_spec().len(),
    {
        self.entries.len()
    }

    /// The cached records, for persisting.
    pub fn records(&self) -> (r: &Vec<FileListElement>)
        ensures
            r@ == self.entries_spec(),
    {
        &self.entries
    }

    /// The record cached under `key`, if any.
    pub fn lookup(&self, key: &str) -> (r: Option<&FileListElement>)
        ensures
            match r {
                Some(e) => self.spec_find(key@) == Some(*e),
                None => self.spec_find(key@) is None,
            },
    {
        let mut i: usize = 0;
        while i < self.entries.len()
            invariant
                i <= self.entries@.len(),
                forall|j: int| 0 <= j < i ==> self.entries@[j].cache_key@ != key@,
            decreases self.entries@.len() - i,
        {
            if str_eq(self.entries[i].cache_key.as_str(), key) {
                proof {
                    lemma_find_first(self.entries@, key@, i as int);
                }
                return Some(&self.entries[i]);
            }
            i += 1;
        }
        proof {
            lemma_find_none(self.entries@, key@);
        }
        None
    }

    /// Drop the record cached under `key`, if any; other keys keep their
    /// records.
    pub fn remove_key(&mut self, key: &str)
        requires
            old(self).wf(),
        ensures
            final(self).wf(),
            final(self).spec_find(key@) is None,
            forall|k2: Seq<char>| k2 != key@ ==> final(self).spec_find(k2) == old(self).spec_find(
                k2,
            ),
    {
        let mut i: usize = 0;
        while i < self.entries.len()
            invariant
                i <= self.entries@.len(),
                *self == *old(self),
                self.wf(),
                forall|j: int| 0 <= j < i ==> self.entries@[j].cache_key@ != key@,
            decreases self.entries@.len() - i,
        {
            if str_eq(self.entries[i].cache_key.as_str(), key) {
                proof {
                    lemma_find_remove(self.entries@, i as int, key@);
                    assert forall|a: int, b: int|
                        0 <= a < b < self.entries@.remove(i as int).len() implies self.entries@.remove(
                        i as int,
                    )[a].cache_key@ != self.entries@.remove(i as int)[b].cache_key@ by {
                        let s = self.entries@;
                        if b < i {
                            assert(s.remove(i as int)[a] == s[a] && s.remove(i as int)[b] == s[b]);
                        } else if a < i {
                            assert(s.remove(i as int)[a] == s[a] && s.remove(i as int)[b] == s[b
                                + 1]);
                        } else {
                            assert(s.remove(i as int)[a] == s[a + 1] && s.remove(i as int)[b] == s[b
                                + 1]);
                        }
                    }
                }
                self.entries.remove(i);
                return ;
            }
            i += 1;
        }
        proof {
            lemma_find_none(self.entries@, key@);
        }
    }

    /// Add a record under a key the cache does not hold yet.
    fn push_record(&mut self, r: FileListElement)
        requires
            old(self).wf(),
            old(self).spec_find(r.cache_key@) is None,
        ensures
            final(self).wf(),
            final(self).entries_spec() == old(self).entries_spec().push(r),
            final(self).spec_find(r.cache_key@) == Some(r),
            forall|k2: Seq<char>| k2 != r.cache_key@ ==> final(self).spec_find(k2) == old(
                self,
            ).spec_find(k2),
    {
        proof {
            lemma_find_characterizes(self.entries@, r.cache_key@);
            lemma_find_push(self.entries@, r, r.cache_key@);
            assert forall|k2: Seq<char>| k2 != r.cache_key@ implies find(self.entries@.push(r), k2)
                == find(self.entries@, k2) by {
                lemma_find_push(self.entries@, r, k2);
            }
            let s = self.entries@;
            assert forall|a: int, b: int|
                0 <= a < b < s.push(r).len() implies s.push(r)[a].cache_key@ != s.push(
                r,
            )[b].cache_key@ by {
                if b < s.len() {
                    assert(s.push(r)[a] == s[a] && s.push(r)[b] == s[b]);
                } else {
                    assert(s.push(r)[a] == s[a] && s.push(r)[b] == r);
                }
            }
        }
        self.entries.push(r);
    }

    /// A fresh cache holding exactly the given records, keyed by their cache
    /// keys.  A key is present afterwards exactly when one of the records
    /// carries it: records of files that no longer exist are simply absent.
    pub fn build(records: Vec<FileListElement>) -> (c: Cache)
        requires
            forall|a: int, b: int|
                0 <= a < b < records@.len() ==> records@[a].cache_key@ != records@[b].cache_key@,
        ensures
            c.wf(),
            c.entries_spec() == records@,
            forall|i: int|
                0 <= i < records@.len() ==> c.spec_find(records@[i].cache_key@) == Some(
                    records@[i],
                ),
            forall|k: Seq<char>| #![trigger c.spec_find(k)]
                c.has_key(k) <==> exists|i: int|
                    0 <= i < records@.len() && records@[i].cache_key@ == k,
    {
        let ghost all = records@;
        let mut rest = records;
        let mut c = Cache::new();
        while rest.len() > 0
            invariant
                c.wf(),
                all == c.entries_spec() + rest@,
                forall|a: int, b: int| 0 <= a < b < all.len() ==> all[a].cache_key@
                    != all[b].cache_key@,
            decreases rest@.len(),
        {
            let ghost done = c.entries_spec();
            let ghost rest0 = rest@;
            let r = rest.remove(0);
            proof {
                assert(rest@ =~= rest0.drop_first());
                assert(r == all[done.len() as int]);
                lemma_find_characterizes(done, r.cache_key@);
                if c.spec_find(r.cache_key@) is Some {
                    let e = c.spec_find(r.cache_key@).unwrap();
                    let j = choose|j: int| 0 <= j < done.len() && done[j] == e;
                    assert(all[j] == e);
                }
            }
            c.push_record(r);
            proof {
                assert(c.entries_spec() + rest@ =~= all);
            }
        }
        proof {
            assert(c.entries_spec() =~= all);
            assert forall|i: int| 0 <= i < all.len() implies c.spec_find(all[i].cache_key@)
                == Some(all[i]) by {
                lemma_find_first(c.entries_spec(), all[i].cache_key@, i);
            }
            assert forall|k: Seq<char>| #![trigger c.spec_find(k)]
                c.has_key(k) <==> exists|i: int|
                    0 <= i < all.len() && all[i].cache_key@ == k by {
                lemma_find_characterizes(c.entries_spec(), k);
            }
        }
        c
    }
}

/// The checksum a discovered record ends up with after consulting the cache:
/// the cached one when the cache holds its key with matching metadata, its
/// own (still empty) one otherwise.
pub open spec fn refreshed_checksum(rec: FileListElement, c: Cache) -> Seq<char> {
    match c.spec_find(rec.cache_key@) {
        None => rec.checksum@,
        Some(e) => if rec.meta_matches(e) {
            e.checksum@
        } else {
            rec.checksum@
        },
    }
}

/// Whether consulting the cache for this record drops a stale entry: the
/// cache holds the record's key, but one of the three metadata signals
/// differs.
pub open spec fn invalidates(rec: FileListElement, c: Cache) -> bool {
    match c.spec_find(rec.cache_key@) {
        None => false,
        Some(e) => !rec.meta_matches(e),
    }
}

impl Cache {
    /// Decide reuse or recompute for one discovered file.
    ///
    /// When the cache holds the record's key and size, modification time and
    /// permission bits all match, the cached checksum is copied and the
    /// file's bytes need not be read.  On any mismatch the stale entry is
    /// dropped from the cache and the record keeps its empty checksum.
    pub fn refresh_record(&mut self, rec: &mut FileListElement)
        requires
            old(self).wf(),
        ensures
            final(self).wf(),
            final(rec).path == old(rec).path,
            final(rec).cache_key == old(rec).cache_key,
            final(rec).size == old(rec).size,
            final(rec).modified == old(rec).modified,
            final(rec).mode == old(rec).mode,
            final(rec).checksum@ == refreshed_checksum(*old(rec), *old(self)),
            match old(self).spec_find(old(rec).cache_key@) {
                None => *final(self) == *old(self),
                Some(e) => if old(rec).meta_matches(e) {
                    *final(self) == *old(self)
                } else {
                    final(self).spec_find(old(rec).cache_key@) is None && forall|k2: Seq<char>|
                        k2 != old(rec).cache_key@ ==> final(self).spec_find(k2) == old(
                            self,
                        ).spec_find(k2)
                },
            },
    {
        let mut reuse: Option<String> = None;
        let mut stale = false;
        match self.lookup(rec.cache_key.as_str()) {
            None => {},
            Some(c) => {
                if c.size == rec.size && c.modified == rec.modified && c.mode == rec.mode {
                    reuse = Some(c.checksum.clone());
                } else {
                    stale = true;
                }
            },
        }
        match reuse {
            Some(chk) => {
                rec.checksum = chk;
            },
            None => {
                if stale {
                    self.remove_key(rec.cache_key.as_str());
                }
            },
        }
    }

    /// Decide reuse or recompute for every discovered file, in order.
    ///
    /// The records must carry distinct cache keys — each file of one run has
    /// its own relative path — so each decision sees the cache as it stood
    /// when the run began, less only the stale entries already dropped.
    pub fn refresh_all(&mut self, records: Vec<FileListElement>) -> (out: Vec<FileListElement>)
        requires
            old(self).wf(),
            forall|a: int, b: int|
                0 <= a < b < records@.len() ==> records@[a].cache_key@ != records@[b].cache_key@,
        ensures
            final(self).wf(),
            out@.len() == records@.len(),
            forall|i: int|
                0 <= i < records@.len() ==> out@[i].path == records@[i].path && out@[i].cache_key
                    == records@[i].cache_key && out@[i].size == records@[i].size && out@[i].modified
                    == records@[i].modified && out@[i].mode == records@[i].mode
                    && out@[i].checksum@ == refreshed_checksum(records@[i], *old(self)),
            forall|k: Seq<char>| #![trigger final(self).spec_find(k)]
                final(self).spec_find(k) == (if exists|i: int|
                    0 <= i < records@.len() && records@[i].cache_key@ == k && invalidates(
                        records@[i],
                        *old(self),
                    ) {
                    None::<FileListElement>
                } else {
                    old(self).spec_find(k)
                }),
    {
        let ghost all = records@;
        let ghost c0 = *old(self);
        let mut rest = records;
        let mut out: Vec<FileListElement> = Vec::new();
        proof {
            assert(rest@ =~= all.skip(0));
        }
        while rest.len() > 0
            invariant
                self.wf(),
                out@.len() + rest@.len() == all.len(),
                rest@ == all.skip(out@.len() as int),
                forall|a: int, b: int| 0 <= a < b < all.len() ==> all[a].cache_key@
                    != all[b].cache_key@,
                forall|i: int|
                    0 <= i < out@.len() ==> out@[i].path == all[i].path && out@[i].cache_key
                        == all[i].cache_key && out@[i].size == all[i].size && out@[i].modified
                        == all[i].modified && out@[i].mode == all[i].mode && out@[i].checksum@
                        == refreshed_checksum(all[i], c0),
                forall|j: int|
                    out@.len() <= j < all.len() ==> self.spec_find(all[j].cache_key@)
                        == c0.spec_find(all[j].cache_key@),
                forall|k: Seq<char>| #![trigger self.spec_find(k)]
                    self.spec_find(k) == (if exists|i: int|
                        0 <= i < out@.len() && all[i].cache_key@ == k && invalidates(all[i], c0) {
                        None::<FileListElement>
                    } else {
                        c0.spec_find(k)
                    }),
            decreases rest@.len(),
        {
            let ghost n = out@.len() as int;
            let ghost rest0 = rest@;
            let mut r = rest.remove(0);
            proof {
                assert(rest@ =~= rest0.drop_first());
                assert(rest0[0] == all.skip(n)[0]);
                assert(r == all[n]);
                assert(rest@ =~= all.skip(n + 1));
            }
            let ghost c_before = *self;
            self.refresh_record(&mut r);
            out.push(r);
            proof {
                assert(refreshed_checksum(all[n], c_before) == refreshed_checksum(all[n], c0));
                assert forall|j: int|
                    out@.len() <= j < all.len() implies self.spec_find(all[j].cache_key@)
                    == c0.spec_find(all[j].cache_key@) by {
                    assert(all[j].cache_key@ != all[n].cache_key@);
                }
                let key = all[n].cache_key@;
                assert(c_before.spec_find(key) == c0.spec_find(key));
                assert forall|k: Seq<char>| #![trigger self.spec_find(k)]
                    self.spec_find(k) == (if exists|i: int|
                        0 <= i < out@.len() && all[i].cache_key@ == k && invalidates(all[i], c0) {
                        None::<FileListElement>
                    } else {
                        c0.spec_find(k)
                    }) by {
                    if k == key {
                        if invalidates(all[n], c0) {
                            assert(0 <= n < out@.len() && all[n].cache_key@ == k && invalidates(
                                all[n],
                                c0,
                            ));
                            assert(self.spec_find(k) is None);
                        } else {
                            assert(self.spec_find(k) == c_before.spec_find(k));
                            assert(c_before.spec_find(k) == c0.spec_find(k));
                            if exists|i: int|
                                0 <= i < out@.len() && all[i].cache_key@ == k && invalidates(
                                    all[i],
                                    c0,
                                ) {
                                let i = choose|i: int|
                                    0 <= i < out@.len() && all[i].cache_key@ == k && invalidates(
                                        all[i],
                                        c0,
                                    );
                                if i < n {
                                    assert(all[i].cache_key@ != all[n].cache_key@);
                                }
                                assert(false);
                            }
                        }
                    } else {
                        assert(self.spec_find(k) == c_before.spec_find(k));
                        if exists|i: int|
                            0 <= i < out@.len() && all[i].cache_key@ == k && invalidates(
                                all[i],
                                c0,
                            ) {
                            let i = choose|i: int|
                                0 <= i < out@.len() && all[i].cache_key@ == k && invalidates(
                                    all[i],
                                    c0,
                                );
                            assert(i < n);
                            assert(exists|i2: int|
                                0 <= i2 < n && all[i2].cache_key@ == k && invalidates(
                                    all[i2],
                                    c0,
                                ));
                        } else {
                            if exists|i2: int|
                                0 <= i2 < n && all[i2].cache_key@ == k && invalidates(
                                    all[i2],
                                    c0,
                                ) {
                                let i2 = choose|i2: int|
                                    0 <= i2 < n && all[i2].cache_key@ == k && invalidates(
                                        all[i2],
                                        c0,
                                    );
                                assert(0 <= i2 < out@.len() && all[i2].cache_key@ == k
                                    && invalidates(all[i2], c0));
                                assert(false);
                            }
                        }
                    }
                }
            }
        }
        out
    }
}

/// No record carries the key, so nothing is found.
proof fn lemma_find_none(s: Seq<FileListElement>, k: Seq<char>)
    requires
        forall|j: int| 0 <= j < s.len() ==> s[j].cache_key@ != k,
    ensures
        find(s, k) is None,
    decreases s.len(),
{
    if s.len() > 0 {
        assert forall|j: int| 0 <= j < s.drop_first().len() implies s.drop_first()[j].cache_key@
            != k by {
            assert(s.drop_first()[j] == s[j + 1]);
        }
        lemma_find_none(s.drop_first(), k);
    }
}

} // verus!
