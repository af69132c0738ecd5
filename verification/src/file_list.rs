//! One file's identity, metadata snapshot and checksum.

use vstd::prelude::*;
use vstd::string::*;
use crate::digest::{checksum_of, fx_hash, u64_to_string};
use crate::errors::{ErrorKind, SyncError};

verus! {

/// The path with a prefix removed: the empty remainder when the path names
/// the prefix itself, and the part after the separator when the path lies
/// below it.  An empty prefix leaves the path unchanged; a trailing
/// separator on the prefix changes nothing.
pub open spec fn strip_prefix_spec(path: Seq<char>, prefix: Seq<char>) -> Option<Seq<char>> {
    if prefix.len() == 0 {
        Some(path)
    } else {
        let base = if prefix.last() == '/' {
            prefix.drop_last()
        } else {
            prefix
        };
        let pfx = base.push('/');
        if path == base {
            Some(Seq::empty())
        } else if pfx.len() <= path.len() && path.subrange(0, pfx.len() as int) == pfx {
            Some(path.skip(pfx.len() as int))
        } else {
            None
        }
    }
}

/// One discovered file: where it is, what its metadata was when it was seen,
/// and — once known — the checksum of its contents.
///
/// `checksum` and `cache_key` start empty; `cache_key` is set once, from the
/// scan root, and `checksum` is set either from the cache or from the file's
/// bytes.
#[derive(Debug)]
pub struct FileListElement {
    /// The file's full path.
    pub path: String,
    /// The path relative to the scan root: the file's identity across runs.
    pub cache_key: String,
    /// The content checksum, or the empty string while not yet known.
    pub checksum: String,
    /// Byte length at the time of the scan.
    pub size: u64,
    /// Last-modification time at the time of the scan.
    pub modified: u64,
    /// Permission bits at the time of the scan.
    pub mode: u32,
}

impl FileListElement {
    /// The three metadata signals of this record equal those of `other`.
    pub open spec fn meta_matches(self, other: FileListElement) -> bool {
        self.size == other.size && self.modified == other.modified && self.mode == other.mode
    }

    /// A record made by the walker: metadata filled in, checksum and cache
    /// key still empty.
    pub fn new(path: String, size: u64, modified: u64, mode: u32) -> (e: Self)
        ensures
            e.path == path,
            e.cache_key@ == Seq::<char>::empty(),
            e.checksum@ == Seq::<char>::empty(),
            e.size == size,
            e.modified == modified,
            e.mode == mode,
    {
        FileListElement {
            path,
            cache_key: String::new(),
            checksum: String::new(),
            size,
            modified,
            mode,
        }
    }

    /// The record's path relative to `prefix` — the empty string when the
    /// path names the prefix itself — or a prefix error when the path does
    /// not lie under it.
    pub fn path_without_prefix<'a>(&'a self, prefix: &str) -> (r: Result<&'a str, SyncError>)
        ensures
            match r {
                Ok(s) => strip_prefix_spec(self.path@, prefix@) == Some(s@),
                Err(e) => strip_prefix_spec(self.path@, prefix@) is None && e.kind_spec()
                    == ErrorKind::Prefix,
            },
    {
        let path = self.path.as_str();
        let plen = prefix.unicode_len();
        let len = path.unicode_len();
        if plen == 0 {
            return Ok(path);
        }
        let has_slash = prefix.get_char(plen - 1) == '/';
        let base_len = if has_slash {
            plen - 1
        } else {
            plen
        };
        let ghost base: Seq<char> = if has_slash {
            prefix@.drop_last()
        } else {
            prefix@
        };
        let ghost pfx: Seq<char> = base.push('/');
        if base_len > len {
            proof {
                assert(path@ != base);
                assert(strip_prefix_spec(self.path@, prefix@) is None);
            }
            return Err(SyncError::new(ErrorKind::Prefix));
        }
        let mut i: usize = 0;
        while i < base_len
            invariant
                i <= base_len,
                0 < plen,
                has_slash == (prefix@.last() == '/'),
                base_len <= len,
                path@ == self.path@,
                len == path@.len(),
                plen == prefix@.len(),
                base == (if has_slash {
                    prefix@.drop_last()
                } else {
                    prefix@
                }),
                base.len() == base_len,
                pfx == base.push('/'),
                forall|j: int| 0 <= j < base_len ==> base[j] == prefix@[j],
                forall|j: int| 0 <= j < i ==> path@[j] == prefix@[j],
            decreases base_len - i,
        {
            if path.get_char(i) != prefix.get_char(i) {
                proof {
                    assert(base[i as int] == prefix@[i as int]);
                    assert(path@ != base);
                    if pfx.len() <= path@.len() {
                        assert(pfx[i as int] == base[i as int]);
                        assert(path@.subrange(0, pfx.len() as int)[i as int] != pfx[i as int]);
                        assert(path@.subrange(0, pfx.len() as int) != pfx);
                    }
                    assert(strip_prefix_spec(self.path@, prefix@) is None);
                }
                return Err(SyncError::new(ErrorKind::Prefix));
            }
            i += 1;
        }
        if len == base_len {
            proof {
                assert(path@ =~= base);
                assert(strip_prefix_spec(self.path@, prefix@) == Some(Seq::<char>::empty()));
            }
            let r = path.substring_char(len, len);
            proof {
                assert(r@ =~= Seq::<char>::empty());
            }
            return Ok(r);
        }
        if path.get_char(base_len) != '/' {
            proof {
                assert(path@ != base);
                assert(pfx[base_len as int] == '/');
                assert(path@.subrange(0, pfx.len() as int)[base_len as int] != pfx[base_len as int]);
                assert(path@.subrange(0, pfx.len() as int) != pfx);
                assert(strip_prefix_spec(self.path@, prefix@) is None);
            }
            return Err(SyncError::new(ErrorKind::Prefix));
        }
        proof {
            assert(path@ != base);
            assert(path@.subrange(0, pfx.len() as int) =~= pfx);
        }
        Ok(path.substring_char(base_len + 1, len))
    }

    /// Fix the record's identity: its path relative to the scan root.
    pub fn assign_cache_key(&mut self, prefix: &str) -> (r: Result<(), SyncError>)
        ensures
            match r {
                Ok(()) => strip_prefix_spec(old(self).path@, prefix@) == Some(
                    final(self).cache_key@,
                ) && final(self).path == old(self).path && final(self).checksum == old(
                    self,
                ).checksum && final(self).size == old(self).size && final(self).modified == old(
                    self,
                ).modified && final(self).mode == old(self).mode,
                Err(e) => strip_prefix_spec(old(self).path@, prefix@) is None && e.kind_spec()
                    == ErrorKind::Prefix && *final(self) == *old(self),
            },
    {
        let stripped = match self.path_without_prefix(prefix) {
            Ok(s) => String::from_str(s),
            Err(e) => {
                return Err(e);
            },
        };
        self.cache_key = stripped;
        Ok(())
    }

    /// Compute the record's checksum from the file's bytes.
    pub fn calculate_checksum(&mut self, content: &[u8])
        ensures
            final(self).checksum@ == checksum_of(content@),
            final(self).path == old(self).path,
            final(self).cache_key == old(self).cache_key,
            final(self).size == old(self).size,
            final(self).modified == old(self).modified,
            final(self).mode == old(self).mode,
    {
        let h = fx_hash(content);
        self.checksum = u64_to_string(h);
    }
}

} // verus!
