//! What holds of a whole run: determinism, reuse soundness, idempotence.

use vstd::prelude::*;
use vstd::seq_lib::group_to_multiset_ensures;
use crate::aggregate::{buffer_of, line_of, sorted_by_path};
use crate::cache::{refreshed_checksum, Cache};
use crate::digest::{checksum_of, lemma_dec_str_len};
use crate::file_list::FileListElement;
use crate::text::{lemma_seq_lt_asym, seq_le};

verus! {

/// No two records name the same path.
pub open spec fn distinct_paths(s: Seq<FileListElement>) -> bool {
    forall|i: int, j: int| 0 <= i < j < s.len() ==> s[i].path@ != s[j].path@
}

/// Determinism of the ordering step: two sorted sequences holding the same
/// records — however the filesystem enumerated them — are one and the same
/// sequence, so everything aggregated from them agrees.
pub proof fn lemma_sorted_same_records(a: Seq<FileListElement>, b: Seq<FileListElement>)
    requires
        a.to_multiset() == b.to_multiset(),
        sorted_by_path(a),
        sorted_by_path(b),
        distinct_paths(a),
    ensures
        a == b,
    decreases a.len(),
{
    broadcast use group_to_multiset_ensures;

    a.to_multiset_ensures();
    b.to_multiset_ensures();
    if a.len() == 0 {
        assert(a =~= b);
    } else {
        let x = a[0];
        let y = b[0];
        assert(a.contains(x));
        assert(b.contains(y));
        assert(a.to_multiset().count(x) > 0);
        assert(b.to_multiset().count(y) > 0);
        assert(b.contains(x));
        assert(a.contains(y));
        let ia = choose|i: int| 0 <= i < a.len() && a[i] == y;
        let ib = choose|i: int| 0 <= i < b.len() && b[i] == x;
        assert(seq_le(x.path@, y.path@));
        assert(seq_le(y.path@, x.path@));
        if x.path@ != y.path@ {
            lemma_seq_lt_asym(x.path@, y.path@);
            lemma_seq_lt_asym(y.path@, x.path@);
        }
        assert(x.path@ == y.path@);
        if ia != 0 {
            assert(a[0].path@ != a[ia].path@);
            assert(false);
        }
        assert(x == y);
        let ad = a.drop_first();
        let bd = b.drop_first();
        assert(ad =~= a.remove(0));
        assert(bd =~= b.remove(0));
        assert(ad.to_multiset() =~= a.to_multiset().remove(x));
        assert(bd.to_multiset() =~= b.to_multiset().remove(x));
        assert forall|i: int, j: int| 0 <= i < j < ad.len() implies seq_le(
            ad[i].path@,
            ad[j].path@,
        ) && ad[i].path@ != ad[j].path@ by {
            assert(ad[i] == a[i + 1]);
            assert(ad[j] == a[j + 1]);
        }
        assert forall|i: int, j: int| 0 <= i < j < bd.len() implies seq_le(
            bd[i].path@,
            bd[j].path@,
        ) by {
            assert(bd[i] == b[i + 1]);
            assert(bd[j] == b[j + 1]);
        }
        lemma_sorted_same_records(ad, bd);
        assert forall|i: int| 0 <= i < a.len() implies a[i] == b[i] by {
            if i > 0 {
                assert(a[i] == ad[i - 1]);
                assert(b[i] == bd[i - 1]);
            }
        }
        assert(a =~= b);
    }
}

/// Two sequences whose records write the same lines build the same buffer.
pub proof fn lemma_buffer_pointwise(a: Seq<FileListElement>, b: Seq<FileListElement>)
    requires
        a.len() == b.len(),
        forall|i: int| 0 <= i < a.len() ==> #[trigger] line_of(a[i]) == line_of(b[i]),
    ensures
        buffer_of(a) == buffer_of(b),
    decreases a.len(),
{
    if a.len() > 0 {
        assert forall|i: int| 0 <= i < a.drop_last().len() implies #[trigger] line_of(
            a.drop_last()[i],
        ) == line_of(b.drop_last()[i]) by {
            assert(a.drop_last()[i] == a[i]);
            assert(b.drop_last()[i] == b[i]);
        }
        lemma_buffer_pointwise(a.drop_last(), b.drop_last());
        assert(line_of(a.last()) == line_of(b[a.len() - 1]));
    }
}

/// Reuse agrees with recomputing: when every cached record that still
/// matches a file's metadata stores exactly the checksum of that file's
/// current bytes, consulting the cache and then hashing whatever is left
/// empty ends in the checksum of the bytes — the same outcome as a run
/// without any cache.
pub proof fn lemma_warm_equals_cold(rec: FileListElement, c: Cache, bytes: Seq<u8>)
    requires
        rec.checksum@ == Seq::<char>::empty(),
        match c.spec_find(rec.cache_key@) {
            Some(e) => rec.meta_matches(e) ==> e.checksum@ == checksum_of(bytes),
            None => true,
        },
    ensures
        (if refreshed_checksum(rec, c) == Seq::<char>::empty() {
            checksum_of(bytes)
        } else {
            refreshed_checksum(rec, c)
        }) == checksum_of(bytes),
{
    lemma_dec_str_len(crate::digest::fx_of(bytes) as nat);
}

/// Determinism across cache states: a run against a coherent cache — one
/// whose matching entries store exactly the checksums of the files' current
/// bytes — builds the very buffer a run without any cache builds, so both
/// end in the same fingerprint.
pub proof fn lemma_warm_run_same_buffer(
    recs: Seq<FileListElement>,
    c: Cache,
    bytes: Seq<Seq<u8>>,
    warm: Seq<FileListElement>,
    cold: Seq<FileListElement>,
)
    requires
        bytes.len() == recs.len(),
        warm.len() == recs.len(),
        cold.len() == recs.len(),
        forall|i: int| 0 <= i < recs.len() ==> #[trigger] recs[i].checksum@ == Seq::<char>::empty(),
        forall|i: int|
            0 <= i < recs.len() ==> match c.spec_find(#[trigger] recs[i].cache_key@) {
                Some(e) => recs[i].meta_matches(e) ==> e.checksum@ == checksum_of(bytes[i]),
                None => true,
            },
        forall|i: int|
            0 <= i < recs.len() ==> #[trigger] warm[i].cache_key@ == recs[i].cache_key@
                && warm[i].checksum@ == (if refreshed_checksum(recs[i], c) == Seq::<char>::empty() {
                checksum_of(bytes[i])
            } else {
                refreshed_checksum(recs[i], c)
            }),
        forall|i: int|
            0 <= i < recs.len() ==> #[trigger] cold[i].cache_key@ == recs[i].cache_key@
                && cold[i].checksum@ == checksum_of(bytes[i]),
    ensures
        buffer_of(warm) == buffer_of(cold),
{
    assert forall|i: int| 0 <= i < warm.len() implies #[trigger] line_of(warm[i]) == line_of(
        cold[i],
    ) by {
        assert(recs[i].checksum@ == Seq::<char>::empty());
        assert(warm[i].cache_key@ == recs[i].cache_key@);
        assert(cold[i].cache_key@ == recs[i].cache_key@);
        lemma_warm_equals_cold(recs[i], c, bytes[i]);
        assert(warm[i].checksum@ == checksum_of(bytes[i]));
    }
    lemma_buffer_pointwise(warm, cold);
}

/// Idempotence of the cache round trip: persist a run's records, walk the
/// unchanged tree again, and every file reuses the checksum it had; the
/// lines aggregated, and so the fingerprint and the rewritten cache, are
/// those of the first run.
pub proof fn lemma_second_run_reuses(
    r1: Seq<FileListElement>,
    c1: Cache,
    r2: Seq<FileListElement>,
)
    requires
        r2.len() == r1.len(),
        forall|i: int|
            0 <= i < r1.len() ==> #[trigger] c1.spec_find(r1[i].cache_key@) == Some(r1[i]),
        forall|i: int|
            0 <= i < r1.len() ==> #[trigger] r2[i].cache_key@ == r1[i].cache_key@
                && r2[i].meta_matches(r1[i]),
    ensures
        forall|i: int|
            0 <= i < r2.len() ==> #[trigger] refreshed_checksum(r2[i], c1) == r1[i].checksum@,
{
    assert forall|i: int| 0 <= i < r2.len() implies #[trigger] refreshed_checksum(r2[i], c1)
        == r1[i].checksum@ by {
        assert(c1.spec_find(r2[i].cache_key@) == Some(r1[i]));
    }
}

/// Idempotence, taken through to the buffer: records refreshed against the
/// first run's cache write the first run's lines.
pub proof fn lemma_second_run_same_buffer(
    r1: Seq<FileListElement>,
    c1: Cache,
    r2: Seq<FileListElement>,
    r2f: Seq<FileListElement>,
)
    requires
        r2.len() == r1.len(),
        forall|i: int|
            0 <= i < r1.len() ==> #[trigger] c1.spec_find(r1[i].cache_key@) == Some(r1[i]),
        forall|i: int|
            0 <= i < r1.len() ==> #[trigger] r2[i].cache_key@ == r1[i].cache_key@
                && r2[i].meta_matches(r1[i]),
        r2f.len() == r2.len(),
        forall|i: int|
            0 <= i < r2.len() ==> #[trigger] r2f[i].cache_key@ == r2[i].cache_key@
                && r2f[i].checksum@ == refreshed_checksum(r2[i], c1),
    ensures
        buffer_of(r2f) == buffer_of(r1),
{
    lemma_second_run_reuses(r1, c1, r2);
    assert forall|i: int| 0 <= i < r2f.len() implies #[trigger] line_of(r2f[i]) == line_of(
        r1[i],
    ) by {
        assert(r2f[i].cache_key@ == r2[i].cache_key@);
        assert(refreshed_checksum(r2[i], c1) == r1[i].checksum@);
        assert(r2f[i].checksum@ == r1[i].checksum@);
        assert(r2f[i].cache_key@ == r1[i].cache_key@);
    }
    lemma_buffer_pointwise(r2f, r1);
}

} // verus!
