//! The aggregator: order the records, write one line per file, digest the
//! whole.
//!
//! Sorting by path is what makes the fingerprint independent of the order in
//! which the filesystem handed the files out.

use vstd::prelude::*;
use vstd::string::*;
use vstd::seq_lib::group_to_multiset_ensures;
use crate::digest::{md5_hex, md5_hex_of};
use crate::file_list::FileListElement;
use crate::text::{lemma_seq_le_trans, lemma_seq_lt_total, seq_le, seq_lt, str_le};

verus! {

/// The records stand in path order.
pub open spec fn sorted_by_path(s: Seq<FileListElement>) -> bool {
    forall|a: int, b: int| 0 <= a < b < s.len() ==> seq_le(s[a].path@, s[b].path@)
}

/// The line one record contributes to the aggregation buffer.
pub open spec fn line_of(r: FileListElement) -> Seq<char> {
    r.checksum@ + seq![' '] + r.cache_key@ + seq!['\n']
}

/// The aggregation buffer: every record's line, in sequence order.
pub open spec fn buffer_of(s: Seq<FileListElement>) -> Seq<char>
    decreases s.len(),
{
    if s.len() == 0 {
        Seq::empty()
    } else {
        buffer_of(s.drop_last()) + line_of(s.last())
    }
}

/// Sort the records by path, keeping exactly the same records.
pub fn sort_by_path(records: &mut Vec<FileListElement>)
    ensures
        final(records)@.to_multiset() == old(records)@.to_multiset(),
        final(records)@.len() == old(records)@.len(),
        sorted_by_path(final(records)@),
{
    broadcast use group_to_multiset_ensures;
    broadcast use vstd::seq_lib::to_multiset_insert;
    broadcast use vstd::multiset::group_multiset_axioms;
    broadcast use vstd::multiset::group_multiset_properties;

    if records.len() <= 1 {
        return ;
    }
    let mut i: usize = 1;
    while i < records.len()
        invariant
            1 <= i <= records@.len(),
            records@.len() == old(records)@.len(),
            records@.to_multiset() == old(records)@.to_multiset(),
            forall|a: int, b: int| 0 <= a < b < i ==> seq_le(records@[a].path@, records@[b].path@),
        decreases records@.len() - i,
    {
        let mut j: usize = i;
        while j > 0 && !str_le(records[j - 1].path.as_str(), records[j].path.as_str())
            invariant
                0 <= j <= i < records@.len(),
                records@.len() == old(records)@.len(),
                records@.to_multiset() == old(records)@.to_multiset(),
                forall|a: int, b: int|
                    0 <= a < b <= i && b != j ==> seq_le(records@[a].path@, records@[b].path@),
                forall|b: int| j < b <= i ==> seq_lt(records@[j as int].path@, records@[b].path@),
            decreases j,
        {
            proof {
                lemma_seq_lt_total(records@[j as int].path@, records@[j - 1].path@);
            }
            let ghost s = records@;
            let e = records.remove(j);
            records.insert(j - 1, e);
            proof {
                let s2 = records@;
                assert(s2 =~= s.remove(j as int).insert(j - 1, s[j as int]));
                assert forall|k: int| 0 <= k < s.len() implies s2[k] == (if k == j - 1 {
                    s[j as int]
                } else if k == j {
                    s[j - 1]
                } else {
                    s[k]
                }) by {
                    assert(s2[k] == s.remove(j as int).insert(j - 1, s[j as int])[k]);
                }
                assert(s.contains(s[j as int]));
                s.to_multiset_ensures();
                vstd::seq_lib::to_multiset_insert(s.remove(j as int), j - 1, s[j as int]);
                assert(s.to_multiset().count(s[j as int]) > 0);
                assert(s.remove(j as int).insert(j - 1, s[j as int]).to_multiset()
                    =~= s.remove(j as int).to_multiset().insert(s[j as int]));
                assert(s.remove(j as int).to_multiset() =~= s.to_multiset().remove(s[j as int]));
                let m = s.to_multiset();
                let x = s[j as int];
                assert forall|y: FileListElement| m.remove(x).insert(x).count(y) == m.count(
                    y,
                ) by {
                    if y != x {
                        assert(m.remove(x).count(y) == m.count(y));
                    }
                }
                assert(m.remove(x).insert(x) =~= m);
            }
            j -= 1;
        }
        proof {
            let s = records@;
            assert forall|a: int, b: int| 0 <= a < b <= i implies seq_le(s[a].path@, s[b].path@) by {
                if b == j {
                    if j > 0 {
                        if a < j - 1 {
                            lemma_seq_le_trans(s[a].path@, s[j - 1].path@, s[j as int].path@);
                        }
                    }
                }
            }
        }
        i += 1;
    }
}

/// Write every record's line into one buffer, front to back.
pub fn build_buffer(records: &Vec<FileListElement>) -> (buf: String)
    ensures
        buf@ == buffer_of(records@),
{
    let mut buf = String::new();
    let mut i: usize = 0;
    proof {
        assert(records@.take(0) =~= Seq::<FileListElement>::empty());
    }
    while i < records.len()
        invariant
            i <= records@.len(),
            buf@ == buffer_of(records@.take(i as int)),
        decreases records@.len() - i,
    {
        let ghost b0 = buf@;
        buf.append(records[i].checksum.as_str());
        buf.append(" ");
        buf.append(records[i].cache_key.as_str());
        buf.append("\n");
        proof {
            reveal_strlit(" ");
            reveal_strlit("\n");
            assert(" "@ =~= seq![' ']);
            assert("\n"@ =~= seq!['\n']);
            assert(records@.take(i as int + 1).drop_last() =~= records@.take(i as int));
            assert(records@.take(i as int + 1).last() == records@[i as int]);
            assert(buf@ =~= buffer_of(records@.take(i as int + 1)));
        }
        i += 1;
    }
    proof {
        assert(records@.take(records@.len() as int) =~= records@);
    }
    buf
}

/// The final fingerprint of a full record set: the digest of its buffer.
pub fn fingerprint(records: &Vec<FileListElement>) -> (fp: String)
    ensures
        fp@ == md5_hex_of(buffer_of(records@)),
        fp@.len() == 32,
        forall|i: int| 0 <= i < 32 ==> crate::digest::is_lower_hex(#[trigger] fp@[i]),
{
    let buf = build_buffer(records);
    md5_hex(buf.as_str())
}

} // verus!
