//! Character-sequence helpers: equality, lexicographic order, prefixes.

use vstd::prelude::*;
use vstd::string::*;

verus! {

/// Strict lexicographic order on character sequences, by scalar value.
pub open spec fn seq_lt(a: Seq<char>, b: Seq<char>) -> bool
    decreases a.len(),
{
    if b.len() == 0 {
        false
    } else if a.len() == 0 {
        true
    } else if a[0] == b[0] {
        seq_lt(a.drop_first(), b.drop_first())
    } else {
        a[0] < b[0]
    }
}

/// Lexicographic order, allowing equality.
pub open spec fn seq_le(a: Seq<char>, b: Seq<char>) -> bool {
    seq_lt(a, b) || a == b
}

/// The order is strict: at most one of `a < b`, `b < a`, and then `a != b`.
pub proof fn lemma_seq_lt_asym(a: Seq<char>, b: Seq<char>)
    ensures
        seq_lt(a, b) ==> !seq_lt(b, a) && a != b,
    decreases a.len(),
{
    if seq_lt(a, b) && a.len() > 0 && b.len() > 0 && a[0] == b[0] {
        lemma_seq_lt_asym(a.drop_first(), b.drop_first());
    }
}

/// The order is transitive.
pub proof fn lemma_seq_lt_trans(a: Seq<char>, b: Seq<char>, c: Seq<char>)
    ensures
        seq_lt(a, b) && seq_lt(b, c) ==> seq_lt(a, c),
    decreases a.len(),
{
    if seq_lt(a, b) && seq_lt(b, c) {
        if a.len() > 0 && b.len() > 0 && c.len() > 0 && a[0] == b[0] && b[0] == c[0] {
            lemma_seq_lt_trans(a.drop_first(), b.drop_first(), c.drop_first());
        }
    }
}

/// The order with equality is transitive.
pub proof fn lemma_seq_le_trans(a: Seq<char>, b: Seq<char>, c: Seq<char>)
    ensures
        seq_le(a, b) && seq_le(b, c) ==> seq_le(a, c),
{
    if seq_lt(a, b) && seq_lt(b, c) {
        lemma_seq_lt_trans(a, b, c);
    }
}

/// The order is total: any two sequences compare.
pub proof fn lemma_seq_lt_total(a: Seq<char>, b: Seq<char>)
    ensures
        seq_lt(a, b) || seq_lt(b, a) || a == b,
    decreases a.len(),
{
    if a.len() == 0 && b.len() == 0 {
        assert(a =~= b);
    } else if a.len() > 0 && b.len() > 0 && a[0] == b[0] {
        lemma_seq_lt_total(a.drop_first(), b.drop_first());
        if !seq_lt(a, b) && !seq_lt(b, a) {
            assert(a.drop_first() == b.drop_first());
            assert forall|i: int| 0 <= i < a.len() implies a[i] == b[i] by {
                if i > 0 {
                    assert(a[i] == a.drop_first()[i - 1]);
                    assert(b[i] == b.drop_first()[i - 1]);
                }
            }
            assert(a =~= b);
        }
    }
}

/// Whether two string slices hold the same characters.
pub fn str_eq(a: &str, b: &str) -> (r: bool)
    ensures
        r == (a@ == b@),
{
    let la = a.unicode_len();
    let lb = b.unicode_len();
    if la != lb {
        return false;
    }
    let mut i: usize = 0;
    while i < la
        invariant
            i <= la,
            la == a@.len(),
            lb == b@.len(),
            la == lb,
            forall|j: int| 0 <= j < i ==> a@[j] == b@[j],
        decreases la - i,
    {
        if a.get_char(i) != b.get_char(i) {
            return false;
        }
        i += 1;
    }
    proof {
        assert(a@ =~= b@);
    }
    true
}

/// Whether `a` comes no later than `b` in lexicographic order.
pub fn str_le(a: &str, b: &str) -> (r: bool)
    ensures
        r == seq_le(a@, b@),
{
    let la = a.unicode_len();
    let lb = b.unicode_len();
    let n = if la < lb {
        la
    } else {
        lb
    };
    proof {
        assert(a@.skip(0) =~= a@);
        assert(b@.skip(0) =~= b@);
    }
    let mut i: usize = 0;
    while i < n
        invariant
            i <= n,
            la == a@.len(),
            lb == b@.len(),
            n == (if la < lb {
                la
            } else {
                lb
            }),
            forall|j: int| 0 <= j < i ==> a@[j] == b@[j],
            seq_lt(a@, b@) == seq_lt(a@.skip(i as int), b@.skip(i as int)),
            seq_lt(b@, a@) == seq_lt(b@.skip(i as int), a@.skip(i as int)),
        decreases n - i,
    {
        let ca = a.get_char(i);
        let cb = b.get_char(i);
        proof {
            assert(a@.skip(i as int)[0] == a@[i as int]);
            assert(b@.skip(i as int)[0] == b@[i as int]);
        }
        if ca < cb {
            proof {
                assert(seq_lt(a@.skip(i as int), b@.skip(i as int)));
            }
            return true;
        }
        if cb < ca {
            proof {
                assert(seq_lt(b@.skip(i as int), a@.skip(i as int)));
                lemma_seq_lt_asym(b@, a@);
            }
            return false;
        }
        proof {
            lemma_skip_step(a@, b@, i as int);
            lemma_skip_step(b@, a@, i as int);
        }
        i += 1;
    }
    proof {
        if la < lb {
            assert(a@.skip(n as int).len() == 0 && b@.skip(n as int).len() > 0);
            assert(seq_lt(a@.skip(n as int), b@.skip(n as int)));
        } else if la == lb {
            assert(a@ =~= b@);
        } else {
            assert(b@.skip(n as int).len() == 0 && a@.skip(n as int).len() > 0);
            assert(seq_lt(b@.skip(n as int), a@.skip(n as int)));
            lemma_seq_lt_asym(b@, a@);
        }
    }
    la <= lb
}

/// One unfolding step of the order on suffixes that agree up to `i`.
proof fn lemma_skip_step(a: Seq<char>, b: Seq<char>, i: int)
    requires
        0 <= i < a.len(),
        0 <= i < b.len(),
        a[i] == b[i],
    ensures
        seq_lt(a.skip(i), b.skip(i)) == seq_lt(a.skip(i + 1), b.skip(i + 1)),
{
    assert(a.skip(i).drop_first() =~= a.skip(i + 1));
    assert(b.skip(i).drop_first() =~= b.skip(i + 1));
    assert(a.skip(i)[0] == a[i]);
    assert(b.skip(i)[0] == b[i]);
}

/// Whether `suf` names the trailing components of `path`: the whole path, or
/// what follows a separator.  The empty suffix matches nothing.
pub open spec fn path_suffix_matches(path: Seq<char>, suf: Seq<char>) -> bool {
    suf.len() > 0 && (path == suf || (path.len() > suf.len() && path[path.len() - suf.len() - 1]
        == '/' && path.subrange(path.len() - suf.len(), path.len() as int) == suf))
}

/// Whether `path` ends in the trailing components `dir`.
pub fn path_ends_with(dir: &str, path: &str) -> (r: bool)
    ensures
        r == path_suffix_matches(path@, dir@),
{
    let slen = dir.unicode_len();
    let plen = path.unicode_len();
    if slen == 0 {
        return false;
    }
    if plen < slen {
        return false;
    }
    if plen == slen {
        return str_eq(dir, path);
    }
    if path.get_char(plen - slen - 1) != '/' {
        return false;
    }
    let start = plen - slen;
    let mut j: usize = 0;
    while j < slen
        invariant
            j <= slen,
            slen >= 1,
            slen == dir@.len(),
            plen == path@.len(),
            plen > slen,
            start == plen - slen,
            forall|k: int| 0 <= k < j ==> path@[start + k] == dir@[k],
        decreases slen - j,
    {
        if path.get_char(start + j) != dir.get_char(j) {
            proof {
                assert(path@.subrange(start as int, plen as int)[j as int] != dir@[j as int]);
            }
            return false;
        }
        j += 1;
    }
    proof {
        assert(path@.subrange(start as int, plen as int) =~= dir@);
    }
    true
}

/// Whether `path` lies strictly below the directory at `prefix`.
pub open spec fn under_dir(prefix: Seq<char>, path: Seq<char>) -> bool {
    prefix.len() < path.len() && path.subrange(0, prefix.len() as int) == prefix && path[prefix.len() as int]
        == '/'
}

/// Lying below a directory reaches through directories below it.
pub proof fn lemma_under_dir_trans(p: Seq<char>, a: Seq<char>, b: Seq<char>)
    requires
        under_dir(p, a),
        under_dir(a, b),
    ensures
        under_dir(p, b),
{
    assert forall|k: int| 0 <= k < p.len() implies b.subrange(0, p.len() as int)[k] == p[k] by {
        assert(b.subrange(0, a.len() as int)[k] == b[k]);
        assert(a.subrange(0, p.len() as int)[k] == a[k]);
    }
    assert(b.subrange(0, p.len() as int) =~= p);
    assert(b.subrange(0, a.len() as int)[p.len() as int] == b[p.len() as int]);
    assert(a[p.len() as int] == '/');
}

/// Whether `path` names something strictly below the directory `prefix`.
pub fn is_under(prefix: &str, path: &str) -> (r: bool)
    ensures
        r == under_dir(prefix@, path@),
{
    let plen = prefix.unicode_len();
    let len = path.unicode_len();
    if plen >= len {
        return false;
    }
    if path.get_char(plen) != '/' {
        return false;
    }
    let mut i: usize = 0;
    while i < plen
        invariant
            i <= plen,
            plen < len,
            plen == prefix@.len(),
            len == path@.len(),
            forall|j: int| 0 <= j < i ==> path@[j] == prefix@[j],
        decreases plen - i,
    {
        if path.get_char(i) != prefix.get_char(i) {
            proof {
                assert(path@.subrange(0, plen as int)[i as int] != prefix@[i as int]);
            }
            return false;
        }
        i += 1;
    }
    proof {
        assert(path@.subrange(0, plen as int) =~= prefix@);
    }
    true
}

} // verus!
