//! Checksums: the per-file content hash and the final digest.
//!
//! The two hash functions themselves come from outside crates; each is given a
//! name, and everything the library does with their results is verified.

use vstd::prelude::*;

verus! {

/// The value of the per-file content hash on a byte sequence.
pub uninterp spec fn fx_of(bytes: Seq<u8>) -> u64;

/// The final digest of a text, as lowercase hexadecimal characters.
pub uninterp spec fn md5_hex_of(text: Seq<char>) -> Seq<char>;

/// Relies on fxhash::FxHasher: an unseeded hasher whose result, after writing
/// the bytes and finishing, depends on the bytes alone.
#[verifier::external_body]
pub(crate) fn fx_hash(bytes: &[u8]) -> (h: u64)
    ensures
        h == fx_of(bytes@),
{
    let mut hasher = fxhash::FxHasher::default();
    std::hash::Hasher::write(&mut hasher, bytes);
    std::hash::Hasher::finish(&hasher)
}

/// A lowercase hexadecimal digit.
pub open spec fn is_lower_hex(c: char) -> bool {
    ('0' <= c && c <= '9') || ('a' <= c && c <= 'f')
}

/// Relies on crypto::md5::Md5 and crypto::digest::Digest (rust-crypto):
/// feeding the text and reading the result gives the MD5 digest of the text's
/// bytes as a 32-character lowercase hexadecimal string, a function of the
/// text alone.
#[verifier::external_body]
pub(crate) fn md5_hex(text: &str) -> (r: String)
    ensures
        r@ == md5_hex_of(text@),
        r@.len() == 32,
        forall|i: int| 0 <= i < 32 ==> is_lower_hex(#[trigger] r@[i]),
{
    let mut hasher = crypto::md5::Md5::new();
    crypto::digest::Digest::input_str(&mut hasher, text);
    crypto::digest::Digest::result_str(&mut hasher)
}

/// The character for one decimal digit.
pub open spec fn digit_char(d: nat) -> char {
    if d == 0 {
        '0'
    } else if d == 1 {
        '1'
    } else if d == 2 {
        '2'
    } else if d == 3 {
        '3'
    } else if d == 4 {
        '4'
    } else if d == 5 {
        '5'
    } else if d == 6 {
        '6'
    } else if d == 7 {
        '7'
    } else if d == 8 {
        '8'
    } else {
        '9'
    }
}

/// The decimal rendering of a natural number, without leading zeros.
pub open spec fn dec_str(n: nat) -> Seq<char>
    decreases n,
{
    if n < 10 {
        seq![digit_char(n)]
    } else {
        dec_str(n / 10).push(digit_char(n % 10))
    }
}

/// The checksum string the library stores for a file with these bytes.
pub open spec fn checksum_of(bytes: Seq<u8>) -> Seq<char> {
    dec_str(fx_of(bytes) as nat)
}

/// A rendered number is never the empty string, and one line long exactly for
/// numbers under ten.
pub proof fn lemma_dec_str_len(n: nat)
    ensures
        dec_str(n).len() >= 1,
        n < 10 <==> dec_str(n).len() == 1,
    decreases n,
{
    if n >= 10 {
        lemma_dec_str_len(n / 10);
    }
}

/// Distinct numbers render to distinct strings.
pub proof fn lemma_dec_str_injective(a: nat, b: nat)
    ensures
        dec_str(a) == dec_str(b) ==> a == b,
    decreases a,
{
    if dec_str(a) == dec_str(b) {
        lemma_dec_str_len(a);
        lemma_dec_str_len(b);
        if a < 10 && b < 10 {
            assert(dec_str(a)[0] == dec_str(b)[0]);
        } else if a >= 10 && b >= 10 {
            let sa = dec_str(a / 10);
            let sb = dec_str(b / 10);
            assert(sa.push(digit_char(a % 10)).last() == digit_char(a % 10));
            assert(sb.push(digit_char(b % 10)).last() == digit_char(b % 10));
            assert(digit_char(a % 10) == digit_char(b % 10));
            assert(a % 10 == b % 10);
            assert(sa =~= sa.push(digit_char(a % 10)).drop_last());
            assert(sb =~= sb.push(digit_char(b % 10)).drop_last());
            assert(sa == sb);
            lemma_dec_str_injective(a / 10, b / 10);
        }
    }
}

/// Two byte sequences get equal checksum strings exactly when the content
/// hash gives them equal values.
pub proof fn lemma_checksum_discriminates(a: Seq<u8>, b: Seq<u8>)
    ensures
        checksum_of(a) == checksum_of(b) <==> fx_of(a) == fx_of(b),
{
    lemma_dec_str_injective(fx_of(a) as nat, fx_of(b) as nat);
}

/// One decimal digit as a string slice.
fn digit_str(d: u64) -> (s: &'static str)
    requires
        d < 10,
    ensures
        s@ == seq![digit_char(d as nat)],
{
    if d == 0 {
        proof {
            reveal_strlit("0");
            assert("0"@ =~= seq![digit_char(0)]);
        }
        "0"
    } else if d == 1 {
        proof {
            reveal_strlit("1");
            assert("1"@ =~= seq![digit_char(1)]);
        }
        "1"
    } else if d == 2 {
        proof {
            reveal_strlit("2");
            assert("2"@ =~= seq![digit_char(2)]);
        }
        "2"
    } else if d == 3 {
        proof {
            reveal_strlit("3");
            assert("3"@ =~= seq![digit_char(3)]);
        }
        "3"
    } else if d == 4 {
        proof {
            reveal_strlit("4");
            assert("4"@ =~= seq![digit_char(4)]);
        }
        "4"
    } else if d == 5 {
        proof {
            reveal_strlit("5");
            assert("5"@ =~= seq![digit_char(5)]);
        }
        "5"
    } else if d == 6 {
        proof {
            reveal_strlit("6");
            assert("6"@ =~= seq![digit_char(6)]);
        }
        "6"
    } else if d == 7 {
        proof {
            reveal_strlit("7");
            assert("7"@ =~= seq![digit_char(7)]);
        }
        "7"
    } else if d == 8 {
        proof {
            reveal_strlit("8");
            assert("8"@ =~= seq![digit_char(8)]);
        }
        "8"
    } else {
        proof {
            reveal_strlit("9");
            assert("9"@ =~= seq![digit_char(9)]);
        }
        "9"
    }
}

/// Render a number in decimal.
pub fn u64_to_string(n: u64) -> (s: String)
    ensures
        s@ == dec_str(n as nat),
    decreases n,
{
    if n < 10 {
        String::from_str(digit_str(n))
    } else {
        let mut s = u64_to_string(n / 10);
        s.append(digit_str(n % 10));
        proof {
            assert(dec_str((n / 10) as nat) + seq![digit_char((n % 10) as nat)] =~= dec_str(
                (n / 10) as nat,
            ).push(digit_char((n % 10) as nat)));
            assert((n / 10) as nat == n as nat / 10);
            assert((n % 10) as nat == n as nat % 10);
        }
        s
    }
}

} // verus!
