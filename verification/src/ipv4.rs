//! The IPv4 validator: decides whether a string is a syntactically valid
//! dotted-quad address, exactly as `Ipv4Addr`'s parser would. Four decimal
//! octets separated by dots, each between 0 and 255, with no leading zeros,
//! no signs, and nothing else around them.

use vstd::prelude::*;
use vstd::string::StrSliceExecFns;
use crate::text::{is_dec_digit, dec_val, lemma_dec_val_nonneg, lemma_dec_val_take_step};

verus! {

/// Whether `s` is one octet of a dotted quad: one to three decimal digits,
/// no leading zero unless the octet is exactly `0`, value at most 255.
pub open spec fn is_octet(s: Seq<char>) -> bool {
    &&& 1 <= s.len() <= 3
    &&& forall|i: int| 0 <= i < s.len() ==> is_dec_digit(s[i])
    &&& s.len() > 1 ==> s[0] != '0'
    &&& dec_val(s) <= 255
}

/// Whether the dots at positions `i < j < k` split `s` into four octets.
pub open spec fn is_ipv4_split(s: Seq<char>, i: int, j: int, k: int) -> bool {
    &&& 0 <= i < j < k < s.len()
    &&& s[i] == '.' && s[j] == '.' && s[k] == '.'
    &&& is_octet(s.subrange(0, i))
    &&& is_octet(s.subrange(i + 1, j))
    &&& is_octet(s.subrange(j + 1, k))
    &&& is_octet(s.subrange(k + 1, s.len() as int))
}

/// Whether `s` is a syntactically valid dotted-quad IPv4 address.
pub open spec fn is_ipv4(s: Seq<char>) -> bool {
    exists|i: int, j: int, k: int| is_ipv4_split(s, i, j, k)
}

/// In a valid split, the only dots of `s` are the three separators:
/// octets are made of digits, and a dot is not a digit.
proof fn lemma_split_dots(s: Seq<char>, i: int, j: int, k: int, p: int)
    requires
        is_ipv4_split(s, i, j, k),
        0 <= p < s.len(),
        s[p] == '.',
    ensures
        p == i || p == j || p == k,
{
    if p < i {
        assert(is_dec_digit(s.subrange(0, i)[p]));
    } else if i < p < j {
        assert(is_dec_digit(s.subrange(i + 1, j)[p - (i + 1)]));
    } else if j < p < k {
        assert(is_dec_digit(s.subrange(j + 1, k)[p - (j + 1)]));
    } else if k < p {
        assert(is_dec_digit(s.subrange(k + 1, s.len() as int)[p - (k + 1)]));
    }
}

/// Whether `s@.subrange(lo, hi)` is a valid octet.
fn is_octet_range(s: &str, lo: usize, hi: usize) -> (r: bool)
    requires
        lo <= hi <= s@.len(),
    ensures
        r == is_octet(s@.subrange(lo as int, hi as int)),
{
    let ghost seg: Seq<char> = s@.subrange(lo as int, hi as int);
    let len: usize = hi - lo;
    if len < 1 || len > 3 {
        return false;
    }
    let first = s.get_char(lo);
    if len > 1 && first == '0' {
        assert(seg[0] == '0');
        return false;
    }
    let mut val: u32 = 0;
    let mut i: usize = 0;
    while i < len
        invariant
            0 <= i <= len,
            lo + len == hi <= s@.len(),
            1 <= len <= 3,
            seg == s@.subrange(lo as int, hi as int),
            forall|j: int| 0 <= j < i ==> is_dec_digit(seg[j]),
            val as int == dec_val(seg.take(i as int)),
            i == 0 ==> val == 0,
            i == 1 ==> val < 10,
            i == 2 ==> val < 100,
            val < 1000,
        decreases len - i,
    {
        let c = s.get_char(lo + i);
        assert(seg[i as int] == c);
        let cv: u32 = c as u32;
        if cv < 48 || cv > 57 {
            assert(!is_dec_digit(seg[i as int]));
            return false;
        }
        proof {
            lemma_dec_val_take_step(seg, i as int);
        }
        val = val * 10 + (cv - 48);
        i = i + 1;
    }
    proof {
        assert(seg.take(len as int) =~= seg);
    }
    val <= 255
}

/// Whether `s` is a syntactically valid dotted-quad IPv4 address: true for
/// every string that parses as IPv4, false for every string that does not
/// (IPv6 forms, hostnames, the empty string, or any other text).
pub fn is_valid_ipv4(s: &str) -> (r: bool)
    ensures
        r == is_ipv4(s@),
{
    let n: usize = s.unicode_len();
    let mut count: usize = 0;
    let mut d1: usize = 0;
    let mut d2: usize = 0;
    let mut d3: usize = 0;
    let mut i: usize = 0;
    while i < n
        invariant
            0 <= i <= n,
            n == s@.len(),
            count <= 3,
            count >= 1 ==> d1 < i && s@[d1 as int] == '.',
            count >= 2 ==> d1 < d2 < i && s@[d2 as int] == '.',
            count >= 3 ==> d2 < d3 < i && s@[d3 as int] == '.',
            forall|p: int|
                0 <= p < i && s@[p] == '.' ==> (count >= 1 && p == d1) || (count >= 2 && p == d2)
                    || (count >= 3 && p == d3),
        decreases n - i,
    {
        let c = s.get_char(i);
        if c == '.' {
            if count == 0 {
                d1 = i;
            } else if count == 1 {
                d2 = i;
            } else if count == 2 {
                d3 = i;
            } else {
                // A fourth dot: no split can account for it.
                proof {
                    if is_ipv4(s@) {
                        let (a, b, c) = choose|a: int, b: int, c: int| is_ipv4_split(s@, a, b, c);
                        lemma_split_dots(s@, a, b, c, d1 as int);
                        lemma_split_dots(s@, a, b, c, d2 as int);
                        lemma_split_dots(s@, a, b, c, d3 as int);
                        lemma_split_dots(s@, a, b, c, i as int);
                    }
                }
                return false;
            }
            count = count + 1;
        }
        i = i + 1;
    }
    if count < 3 {
        // Fewer than three dots: no split can exist.
        proof {
            if is_ipv4(s@) {
                let (a, b, c) = choose|a: int, b: int, c: int| is_ipv4_split(s@, a, b, c);
                assert(s@[a] == '.' && s@[b] == '.' && s@[c] == '.');
            }
        }
        return false;
    }
    let o1 = is_octet_range(s, 0, d1);
    let o2 = is_octet_range(s, d1 + 1, d2);
    let o3 = is_octet_range(s, d2 + 1, d3);
    let o4 = is_octet_range(s, d3 + 1, n);
    let r = o1 && o2 && o3 && o4;
    proof {
        if r {
            assert(is_ipv4_split(s@, d1 as int, d2 as int, d3 as int));
        } else {
            if is_ipv4(s@) {
                let (a, b, c) = choose|a: int, b: int, c: int| is_ipv4_split(s@, a, b, c);
                lemma_split_dots(s@, a, b, c, d1 as int);
                lemma_split_dots(s@, a, b, c, d2 as int);
                lemma_split_dots(s@, a, b, c, d3 as int);
                assert(a == d1 && b == d2 && c == d3);
            }
        }
    }
    r
}

} // verus!
