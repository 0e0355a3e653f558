//! Cleaning the configured lists. Hostnames and discovery endpoints arrive
//! as one comma-separated string; each item is trimmed, and empty items and
//! duplicates are dropped, once, when the configuration is read.

use vstd::prelude::*;
use vstd::string::StrSliceExecFns;
use vstd::string::StringExecFns;
use crate::text::{trim_spec, trim, str_eq};
use crate::xml::{find_from, lemma_find_from, find_char};

verus! {

/// The cleaned items of `s` from position `p` on: each comma-separated
/// segment trimmed, with empty results dropped.
pub open spec fn clean_from(s: Seq<char>, p: int) -> Seq<Seq<char>>
    decreases s.len() - p when 0 <= p <= s.len() via clean_from_decreases
{
    let q = find_from(s, p, ',');
    let t = trim_spec(s.subrange(p, q));
    let head: Seq<Seq<char>> = if t.len() > 0 {
        seq![t]
    } else {
        Seq::empty()
    };
    if q >= s.len() {
        head
    } else {
        head + clean_from(s, q + 1)
    }
}

#[via_fn]
proof fn clean_from_decreases(s: Seq<char>, p: int) {
    lemma_find_from(s, p, ',');
}

/// The cleaned item list of the whole comma-separated string `s`.
pub open spec fn clean_list(s: Seq<char>) -> Seq<Seq<char>> {
    clean_from(s, 0)
}

/// Whether one of `items` is the string `x`.
pub open spec fn contains_item(items: Seq<Seq<char>>, x: Seq<char>) -> bool {
    exists|i: int| 0 <= i < items.len() && items[i] == x
}

/// `items` with every later repetition of an earlier item dropped: each
/// item keeps its first occurrence, in order.
pub open spec fn dedup(items: Seq<Seq<char>>) -> Seq<Seq<char>>
    decreases items.len(),
{
    if items.len() == 0 {
        Seq::empty()
    } else {
        let pre = dedup(items.drop_last());
        if contains_item(pre, items.last()) {
            pre
        } else {
            pre.push(items.last())
        }
    }
}

/// Whether one of `items` holds the characters of `x`.
fn vec_contains(items: &Vec<String>, x: &str) -> (r: bool)
    ensures
        r == contains_item(items.deep_view(), x@),
{
    let n: usize = items.len();
    let mut i: usize = 0;
    while i < n
        invariant
            0 <= i <= n,
            n == items@.len(),
            forall|j: int| 0 <= j < i ==> items.deep_view()[j] != x@,
        decreases n - i,
    {
        if str_eq(items[i].as_str(), x) {
            assert(items.deep_view()[i as int] == x@);
            return true;
        }
        i = i + 1;
    }
    false
}

/// Splits `s` on commas, trims each item, and drops the empty ones and the
/// duplicates — the one-time cleaning of a configured hostname or endpoint
/// list. Order is kept; a repeated item keeps its first position.
pub fn parse_list(s: &str) -> (r: Vec<String>)
    ensures
        r.deep_view() == dedup(clean_list(s@)),
{
    let cleaned = split_clean(s);
    let ghost items = cleaned.deep_view();
    let n: usize = cleaned.len();
    let mut out: Vec<String> = Vec::new();
    let mut i: usize = 0;
    proof {
        assert(items.take(0) =~= Seq::<Seq<char>>::empty());
        assert(out.deep_view() =~= dedup(items.take(0)));
    }
    while i < n
        invariant
            0 <= i <= n,
            n == items.len(),
            items == cleaned.deep_view(),
            items == clean_list(s@),
            out.deep_view() == dedup(items.take(i as int)),
        decreases n - i,
    {
        let ghost pre = out.deep_view();
        proof {
            assert(items.take(i + 1).drop_last() =~= items.take(i as int));
            assert(items.take(i + 1).last() == items[i as int]);
        }
        let item = &cleaned[i];
        if !vec_contains(&out, item.as_str()) {
            out.push(item.clone());
            proof {
                assert(out.deep_view() =~= pre.push(items[i as int]));
            }
        }
        i = i + 1;
    }
    proof {
        assert(items.take(n as int) =~= items);
    }
    out
}

/// Splits `s` on commas, trims each item, and drops the empty ones.
fn split_clean(s: &str) -> (r: Vec<String>)
    ensures
        r.deep_view() == clean_list(s@),
{
    let n: usize = s.unicode_len();
    let mut out: Vec<String> = Vec::new();
    let mut i: usize = 0;
    proof {
        assert(out.deep_view() =~= Seq::<Seq<char>>::empty());
    }
    loop
        invariant
            0 <= i <= n,
            n == s@.len(),
            clean_list(s@) == out.deep_view() + clean_from(s@, i as int),
        decreases n - i,
    {
        let q = find_char(s, i, ',');
        let t = trim(s.substring_char(i, q));
        let ghost pre = out.deep_view();
        if t.unicode_len() > 0 {
            out.push(String::from_str(t));
            proof {
                assert(out.deep_view() =~= pre.push(t@));
            }
        }
        if q >= n {
            proof {
                assert(clean_list(s@) =~= out.deep_view());
            }
            return out;
        }
        proof {
            assert(clean_list(s@) =~= out.deep_view() + clean_from(s@, q + 1));
        }
        i = q + 1;
    }
}

} // verus!
