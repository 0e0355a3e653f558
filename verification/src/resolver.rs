//! The IP resolver's decision logic. The caller contacts discovery endpoints
//! in order and hands each reply in as a [`FetchOutcome`]; the resolver
//! decides which replies are acceptable and which endpoint wins.
//!
//! [`classify_outcome`] is the per-reply decision for a caller that contacts
//! endpoints one at a time and stops at the first acceptance. [`resolve`]
//! runs the same decisions over a whole reply list at once and states the
//! resolver's guarantees: the first valid answer wins, every non-empty
//! endpoint before it is contacted exactly once and in order, and nothing
//! after it is contacted at all.

use vstd::prelude::*;
use vstd::string::StrSliceExecFns;
use vstd::string::StringExecFns;
use crate::text::{trim_spec, trim};
use crate::ipv4::{is_ipv4, is_valid_ipv4};

verus! {

/// What one contact of a discovery endpoint produced.
pub enum FetchOutcome {
    /// The transport call itself failed: connection, timeout or DNS.
    TransportFailed,
    /// The endpoint answered with a non-success HTTP status.
    BadStatus { status: u16 },
    /// The endpoint answered with a success status and this body.
    Body { text: String },
}

/// Whether a reply is acceptable: a success body whose trimmed text is a
/// valid IPv4 address.
pub open spec fn outcome_accepts(o: FetchOutcome) -> bool {
    match o {
        FetchOutcome::Body { text } => is_ipv4(trim_spec(text@)),
        _ => false,
    }
}

/// The address an acceptable reply carries: its body, trimmed.
pub open spec fn outcome_ip(o: FetchOutcome) -> Seq<char> {
    match o {
        FetchOutcome::Body { text } => trim_spec(text@),
        _ => Seq::empty(),
    }
}

/// Decides one reply: the trimmed body when it is a valid IPv4 address,
/// `None` otherwise — the caller then moves on to the next endpoint.
pub fn classify_outcome(o: &FetchOutcome) -> (r: Option<String>)
    ensures
        r is Some <==> outcome_accepts(*o),
        r is Some ==> r->0@ == outcome_ip(*o),
{
    match o {
        FetchOutcome::Body { text } => {
            let t = trim(text.as_str());
            if is_valid_ipv4(t) {
                Some(String::from_str(t))
            } else {
                None
            }
        },
        _ => None,
    }
}

/// First index at or after `i` whose endpoint is non-empty and whose reply
/// is acceptable, or the number of endpoints when there is none.
pub open spec fn first_hit(eps: Seq<Seq<char>>, outs: Seq<FetchOutcome>, i: int) -> int
    decreases eps.len() - i when 0 <= i <= eps.len()
{
    if i >= eps.len() {
        eps.len() as int
    } else if eps[i].len() > 0 && outcome_accepts(outs[i]) {
        i
    } else {
        first_hit(eps, outs, i + 1)
    }
}

/// The non-empty endpoints among the first `n`, in order: the ones a
/// resolver that has looked at `n` entries has contacted.
pub open spec fn nonempty_prefix(eps: Seq<Seq<char>>, n: int) -> Seq<Seq<char>>
    decreases n,
{
    if n <= 0 {
        Seq::empty()
    } else {
        let pre = nonempty_prefix(eps, n - 1);
        if eps[n - 1].len() > 0 {
            pre.push(eps[n - 1])
        } else {
            pre
        }
    }
}

proof fn lemma_first_hit_at(eps: Seq<Seq<char>>, outs: Seq<FetchOutcome>, i: int, n: int)
    requires
        eps.len() == outs.len(),
        0 <= i <= n < eps.len(),
        forall|j: int| i <= j < n ==> !(eps[j].len() > 0 && outcome_accepts(outs[j])),
        eps[n].len() > 0 && outcome_accepts(outs[n]),
    ensures
        first_hit(eps, outs, i) == n,
    decreases n - i,
{
    if i < n {
        lemma_first_hit_at(eps, outs, i + 1, n);
    }
}

proof fn lemma_first_hit_none(eps: Seq<Seq<char>>, outs: Seq<FetchOutcome>, i: int)
    requires
        eps.len() == outs.len(),
        0 <= i <= eps.len(),
        forall|j: int| i <= j < eps.len() ==> !(eps[j].len() > 0 && outcome_accepts(outs[j])),
    ensures
        first_hit(eps, outs, i) == eps.len(),
    decreases eps.len() - i,
{
    if i < eps.len() {
        lemma_first_hit_none(eps, outs, i + 1);
    }
}

proof fn lemma_nonempty_prefix_full(eps: Seq<Seq<char>>, n: int)
    requires
        0 <= n <= eps.len(),
        forall|i: int| 0 <= i < n ==> eps[i].len() > 0,
    ensures
        nonempty_prefix(eps, n) == eps.take(n),
    decreases n,
{
    if n > 0 {
        lemma_nonempty_prefix_full(eps, n - 1);
        assert(eps.take(n) =~= eps.take(n - 1).push(eps[n - 1]));
    } else {
        assert(eps.take(0) =~= Seq::<Seq<char>>::empty());
    }
}

/// The first acceptable reply wins: with no empty entries, when the first
/// `n` endpoints fail or return unacceptable bodies and endpoint `n`
/// returns a valid address, a resolution run returns that address and
/// contacts exactly the first `n + 1` endpoints, in order — the endpoints
/// after `n` are not contacted. Together with the contract of [`resolve`],
/// whose `contacted` list is then `eps.take(n + 1)` and whose address is
/// the trimmed body of reply `n`.
pub proof fn lemma_first_success_wins(eps: Seq<Seq<char>>, outs: Seq<FetchOutcome>, n: int)
    requires
        eps.len() == outs.len(),
        forall|i: int| 0 <= i < eps.len() ==> eps[i].len() > 0,
        0 <= n < eps.len(),
        forall|i: int| 0 <= i < n ==> !outcome_accepts(outs[i]),
        outcome_accepts(outs[n]),
    ensures
        first_hit(eps, outs, 0) == n,
        nonempty_prefix(eps, n + 1) == eps.take(n + 1),
{
    lemma_first_hit_at(eps, outs, 0, n);
    lemma_nonempty_prefix_full(eps, n + 1);
}

/// Exhaustion is reported honestly: with no empty entries, when every
/// reply is unacceptable, a resolution run signals failure after
/// contacting every endpoint exactly once, in order. Together with the
/// contract of [`resolve`], whose address is then `None` and whose
/// `contacted` list is the whole endpoint list.
pub proof fn lemma_exhaustion_contacts_all(eps: Seq<Seq<char>>, outs: Seq<FetchOutcome>)
    requires
        eps.len() == outs.len(),
        forall|i: int| 0 <= i < eps.len() ==> eps[i].len() > 0,
        forall|i: int| 0 <= i < eps.len() ==> !outcome_accepts(outs[i]),
    ensures
        first_hit(eps, outs, 0) == eps.len(),
        nonempty_prefix(eps, eps.len() as int) == eps,
{
    lemma_first_hit_none(eps, outs, 0);
    lemma_nonempty_prefix_full(eps, eps.len() as int);
    assert(eps.take(eps.len() as int) =~= eps);
}

/// What a resolution run did: the winning address, if any, and every
/// endpoint that was contacted, in order.
pub struct Resolution {
    /// The first acceptable address, when one endpoint produced it.
    pub ip: Option<String>,
    /// The endpoints contacted, in order, each exactly once.
    pub contacted: Vec<String>,
}

/// Runs the resolver's decisions over one reply per endpoint, where
/// `outcomes[i]` is what contacting `endpoints[i]` returns. Empty endpoint
/// entries are skipped without contact. The first non-empty endpoint whose
/// reply carries a valid IPv4 address wins; endpoints after it are not
/// contacted. When none wins, every non-empty endpoint was contacted
/// exactly once, in order, and the resolution reports failure.
pub fn resolve(endpoints: &Vec<String>, outcomes: &Vec<FetchOutcome>) -> (r: Resolution)
    requires
        endpoints@.len() == outcomes@.len(),
    ensures
        ({
            let eps = endpoints.deep_view();
            let h = first_hit(eps, outcomes@, 0);
            &&& (r.ip is Some <==> h < eps.len())
            &&& h < eps.len() ==> r.ip->0@ == outcome_ip(outcomes@[h]) && r.contacted.deep_view()
                == nonempty_prefix(eps, h + 1)
            &&& h == eps.len() ==> r.contacted.deep_view() == nonempty_prefix(eps, eps.len() as int)
        }),
{
    let ghost eps = endpoints.deep_view();
    let n: usize = endpoints.len();
    let mut contacted: Vec<String> = Vec::new();
    let mut i: usize = 0;
    proof {
        assert(contacted.deep_view() =~= nonempty_prefix(eps, 0));
    }
    while i < n
        invariant
            0 <= i <= n,
            n == eps.len(),
            eps == endpoints.deep_view(),
            endpoints@.len() == outcomes@.len(),
            first_hit(eps, outcomes@, 0) == first_hit(eps, outcomes@, i as int),
            contacted.deep_view() == nonempty_prefix(eps, i as int),
        decreases n - i,
    {
        let ep = &endpoints[i];
        proof {
            assert(eps[i as int] == ep@);
        }
        if ep.unicode_len() == 0 {
            proof {
                assert(nonempty_prefix(eps, i + 1) =~= contacted.deep_view());
            }
            i = i + 1;
            continue;
        }
        contacted.push(ep.clone());
        proof {
            assert(contacted.deep_view() =~= nonempty_prefix(eps, i + 1));
        }
        match classify_outcome(&outcomes[i]) {
            Some(ip) => {
                proof {
                    assert(first_hit(eps, outcomes@, i as int) == i as int);
                }
                return Resolution { ip: Some(ip), contacted };
            },
            None => {},
        }
        i = i + 1;
    }
    Resolution { ip: None, contacted }
}

} // verus!
