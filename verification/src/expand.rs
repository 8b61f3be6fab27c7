//! Query expansion: derive from one user address the set of sub-addresses
//! to match (a URL contributes its host; a domain contributes its resolved
//! IPv4 addresses and CNAME targets). DNS is reached through the `Resolver`
//! interface that the caller supplies; the processing of every answer is
//! verified here, and the expansion's result is pinned down as the image of
//! the answers that came back.

use vstd::prelude::*;

use crate::address::Address;
use crate::address::AddressError;
use crate::address::AddressView;
use crate::address::HostView;
use crate::address::UrlHost;
use crate::address::idna_of;
use crate::address::spec_domain_ok;
use crate::address::spec_parse_address;
use crate::ipv4::Ipv4Address;

verus! {

/// Failure of a DNS lookup.
#[derive(Clone, Copy, Debug, PartialEq, Eq, Structural, Hash)]
pub enum ResolveError {
    /// The name exists but has no records of the asked type; expansion
    /// treats this as an empty answer, not an error.
    NoRecordsFound,
    /// Any other resolution failure.
    Failed,
}

/// One dropped item of an expansion.
#[derive(Clone, Copy, Debug, PartialEq, Eq, Structural, Hash)]
pub enum ExpandError {
    /// A URL host is an IPv6 address, which this crate does not model.
    Ipv6Host,
    /// A lookup failed with something other than an empty answer.
    Resolve,
    /// A CNAME target could not be read as a domain name.
    InvalidDomain,
}

/// A DNS resolver as the expansion consumes it. The crate states nothing
/// about what a lookup returns; the processing of every possible answer is
/// verified.
pub trait Resolver {
    /// The IPv4 addresses of the domain's address records.
    fn lookup_ipv4(&mut self, domain: &str) -> Result<Vec<Ipv4Address>, ResolveError>;

    /// The targets of the domain's CNAME records.
    fn lookup_cname(&mut self, domain: &str) -> Result<Vec<String>, ResolveError>;
}

/// A resolver with no sources: every lookup finds no records.
pub struct NullResolver;

impl Resolver for NullResolver {
    fn lookup_ipv4(&mut self, domain: &str) -> Result<Vec<Ipv4Address>, ResolveError> {
        Err(ResolveError::NoRecordsFound)
    }

    fn lookup_cname(&mut self, domain: &str) -> Result<Vec<String>, ResolveError> {
        Err(ResolveError::NoRecordsFound)
    }
}

/// The most sub-addresses one query may expand to. Successful items past
/// the cap are dropped and counted as expansion errors.
pub const EXPANSION_LIMIT: usize = 1000;

/// How many items the address-record leg of a domain's expansion holds.
pub open spec fn leg_len_ipv4(answer: Result<Vec<Ipv4Address>, ResolveError>) -> int {
    match answer {
        Ok(ips) => ips@.len() as int,
        Err(ResolveError::NoRecordsFound) => 0,
        Err(ResolveError::Failed) => 1,
    }
}

/// The address-record leg, laid out at offset `off`: one `Ok` IPv4 item per
/// returned address, in order; an empty answer contributes nothing; any
/// other lookup failure contributes exactly one `Resolve` error item.
pub open spec fn ipv4_leg_at(
    items: Seq<Result<Address, ExpandError>>,
    off: int,
    answer: Result<Vec<Ipv4Address>, ResolveError>,
) -> bool {
    match answer {
        Ok(ips) => forall|j: int|
            0 <= j < ips@.len() ==> (match #[trigger] items[off + j] {
                Ok(a) => a@ == AddressView::IPv4(ips@[j]),
                Err(_) => false,
            }),
        Err(ResolveError::NoRecordsFound) => true,
        Err(ResolveError::Failed) => items[off] == Err::<Address, ExpandError>(
            ExpandError::Resolve,
        ),
    }
}

/// How many items the CNAME leg of a domain's expansion holds.
pub open spec fn leg_len_cname(answer: Result<Vec<String>, ResolveError>) -> int {
    match answer {
        Ok(names) => names@.len() as int,
        Err(ResolveError::NoRecordsFound) => 0,
        Err(ResolveError::Failed) => 1,
    }
}

/// The CNAME leg, laid out at offset `off`: per target, the canonicalized
/// domain when it reads as one, else one `InvalidDomain` error item; an
/// empty answer contributes nothing; any other lookup failure contributes
/// exactly one `Resolve` error item.
pub open spec fn cname_leg_at(
    items: Seq<Result<Address, ExpandError>>,
    off: int,
    answer: Result<Vec<String>, ResolveError>,
) -> bool {
    match answer {
        Ok(names) => forall|j: int|
            0 <= j < names@.len() ==> (match #[trigger] items[off + j] {
                Ok(a) => spec_domain_ok(names@[j]@) && a@ == AddressView::DomainName(
                    idna_of(names@[j]@)->0,
                ),
                Err(e) => e == ExpandError::InvalidDomain && !spec_domain_ok(names@[j]@),
            }),
        Err(ResolveError::NoRecordsFound) => true,
        Err(ResolveError::Failed) => items[off] == Err::<Address, ExpandError>(
            ExpandError::Resolve,
        ),
    }
}

/// A domain's expansion items are exactly the image of its two lookup
/// answers: the address-record leg, then the CNAME leg.
pub open spec fn is_domain_expansion(
    items: Seq<Result<Address, ExpandError>>,
    ipv4_answer: Result<Vec<Ipv4Address>, ResolveError>,
    cname_answer: Result<Vec<String>, ResolveError>,
) -> bool {
    &&& items.len() == leg_len_ipv4(ipv4_answer) + leg_len_cname(cname_answer)
    &&& ipv4_leg_at(items, 0, ipv4_answer)
    &&& cname_leg_at(items, leg_len_ipv4(ipv4_answer), cname_answer)
}

/// What one address contributes to the expansion. For every variant but a
/// bare domain the contribution is a fixed value; a domain's contribution
/// is the image of some pair of lookup answers.
pub open spec fn valid_contribution(addr: Address, items: Seq<Result<Address, ExpandError>>) -> bool {
    match addr@ {
        AddressView::IPv4(_) => items.len() == 0,
        AddressView::IPv4Network(_) => items.len() == 0,
        AddressView::WildcardDomainName(_) => items.len() == 0,
        AddressView::Reserved => items.len() == 0,
        AddressView::URL(u) => match u.host {
            HostView::Domain(d) => items.len() == 1 && (match items[0] {
                Ok(a) => a@ == AddressView::DomainName(d) && a.wf(),
                Err(_) => false,
            }),
            HostView::Ipv4(ip) => items.len() == 1 && (match items[0] {
                Ok(a) => a@ == AddressView::IPv4(ip) && a.wf(),
                Err(_) => false,
            }),
            HostView::Ipv6 => items.len() == 1 && items[0] == Err::<Address, ExpandError>(
                ExpandError::Ipv6Host,
            ),
            HostView::NoHost => items.len() == 0,
        },
        AddressView::DomainName(_) => exists|
            a: Result<Vec<Ipv4Address>, ResolveError>,
            c: Result<Vec<String>, ResolveError>,
        |
            #[trigger] is_domain_expansion(items, a, c),
    }
}

/// Turn the two lookup answers for a domain into its expansion items:
/// exactly the image of the answers, address-record leg first.
#[verifier::loop_isolation(false)]
pub fn domain_answer_items(
    ipv4_answer: &Result<Vec<Ipv4Address>, ResolveError>,
    cname_answer: &Result<Vec<String>, ResolveError>,
) -> (r: Vec<Result<Address, ExpandError>>)
    ensures
        is_domain_expansion(r@, *ipv4_answer, *cname_answer),
        forall|i: int|
            0 <= i < r@.len() ==> (match #[trigger] r@[i] {
                Ok(a) => (a@ is IPv4 || a@ is DomainName) && a.wf(),
                Err(_) => true,
            }),
{
    let mut out: Vec<Result<Address, ExpandError>> = Vec::new();
    match ipv4_answer {
        Ok(ips) => {
            let n = ips.len();
            for i in 0..n
                invariant
                    out@.len() == i,
                    forall|j: int|
                        0 <= j < i ==> (match #[trigger] out@[j] {
                            Ok(a) => a@ == AddressView::IPv4(ips@[j]),
                            Err(_) => false,
                        }),
                    forall|j: int|
                        0 <= j < out@.len() ==> (match #[trigger] out@[j] {
                            Ok(a) => (a@ is IPv4 || a@ is DomainName) && a.wf(),
                            Err(_) => true,
                        }),
            {
                out.push(Ok(Address::IPv4(ips[i])));
            }
        },
        Err(e) => match e {
            ResolveError::NoRecordsFound => {},
            ResolveError::Failed => {
                out.push(Err(ExpandError::Resolve));
            },
        },
    }
    let ghost la = out@.len() as int;
    let ghost first_leg = out@;
    proof {
        assert(la == leg_len_ipv4(*ipv4_answer));
        assert(ipv4_leg_at(first_leg, 0, *ipv4_answer));
        assert(forall|j: int|
            0 <= j < out@.len() ==> (match #[trigger] out@[j] {
                Ok(a) => (a@ is IPv4 || a@ is DomainName) && a.wf(),
                Err(_) => true,
            }));
    }
    match cname_answer {
        Ok(names) => {
            let n = names.len();
            for i in 0..n
                invariant
                    out@.len() == la + i,
                    forall|j: int| 0 <= j < la ==> #[trigger] out@[j] == first_leg[j],
                    forall|j: int|
                        0 <= j < out@.len() ==> (match #[trigger] out@[j] {
                            Ok(a) => (a@ is IPv4 || a@ is DomainName) && a.wf(),
                            Err(_) => true,
                        }),
                    forall|j: int|
                        0 <= j < i ==> (match #[trigger] out@[la + j] {
                            Ok(a) => spec_domain_ok(names@[j]@) && a@ == AddressView::DomainName(
                                idna_of(names@[j]@)->0,
                            ) && a.wf(),
                            Err(e) => e == ExpandError::InvalidDomain && !spec_domain_ok(
                                names@[j]@,
                            ),
                        }),
            {
                match Address::domain_name_from_str(names[i].as_str()) {
                    Ok(a) => {
                        out.push(Ok(a));
                    },
                    Err(_) => {
                        out.push(Err(ExpandError::InvalidDomain));
                    },
                }
            }
        },
        Err(e) => match e {
            ResolveError::NoRecordsFound => {},
            ResolveError::Failed => {
                out.push(Err(ExpandError::Resolve));
            },
        },
    }
    proof {
        assert forall|j: int| 0 <= j < la implies out@[j] == first_leg[j] by {}
        assert(ipv4_leg_at(out@, 0, *ipv4_answer)) by {
            match *ipv4_answer {
                Ok(ips) => {
                    assert forall|j: int|
                        0 <= j < ips@.len() implies (match #[trigger] out@[0 + j] {
                        Ok(a) => a@ == AddressView::IPv4(ips@[j]),
                        Err(_) => false,
                    }) by {
                        assert(out@[j] == first_leg[j]);
                    }
                },
                Err(_) => {},
            }
        }
    }
    out
}

/// What one address contributes to the expansion: nothing for IPv4
/// addresses, networks and wildcards; a URL contributes its host; a domain
/// contributes exactly the image of its two lookup answers.
pub fn extract_more_info<R: Resolver>(address: &Address, resolver: &mut R) -> (r: Vec<
    Result<Address, ExpandError>,
>)
    ensures
        valid_contribution(*address, r@),
        forall|i: int|
            0 <= i < r@.len() ==> (match #[trigger] r@[i] {
                Ok(a) => (a@ is IPv4 || a@ is DomainName) && a.wf(),
                Err(_) => true,
            }),
{
    match address {
        Address::IPv4(_) => Vec::new(),
        Address::IPv4Network(_) => Vec::new(),
        Address::WildcardDomainName(_) => Vec::new(),
        Address::__NonExhaustive => Vec::new(),
        Address::URL(u) => {
            let mut out: Vec<Result<Address, ExpandError>> = Vec::new();
            match &u.host {
                UrlHost::Domain(d) => {
                    out.push(Ok(Address::DomainName(d.clone())));
                },
                UrlHost::Ipv4(ip) => {
                    out.push(Ok(Address::IPv4(*ip)));
                },
                UrlHost::Ipv6 => {
                    out.push(Err(ExpandError::Ipv6Host));
                },
                UrlHost::NoHost => {},
            }
            out
        },
        Address::DomainName(domain) => {
            let ipv4_answer = resolver.lookup_ipv4(domain.as_str());
            let cname_answer = resolver.lookup_cname(domain.as_str());
            let out = domain_answer_items(&ipv4_answer, &cname_answer);
            proof {
                assert(exists|
                    a: Result<Vec<Ipv4Address>, ResolveError>,
                    c: Result<Vec<String>, ResolveError>,
                |
                    #[trigger] is_domain_expansion(out@, a, c)) by {
                    assert(is_domain_expansion(out@, ipv4_answer, cname_answer));
                }
            }
            out
        },
    }
}

/// The addresses of the successful items, in order.
pub open spec fn ok_items(items: Seq<Result<Address, ExpandError>>) -> Seq<Address>
    decreases items.len(),
{
    if items.len() == 0 {
        Seq::empty()
    } else {
        let rest = ok_items(items.drop_last());
        match items.last() {
            Ok(a) => rest.push(a),
            Err(_) => rest,
        }
    }
}

/// How many items failed.
pub open spec fn err_count(items: Seq<Result<Address, ExpandError>>) -> int
    decreases items.len(),
{
    if items.len() == 0 {
        0
    } else {
        err_count(items.drop_last()) + (if items.last() is Err {
            1int
        } else {
            0int
        })
    }
}

/// The whole uncapped worklist: the first address, then each processed
/// element's successful contributions, in processing order.
pub open spec fn built_list(first: Address, steps: Seq<Seq<Result<Address, ExpandError>>>) -> Seq<
    Address,
>
    decreases steps.len(),
{
    if steps.len() == 0 {
        seq![first]
    } else {
        built_list(first, steps.drop_last()) + ok_items(steps.last())
    }
}

/// How many items failed over all processed elements.
pub open spec fn total_errs(steps: Seq<Seq<Result<Address, ExpandError>>>) -> int
    decreases steps.len(),
{
    if steps.len() == 0 {
        0
    } else {
        total_errs(steps.drop_last()) + err_count(steps.last())
    }
}

/// The worklist with everything past the cap dropped.
pub open spec fn trunc_limit(s: Seq<Address>) -> Seq<Address> {
    if s.len() <= EXPANSION_LIMIT {
        s
    } else {
        s.take(EXPANSION_LIMIT as int)
    }
}

/// How many addresses the cap dropped.
pub open spec fn drops_of(s: Seq<Address>) -> int {
    if s.len() <= EXPANSION_LIMIT {
        0
    } else {
        s.len() - EXPANSION_LIMIT
    }
}

/// A counter that started at `n0` after `k` more saturating increments.
pub open spec fn cap_count(n0: int, k: int) -> usize {
    if n0 + k <= usize::MAX {
        (n0 + k) as usize
    } else {
        usize::MAX
    }
}

/// Contributions land after the element that produced them: the worklist
/// built from the first `i` steps already reaches past position `i`.
pub open spec fn ordered_trace(first: Address, steps: Seq<Seq<Result<Address, ExpandError>>>) -> bool {
    forall|i: int|
        0 <= i < steps.len() ==> built_list(first, #[trigger] steps.take(i)).len() >= i + 1
}

/// The worklist closure of one expansion: one step per element of the
/// result, each step a valid contribution of its element, the result the
/// capped concatenation of the first address and every step's successful
/// items, and the error counter advanced (saturating) once per failed item
/// and once per address the cap dropped.
pub open spec fn expansion_trace(
    v: Seq<Address>,
    steps: Seq<Seq<Result<Address, ExpandError>>>,
    n0: int,
    n1: usize,
) -> bool {
    &&& v.len() >= 1
    &&& steps.len() == v.len()
    &&& forall|i: int| 0 <= i < v.len() ==> valid_contribution(v[i], #[trigger] steps[i])
    &&& v == trunc_limit(built_list(v[0], steps))
    &&& ordered_trace(v[0], steps)
    &&& n1 == cap_count(n0, total_errs(steps) + drops_of(built_list(v[0], steps)))
}

/// No item count is negative.
proof fn lemma_err_count_nonneg(items: Seq<Result<Address, ExpandError>>)
    ensures
        err_count(items) >= 0,
    decreases items.len(),
{
    if items.len() > 0 {
        lemma_err_count_nonneg(items.drop_last());
    }
}

/// One saturating increment advances a capped counter by one.
proof fn lemma_cap_step(n0: int, t: int, x: usize)
    requires
        n0 >= 0,
        t >= 0,
        x == cap_count(n0, t),
    ensures
        cap_count(n0, t + 1) == (if x as int + 1 <= usize::MAX {
            (x as int + 1) as usize
        } else {
            usize::MAX
        }),
{
}

/// Expand one user string into its sub-addresses: the parsed address first,
/// then, walking the growing list, whatever each element contributes.
/// Fails exactly when the string is no address. Items whose derivation
/// failed are counted in `n_errors` and dropped, as are successful items
/// past the `EXPANSION_LIMIT` cap; the result is exactly the capped
/// worklist closure of the parsed address over the resolver's answers.
#[verifier::loop_isolation(false)]
#[verifier::rlimit(100)]
pub fn extract_all_info<R: Resolver>(address: &str, resolver: &mut R, n_errors: &mut usize) -> (r:
    Result<Vec<Address>, AddressError>)
    ensures
        r is Ok <==> spec_parse_address(address@) is Some,
        r is Err ==> *final(n_errors) == *old(n_errors),
        *final(n_errors) >= *old(n_errors),
        r matches Ok(v) ==> {
            &&& 1 <= v@.len() <= EXPANSION_LIMIT
            &&& Some(v@[0]@) == spec_parse_address(address@)
            &&& forall|i: int| 0 <= i < v@.len() ==> (#[trigger] v@[i]).wf()
            &&& exists|steps: Seq<Seq<Result<Address, ExpandError>>>|
                #[trigger] expansion_trace(v@, steps, *old(n_errors) as int, *final(n_errors))
        },
        r matches Ok(v) ==> (match spec_parse_address(address@)->0 {
            AddressView::IPv4(_) => v@.len() == 1 && *final(n_errors) == *old(n_errors),
            AddressView::IPv4Network(_) => v@.len() == 1 && *final(n_errors) == *old(n_errors),
            AddressView::WildcardDomainName(_) => v@.len() == 1 && *final(n_errors)
                == *old(n_errors),
            AddressView::Reserved => true,
            AddressView::DomainName(_) => true,
            AddressView::URL(u) => match u.host {
                HostView::Domain(d) => v@.len() >= 2 && v@[1]@ == AddressView::DomainName(d),
                HostView::Ipv4(ip) => v@.len() == 2 && v@[1]@ == AddressView::IPv4(ip)
                    && *final(n_errors) == *old(n_errors),
                HostView::Ipv6 => v@.len() == 1 && *final(n_errors) == cap_count(
                    *old(n_errors) as int,
                    1,
                ),
                HostView::NoHost => v@.len() == 1 && *final(n_errors) == *old(n_errors),
            },
        }),
{
    let parsed = match Address::parse(address) {
        Ok(a) => a,
        Err(e) => {
            return Err(e);
        },
    };
    let ghost n0: int = *old(n_errors) as int;
    let mut extracted: Vec<Address> = Vec::new();
    extracted.push(parsed);
    let ghost e0 = extracted@[0];
    let ghost mut steps: Seq<Seq<Result<Address, ExpandError>>> = Seq::empty();
    let ghost mut drops: int = 0;
    proof {
        assert(built_list(e0, steps) =~= seq![e0]);
        assert(extracted@ =~= trunc_limit(built_list(e0, steps)));
    }
    let mut next_n: usize = 0;
    while next_n < extracted.len()
        invariant
            1 <= extracted@.len() <= EXPANSION_LIMIT,
            next_n <= extracted@.len(),
            extracted@[0] == e0,
            Some(e0@) == spec_parse_address(address@),
            forall|i: int| 0 <= i < extracted@.len() ==> (#[trigger] extracted@[i]).wf(),
            steps.len() == next_n,
            forall|i: int|
                0 <= i < steps.len() ==> valid_contribution(extracted@[i], #[trigger] steps[i]),
            extracted@ == trunc_limit(built_list(e0, steps)),
            ordered_trace(e0, steps),
            drops == drops_of(built_list(e0, steps)),
            total_errs(steps) >= 0,
            drops >= 0,
            *n_errors == cap_count(n0, total_errs(steps) + drops),
            next_n == 0 ==> extracted@.len() == 1 && *n_errors == *old(n_errors),
            next_n >= 1 ==> (match spec_parse_address(address@)->0 {
                AddressView::IPv4(_) => extracted@.len() == 1 && *n_errors == *old(n_errors),
                AddressView::IPv4Network(_) => extracted@.len() == 1 && *n_errors
                    == *old(n_errors),
                AddressView::WildcardDomainName(_) => extracted@.len() == 1 && *n_errors
                    == *old(n_errors),
                AddressView::Reserved => true,
                AddressView::DomainName(_) => true,
                AddressView::URL(u) => match u.host {
                    HostView::Domain(d) => extracted@.len() >= 2 && extracted@[1]@
                        == AddressView::DomainName(d),
                    HostView::Ipv4(ip) => extracted@.len() == 2 && extracted@[1]@
                        == AddressView::IPv4(ip) && *n_errors == *old(n_errors),
                    HostView::Ipv6 => extracted@.len() == 1 && *n_errors == cap_count(n0, 1),
                    HostView::NoHost => extracted@.len() == 1 && *n_errors == *old(n_errors),
                },
            }),
        decreases EXPANSION_LIMIT - next_n,
    {
        let ghost bl = built_list(e0, steps);
        proof {
            assert(trunc_limit(bl).len() >= next_n + 1);
            assert(bl.len() >= next_n + 1);
        }
        let more = extract_more_info(&extracted[next_n], resolver);
        let n = more.len();
        proof {
            assert(more@.take(0) =~= Seq::<Result<Address, ExpandError>>::empty());
            assert(bl + ok_items(more@.take(0)) =~= bl);
        }
        for k in 0..n
            invariant
                n == more@.len(),
                1 <= extracted@.len() <= EXPANSION_LIMIT,
                next_n < extracted@.len(),
                extracted@[0] == e0,
                forall|i: int| 0 <= i < extracted@.len() ==> (#[trigger] extracted@[i]).wf(),
                forall|i: int|
                    0 <= i < steps.len() ==> valid_contribution(
                        extracted@[i],
                        #[trigger] steps[i],
                    ),
                extracted@ == trunc_limit(bl + ok_items(more@.take(k as int))),
                drops == drops_of(bl + ok_items(more@.take(k as int))),
                total_errs(steps) >= 0,
                err_count(more@.take(k as int)) >= 0,
                drops >= 0,
                *n_errors == cap_count(
                    n0,
                    total_errs(steps) + err_count(more@.take(k as int)) + drops,
                ),
                (match spec_parse_address(address@)->0 {
                    AddressView::IPv4(_) => *n_errors == *old(n_errors) && extracted@.len() == 1,
                    AddressView::IPv4Network(_) => *n_errors == *old(n_errors)
                        && extracted@.len() == 1,
                    AddressView::WildcardDomainName(_) => *n_errors == *old(n_errors)
                        && extracted@.len() == 1,
                    AddressView::Reserved => true,
                    AddressView::DomainName(_) => true,
                    AddressView::URL(u) => match u.host {
                        HostView::Domain(d) => next_n == 0 ==> (if k == 0 {
                            extracted@.len() == 1
                        } else {
                            extracted@.len() == 2 && extracted@[1]@ == AddressView::DomainName(d)
                        }),
                        HostView::Ipv4(ip) => (next_n == 0 ==> (if k == 0 {
                            extracted@.len() == 1
                        } else {
                            extracted@.len() == 2 && extracted@[1]@ == AddressView::IPv4(ip)
                        }) && *n_errors == *old(n_errors)) && (next_n >= 1
                            ==> extracted@.len() == 2 && extracted@[1]@ == AddressView::IPv4(ip)
                            && *n_errors == *old(n_errors)),
                        HostView::Ipv6 => next_n == 0 ==> extracted@.len() == 1 && (if k == 0 {
                            *n_errors == *old(n_errors)
                        } else {
                            *n_errors == cap_count(n0, 1)
                        }),
                        HostView::NoHost => *n_errors == *old(n_errors) && extracted@.len() == 1,
                    },
                }),
        {
            let ghost pre = more@.take(k as int);
            let ghost full = bl + ok_items(pre);
            let ghost t = total_errs(steps) + err_count(pre) + drops;
            proof {
                assert(more@.take(k + 1).drop_last() =~= pre);
                assert(more@.take(k + 1).last() == more@[k as int]);
            }
            match &more[k] {
                Ok(a) => {
                    proof {
                        assert(ok_items(more@.take(k + 1)) =~= ok_items(pre).push(*a));
                        assert(err_count(more@.take(k + 1)) == err_count(pre));
                        assert(bl + ok_items(more@.take(k + 1)) =~= full.push(*a));
                    }
                    if extracted.len() < EXPANSION_LIMIT {
                        proof {
                            assert(full.len() < EXPANSION_LIMIT);
                            assert(trunc_limit(full.push(*a)) =~= trunc_limit(full).push(*a));
                            assert(drops_of(full.push(*a)) == drops);
                        }
                        extracted.push(a.clone());
                    } else {
                        proof {
                            assert(extracted@.len() == EXPANSION_LIMIT);
                            assert(full.len() >= EXPANSION_LIMIT);
                            assert((full.push(*a)).take(EXPANSION_LIMIT as int) =~= full.take(
                                EXPANSION_LIMIT as int,
                            ));
                            assert(trunc_limit(full.push(*a)) =~= trunc_limit(full));
                            drops = drops + 1;
                            assert(drops == drops_of(full.push(*a)));
                            lemma_cap_step(n0, t, *n_errors);
                        }
                        *n_errors = (*n_errors).saturating_add(1);
                        assert(*n_errors == cap_count(
                            n0,
                            total_errs(steps) + err_count(more@.take(k + 1)) + drops,
                        ));
                    }
                },
                Err(_) => {
                    proof {
                        assert(ok_items(more@.take(k + 1)) =~= ok_items(pre));
                        assert(err_count(more@.take(k + 1)) == err_count(pre) + 1);
                        assert(bl + ok_items(more@.take(k + 1)) =~= full);
                        lemma_cap_step(n0, t, *n_errors);
                    }
                    *n_errors = (*n_errors).saturating_add(1);
                    assert(*n_errors == cap_count(
                        n0,
                        total_errs(steps) + err_count(more@.take(k + 1)) + drops,
                    ));
                },
            }
        }
        proof {
            assert(more@.take(n as int) =~= more@);
            lemma_err_count_nonneg(more@);
            let steps2 = steps.push(more@);
            assert(steps2.drop_last() =~= steps);
            assert(built_list(e0, steps2) == bl + ok_items(more@));
            assert(total_errs(steps2) == total_errs(steps) + err_count(more@));
            assert forall|i: int|
                0 <= i < steps2.len() implies built_list(e0, #[trigger] steps2.take(i)).len() >= i
                + 1 by {
                if i < steps.len() {
                    assert(steps2.take(i) =~= steps.take(i));
                } else {
                    assert(steps2.take(i) =~= steps);
                    assert(built_list(e0, steps) == bl);
                    assert(bl.len() >= next_n + 1);
                }
            }
            steps = steps2;
        }
        next_n = next_n + 1;
    }
    proof {
        assert(expansion_trace(extracted@, steps, n0, *n_errors));
    }
    Ok(extracted)
}

} // verus!
